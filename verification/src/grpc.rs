//! How the compute-driver RPC service checks requests and reports errors.
//! The RPC transport lives at the edge of the program.

use vstd::prelude::*;
use crate::sandbox::{ComputeDriverError, DriverErrorView, DriverSandbox};
use crate::text::{owned, str_eq};

verus! {

broadcast use vstd::string::group_string_axioms;

/// The status codes the service answers with.
#[derive(Debug, Clone, Copy, PartialEq, Eq)]
pub enum RpcCode {
    InvalidArgument,
    NotFound,
    FailedPrecondition,
    AlreadyExists,
    Internal,
}

/// An RPC error: a code and a message.
#[derive(Debug)]
pub struct RpcStatus {
    pub code: RpcCode,
    pub message: String,
}

pub struct RpcStatusView {
    pub code: RpcCode,
    pub message: Seq<char>,
}

impl View for RpcStatus {
    type V = RpcStatusView;

    open spec fn view(&self) -> RpcStatusView {
        RpcStatusView { code: self.code, message: self.message@ }
    }
}

fn rpc_status(code: RpcCode, message: &str) -> (r: RpcStatus)
    ensures
        r@ == (RpcStatusView { code, message: message@ }),
{
    RpcStatus { code, message: owned(message) }
}

/// How a driver error is reported: "already exists", a failed
/// precondition with its message, or an internal error with its message.
pub open spec fn status_of(e: DriverErrorView) -> RpcStatusView {
    match e {
        DriverErrorView::AlreadyExists => RpcStatusView {
            code: RpcCode::AlreadyExists,
            message: "sandbox already exists"@,
        },
        DriverErrorView::Precondition(m) => RpcStatusView {
            code: RpcCode::FailedPrecondition,
            message: m,
        },
        DriverErrorView::Message(m) => RpcStatusView { code: RpcCode::Internal, message: m },
    }
}

/// Reports a driver error.
pub fn status_from_driver_error(err: ComputeDriverError) -> (r: RpcStatus)
    ensures
        r@ == status_of(err@),
{
    match err {
        ComputeDriverError::AlreadyExists => rpc_status(
            RpcCode::AlreadyExists,
            "sandbox already exists",
        ),
        ComputeDriverError::Precondition(msg) => RpcStatus {
            code: RpcCode::FailedPrecondition,
            message: msg,
        },
        ComputeDriverError::Message(msg) => RpcStatus { code: RpcCode::Internal, message: msg },
    }
}

/// A request must carry a sandbox.
pub fn require_sandbox(sandbox: Option<DriverSandbox>) -> (r: Result<DriverSandbox, RpcStatus>)
    ensures
        match sandbox {
            Some(s) => r == Ok::<DriverSandbox, RpcStatus>(s),
            None => (r matches Err(e) && e@ == (RpcStatusView {
                code: RpcCode::InvalidArgument,
                message: "sandbox is required"@,
            })),
        },
{
    match sandbox {
        Some(s) => Ok(s),
        None => Err(rpc_status(RpcCode::InvalidArgument, "sandbox is required")),
    }
}

/// A request must name its sandbox.
pub fn require_sandbox_name(sandbox_name: &str) -> (r: Result<(), RpcStatus>)
    ensures
        r is Ok <==> sandbox_name@.len() > 0,
        r matches Err(e) ==> e@ == (RpcStatusView {
            code: RpcCode::InvalidArgument,
            message: "sandbox_name is required"@,
        }),
{
    if sandbox_name.is_empty() {
        Err(rpc_status(RpcCode::InvalidArgument, "sandbox_name is required"))
    } else {
        Ok(())
    }
}

/// A delete request must carry the sandbox's id and name, checked in that
/// order.
pub fn check_delete_request(sandbox_id: &str, sandbox_name: &str) -> (r: Result<(), RpcStatus>)
    ensures
        r is Ok <==> sandbox_id@.len() > 0 && sandbox_name@.len() > 0,
        sandbox_id@.len() == 0 ==> (r matches Err(e) && e@ == (RpcStatusView {
            code: RpcCode::InvalidArgument,
            message: "sandbox_id is required"@,
        })),
        sandbox_id@.len() > 0 && sandbox_name@.len() == 0 ==> (r matches Err(e) && e@ == (
        RpcStatusView { code: RpcCode::InvalidArgument, message: "sandbox_name is required"@ })),
{
    if sandbox_id.is_empty() {
        return Err(rpc_status(RpcCode::InvalidArgument, "sandbox_id is required"));
    }
    require_sandbox_name(sandbox_name)
}

/// The answer to a lookup: the sandbox found, unless there is none or the
/// request names an id that is not the sandbox's.
pub fn get_sandbox_response(requested_id: &str, found: Option<DriverSandbox>) -> (r: Result<
    DriverSandbox,
    RpcStatus,
>)
    ensures
        match found {
            None => (r matches Err(e) && e@ == (RpcStatusView {
                code: RpcCode::NotFound,
                message: "sandbox not found"@,
            })),
            Some(s) => if requested_id@.len() > 0 && requested_id@ != s.id@ {
                (r matches Err(e) && e@ == (RpcStatusView {
                    code: RpcCode::FailedPrecondition,
                    message: "sandbox_id did not match the fetched sandbox"@,
                }))
            } else {
                r == Ok::<DriverSandbox, RpcStatus>(s)
            },
        },
{
    match found {
        None => Err(rpc_status(RpcCode::NotFound, "sandbox not found")),
        Some(s) => {
            if !requested_id.is_empty() && !str_eq(requested_id, s.id.as_str()) {
                Err(
                    rpc_status(
                        RpcCode::FailedPrecondition,
                        "sandbox_id did not match the fetched sandbox",
                    ),
                )
            } else {
                Ok(s)
            }
        },
    }
}

} // verus!
