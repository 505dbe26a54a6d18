//! Waiting for LXD async operations: the request to LXD's `/wait` endpoint
//! and the reading of its answer.

use vstd::prelude::*;
use crate::lxd::client::{check_error, ApiErrorView, LxdApiError};
use crate::lxd::models::{LxdResponse, Operation};
use crate::text::{append_decimal, append_str, dec_string, owned, str_eq};

verus! {

broadcast use vstd::string::group_string_axioms;

/// The extra seconds the HTTP connection stays open beyond LXD's own wait.
pub const WAIT_HTTP_MARGIN_SECS: u64 = 10;

/// `{operation_url}/wait?timeout={seconds}`: LXD's blocking wait endpoint.
pub fn wait_path(operation_url: &str, timeout_secs: u64) -> (r: String)
    ensures
        r@ == operation_url@ + "/wait?timeout="@ + dec_string(timeout_secs as nat),
{
    let mut p = owned(operation_url);
    append_str(&mut p, "/wait?timeout=");
    append_decimal(&mut p, timeout_secs);
    p
}

/// The HTTP timeout for a wait: LXD's wait plus a margin of ten seconds.
pub fn wait_http_timeout(timeout_secs: u64) -> (r: u64)
    requires
        timeout_secs + WAIT_HTTP_MARGIN_SECS <= u64::MAX,
    ensures
        r == timeout_secs + WAIT_HTTP_MARGIN_SECS,
{
    timeout_secs + WAIT_HTTP_MARGIN_SECS
}

/// The message for an operation that failed without saying why.
pub open spec fn failure_message(operation_url: Seq<char>, op: &Operation) -> Seq<char> {
    if op.err@.len() == 0 {
        "operation "@ + operation_url + " failed with status "@ + op.status@
    } else {
        op.err@
    }
}

/// An operation LXD still runs: its status reads "Running" or its code is 103.
pub open spec fn still_running(op: &Operation) -> bool {
    op.status@ == "Running"@ || op.status_code == 103
}

/// The message for an operation that ended neither in success nor in
/// failure (a cancelled one, say).
pub open spec fn unfinished_message(operation_url: Seq<char>, op: &Operation) -> Seq<char> {
    "operation "@ + operation_url + " did not complete, status "@ + op.status@
}

/// Reads the answer of a wait of `timeout_secs` seconds: an error envelope
/// is an API error; a payload that did not decode (its decoder's message
/// given) or is absent is a JSON error; a failed operation is an error with
/// its message (or one naming the operation and its status); a successful
/// operation is returned; one still running means the wait timed out; any
/// other operation did not complete, which is an error naming its status.
pub fn finish_wait(
    operation_url: &str,
    timeout_secs: u64,
    env: &LxdResponse,
    decoded: Result<Option<Operation>, String>,
) -> (r: Result<Operation, LxdApiError>)
    ensures
        env.response_type@ == "error"@ ==> (r matches Err(e) && e@ == (ApiErrorView::Api {
            status: env.error_code,
            message: env.error@,
        })),
        env.response_type@ != "error"@ ==> match decoded {
            Err(m) => r matches Err(e) && e@ == ApiErrorView::Json(m@),
            Ok(None) => r matches Err(e) && e@ == ApiErrorView::Json(
                "missing operation metadata in wait response"@,
            ),
            Ok(Some(op)) => if op.spec_is_failure() {
                r matches Err(e) && e@ == ApiErrorView::OperationFailed(
                    failure_message(operation_url@, &op),
                )
            } else if op.spec_is_success() {
                r == Ok::<Operation, LxdApiError>(op)
            } else if still_running(&op) {
                r matches Err(e) && e@ == ApiErrorView::Timeout(timeout_secs)
            } else {
                r matches Err(e) && e@ == ApiErrorView::OperationFailed(
                    unfinished_message(operation_url@, &op),
                )
            },
        },
        r matches Ok(op) ==> op.spec_is_success() && !op.spec_is_failure(),
{
    if let Err(e) = check_error(env) {
        return Err(e);
    }
    let op = match decoded {
        Err(m) => {
            return Err(LxdApiError::Json(m));
        },
        Ok(None) => {
            return Err(LxdApiError::Json(owned("missing operation metadata in wait response")));
        },
        Ok(Some(op)) => op,
    };
    if op.is_failure() {
        let message = if op.err.as_str().is_empty() {
            let mut m = owned("operation ");
            append_str(&mut m, operation_url);
            append_str(&mut m, " failed with status ");
            append_str(&mut m, op.status.as_str());
            m
        } else {
            op.err
        };
        return Err(LxdApiError::OperationFailed(message));
    }
    if op.is_success() {
        return Ok(op);
    }
    // LXD hands back an operation still running when its own wait expired.
    if str_eq(op.status.as_str(), "Running") || op.status_code == 103 {
        return Err(LxdApiError::Timeout(timeout_secs));
    }
    let mut m = owned("operation ");
    append_str(&mut m, operation_url);
    append_str(&mut m, " did not complete, status ");
    append_str(&mut m, op.status.as_str());
    Err(LxdApiError::OperationFailed(m))
}

} // verus!
