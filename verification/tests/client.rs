use openshell_driver_lxd::lxd::client::{
    check_http_status, file_exists_outcome, files_path, parse_error, push_dir_headers,
    push_file_headers, sanitize_instance_name, url_encode, validate_instance_name, LxdApiError,
    LxdClient,
};

#[test]
fn validate_instance_name_accepts_valid_names() {
    assert!(validate_instance_name("my-vm").is_ok());
    assert!(validate_instance_name("openshell-abc123").is_ok());
    assert!(validate_instance_name("a").is_ok());
    assert!(validate_instance_name("vm1").is_ok());
}

#[test]
fn validate_instance_name_rejects_invalid_names() {
    assert!(validate_instance_name("").is_err());
    assert!(validate_instance_name("-leading").is_err());
    assert!(validate_instance_name("trailing-").is_err());
    assert!(validate_instance_name("has_underscore").is_err());
    assert!(validate_instance_name("has.dot").is_err());
    assert!(validate_instance_name("has/slash").is_err());
    assert!(validate_instance_name("has space").is_err());
    let long = "a".repeat(64);
    assert!(validate_instance_name(&long).is_err());
}

#[test]
fn sanitize_instance_name_handles_underscores() {
    let name = sanitize_instance_name("sandbox_abc_123").unwrap();
    assert_eq!(name, "sandbox-abc-123");
}

#[test]
fn sanitize_instance_name_handles_leading_hyphen() {
    let name = sanitize_instance_name("-bad-start").unwrap();
    assert!(name.starts_with("os"));
}

#[test]
fn sanitize_instance_name_truncates_long_names() {
    let long = "a".repeat(100);
    let name = sanitize_instance_name(&long).unwrap();
    assert!(name.len() <= 63);
}

#[test]
fn sanitize_instance_name_collapses_consecutive_hyphens() {
    let name = sanitize_instance_name("a--b___c").unwrap();
    assert_eq!(name, "a-b-c");
}

#[test]
fn url_encode_encodes_special_characters() {
    assert_eq!(url_encode("hello world"), "hello%20world");
    assert_eq!(url_encode("/sandbox/path"), "%2Fsandbox%2Fpath");
    assert_eq!(url_encode("safe-_.~"), "safe-_.~");
}

fn invalid_input(r: Result<(), LxdApiError>) -> String {
    match r {
        Err(LxdApiError::InvalidInput(m)) => m,
        other => panic!("expected invalid input, got {:?}", other),
    }
}

#[test]
fn validate_instance_name_messages() {
    assert_eq!(invalid_input(validate_instance_name("")), "instance name must not be empty");
    assert_eq!(
        invalid_input(validate_instance_name(&"a".repeat(64))),
        "instance name exceeds maximum length of 63 characters (got 64)"
    );
    assert_eq!(
        invalid_input(validate_instance_name("-x")),
        "instance name must start with an alphanumeric character: \"-x\""
    );
    assert_eq!(
        invalid_input(validate_instance_name("x-")),
        "instance name must end with an alphanumeric character: \"x-\""
    );
    assert_eq!(
        invalid_input(validate_instance_name("a_b")),
        "instance name may only contain alphanumerics and hyphens: \"a_b\""
    );
    // A multi-byte name counts its bytes.
    assert!(validate_instance_name(&"é".repeat(32)).is_err());
    assert!(validate_instance_name(&"a".repeat(63)).is_ok());
}

#[test]
fn sanitize_instance_name_edge_cases() {
    assert_eq!(sanitize_instance_name("-bad-start").unwrap(), "os-bad-start");
    assert_eq!(sanitize_instance_name("héllo wörld").unwrap(), "h-llo-w-rld");
    assert_eq!(sanitize_instance_name("trailing___").unwrap(), "trailing");
    match sanitize_instance_name("___") {
        Ok(n) => assert_eq!(n, "os"),
        Err(e) => panic!("unexpected {:?}", e),
    }
    match sanitize_instance_name("") {
        Err(LxdApiError::InvalidInput(m)) => {
            assert_eq!(m, "sandbox name produces empty instance name after sanitization")
        }
        other => panic!("unexpected {:?}", other),
    }
    let long = format!("{}-{}", "a".repeat(62), "b".repeat(10));
    assert_eq!(sanitize_instance_name(&long).unwrap(), "a".repeat(62));
    // Sanitizing twice changes nothing more.
    let once = sanitize_instance_name("My Sandbox__01!").unwrap();
    assert_eq!(once, "My-Sandbox-01");
    assert_eq!(sanitize_instance_name(&once).unwrap(), once);
    // A valid name without doubled hyphens is left as it is.
    for name in ["my-vm", "openshell-abc123", "a", "vm1", "A-b-C-9"] {
        assert!(validate_instance_name(name).is_ok());
        assert_eq!(sanitize_instance_name(name).unwrap(), name);
    }
}

#[test]
fn url_encode_bytes_of_multibyte_characters() {
    assert_eq!(url_encode("é"), "%C3%A9");
    assert_eq!(url_encode(""), "");
    assert_eq!(url_encode("a&b=c"), "a%26b%3Dc");
    // Encoding a joined text joins the encodings.
    assert_eq!(url_encode("a b/é"), format!("{}{}", url_encode("a b"), url_encode("/é")));
}

#[test]
fn error_rendering() {
    assert_eq!(LxdApiError::NotFound("x".into()).to_string(), "LXD API not found (404): x");
    assert_eq!(LxdApiError::Conflict("x".into()).to_string(), "LXD API conflict (409): x");
    assert_eq!(
        LxdApiError::Api { status: 500, message: "boom".into() }.to_string(),
        "LXD API error (500): boom"
    );
    assert_eq!(LxdApiError::Connection("c".into()).to_string(), "connection error: c");
    assert_eq!(LxdApiError::Timeout(30).to_string(), "timeout after 30s");
    // A zero duration reads as nanoseconds, as `Duration`'s rendering has it.
    assert_eq!(LxdApiError::Timeout(0).to_string(), "timeout after 0ns");
    assert_eq!(LxdApiError::Json("j".into()).to_string(), "JSON error: j");
    assert_eq!(LxdApiError::InvalidInput("i".into()).to_string(), "invalid input: i");
    assert_eq!(LxdApiError::OperationFailed("o".into()).to_string(), "operation failed: o");
}

#[test]
fn parse_error_classifies_statuses() {
    let body = br#"{"type":"error","error":"not there","error_code":404}"#;
    match parse_error(404, body) {
        LxdApiError::NotFound(m) => assert_eq!(m, "not there"),
        other => panic!("unexpected {:?}", other),
    }
    match parse_error(409, br#"{"error":"exists"}"#) {
        LxdApiError::Conflict(m) => assert_eq!(m, "exists"),
        other => panic!("unexpected {:?}", other),
    }
    match parse_error(500, b"plain text") {
        LxdApiError::Api { status, message } => {
            assert_eq!(status, 500);
            assert_eq!(message, "plain text");
        }
        other => panic!("unexpected {:?}", other),
    }
    // An empty error member falls back to the body.
    match parse_error(400, br#"{"error":""}"#) {
        LxdApiError::Api { message, .. } => assert_eq!(message, r#"{"error":""}"#),
        other => panic!("unexpected {:?}", other),
    }
    // Invalid UTF-8 is replaced.
    match parse_error(500, &[0x66, 0xff]) {
        LxdApiError::Api { message, .. } => assert_eq!(message, "f\u{fffd}"),
        other => panic!("unexpected {:?}", other),
    }
}

#[test]
fn http_status_checks() {
    assert!(check_http_status(200, b"").is_ok());
    assert!(check_http_status(202, b"").is_ok());
    assert!(check_http_status(299, b"").is_ok());
    assert!(matches!(check_http_status(404, b"gone"), Err(LxdApiError::NotFound(_))));
    assert!(matches!(file_exists_outcome(200, "/f"), Ok(true)));
    assert!(matches!(file_exists_outcome(404, "/f"), Ok(false)));
    // Only 200 means the file is there.
    match file_exists_outcome(204, "/f") {
        Err(LxdApiError::Api { status, .. }) => assert_eq!(status, 204),
        other => panic!("unexpected {:?}", other),
    }
    match file_exists_outcome(500, "/f") {
        Err(LxdApiError::Api { status, message }) => {
            assert_eq!(status, 500);
            assert_eq!(message, "unexpected status checking file /f");
        }
        other => panic!("unexpected {:?}", other),
    }
}

#[test]
fn file_paths_and_headers() {
    assert_eq!(
        files_path("vm1", "/opt/openshell/supervisor", "openshell"),
        "/1.0/instances/vm1/files?path=%2Fopt%2Fopenshell%2Fsupervisor&project=openshell"
    );
    let h = push_file_headers(0, 0, 0o755);
    let h: Vec<(&str, &str)> = h.iter().map(|(a, b)| (a.as_str(), b.as_str())).collect();
    assert_eq!(
        h,
        vec![
            ("X-LXD-uid", "0"),
            ("X-LXD-gid", "0"),
            ("X-LXD-mode", "0755"),
            ("X-LXD-type", "file"),
            ("Content-Type", "application/octet-stream"),
        ]
    );
    let d = push_dir_headers(0o700);
    assert_eq!(d[2].1, "0700");
    assert_eq!(push_file_headers(1000, 42, 0o4755)[2].1, "4755");
    assert_eq!(push_file_headers(7, 8, 0o5)[0].1, "7");
    assert_eq!(push_file_headers(7, 8, 0o5)[2].1, "0005");
    assert_eq!(LxdClient::new("/tmp/lxd.sock".to_string()).socket_path(), "/tmp/lxd.sock");
}
