use proxy::error_pages::{builtin_error_body, error_page_candidates, status_reason};

#[test]
fn test_status_reason_known_codes() {
    assert_eq!(status_reason(404), "Not Found");
    assert_eq!(status_reason(502), "Bad Gateway");
    assert_eq!(status_reason(500), "Internal Server Error");
}

#[test]
fn test_status_reason_unknown() {
    assert_eq!(status_reason(418), "Error");
}

#[test]
fn test_builtin_page_contains_code() {
    let body = builtin_error_body(404);
    assert!(body.contains("404"));
    assert!(body.contains("Not Found"));
}

#[test]
fn test_builtin_page_no_xss_in_status_code() {
    let body = builtin_error_body(404);
    assert!(body.contains("404"));
    assert!(!body.contains("<script>"));
}

#[test]
fn test_builtin_page_all_standard_codes() {
    for code in [400, 401, 403, 404, 405, 408, 413, 429, 500, 502, 503, 504] {
        let body = builtin_error_body(code);
        assert!(body.starts_with("<!DOCTYPE html>"));
        assert!(body.contains(&code.to_string()));
    }
}

#[test]
fn test_builtin_page_nonstandard_code() {
    let body = builtin_error_body(999);
    assert!(body.contains("999"));
    assert!(body.contains("Error"));
}

#[test]
fn test_builtin_page_valid_html_structure() {
    let body = builtin_error_body(403);
    assert!(body.contains("<html>"));
    assert!(body.contains("</html>"));
    assert!(body.contains("<title>"));
    assert!(body.contains("</title>"));
    assert!(body.contains("pingora-manager"));
}

#[test]
fn builtin_page_exact_text() {
    assert_eq!(
        builtin_error_body(502),
        "<!DOCTYPE html>\n<html><head><title>502 Bad Gateway</title></head>\n<body>\n<center><h1>502 Bad Gateway</h1></center>\n<hr><center>pingora-manager</center>\n</body></html>\n"
    );
}

#[test]
fn every_reason_phrase() {
    let table = [
        (400, "Bad Request"),
        (401, "Unauthorized"),
        (403, "Forbidden"),
        (404, "Not Found"),
        (405, "Method Not Allowed"),
        (408, "Request Timeout"),
        (413, "Payload Too Large"),
        (429, "Too Many Requests"),
        (500, "Internal Server Error"),
        (502, "Bad Gateway"),
        (503, "Service Unavailable"),
        (504, "Gateway Timeout"),
        (200, "Error"),
    ];
    for (code, reason) in table {
        assert_eq!(status_reason(code), reason);
    }
}

#[test]
fn error_page_lookup_order() {
    let c = error_page_candidates("/data/error-pages", 404, Some(3), Some(7));
    assert_eq!(
        c,
        vec![
            "/data/error-pages/host-3/404.html".to_string(),
            "/data/error-pages/group-7/404.html".to_string(),
            "/data/error-pages/global/404.html".to_string(),
        ]
    );
    let c = error_page_candidates("/pages/", 502, None, None);
    assert_eq!(c, vec!["/pages/global/502.html".to_string()]);
}
