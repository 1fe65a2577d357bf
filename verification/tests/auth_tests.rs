use kasir_cache::auth::AuthService;
use kasir_cache::errors::DebugAppError;

#[test]
fn cookie_value_of_matching_part() {
    let header = "XSRF-TOKEN=abc123; path=/; secure";
    assert_eq!(AuthService::extract_cookie_value(header, "XSRF-TOKEN"), "abc123");
}

#[test]
fn cookie_value_skips_earlier_parts() {
    let header = "path=/; new_kasir_v2_session=s3cr3t; httponly";
    assert_eq!(AuthService::extract_cookie_value(header, "new_kasir_v2_session"), "s3cr3t");
}

#[test]
fn cookie_value_absent_name_is_empty() {
    assert_eq!(AuthService::extract_cookie_value("a=1; b=2", "missing"), "");
}

#[test]
fn cookie_value_part_without_equals_is_empty() {
    assert_eq!(AuthService::extract_cookie_value("secure; a=1", "secure"), "");
}

#[test]
fn cookie_value_trims_before_matching() {
    assert_eq!(AuthService::extract_cookie_value("a=1;   XSRF-TOKEN=t0k", "XSRF-TOKEN"), "t0k");
}

#[test]
fn scan_tokens_finds_both_headers() {
    let headers = vec![
        String::from("XSRF-TOKEN=xsrfval; path=/"),
        String::from("new_kasir_v2_session=sessval; path=/"),
        String::from("other=thing"),
    ];
    let (xsrf, session) = AuthService::scan_login_tokens(&headers);
    assert_eq!(xsrf, "xsrfval");
    assert_eq!(session, "sessval");
}

#[test]
fn scan_tokens_missing_headers_leave_empties() {
    let (xsrf, session) = AuthService::scan_login_tokens(&vec![String::from("other=thing")]);
    assert_eq!(xsrf, "");
    assert_eq!(session, "");
}

#[test]
fn cookie_header_composition() {
    assert_eq!(
        AuthService::build_cookie_header("X", "S"),
        "XSRF-TOKEN=X; new_kasir_v2_session=S"
    );
}

#[test]
fn final_cookies_keep_heads_of_session_headers() {
    let headers = vec![
        String::from("XSRF-TOKEN=a; path=/; secure"),
        String::from("tracking=xyz; path=/"),
        String::from("remember_web_123=tok; httponly"),
        String::from("new_kasir_v2_session=s; path=/"),
    ];
    let cookies = AuthService::collect_final_cookies(&headers);
    assert_eq!(cookies, vec!["XSRF-TOKEN=a", "remember_web_123=tok", "new_kasir_v2_session=s"]);
}

#[test]
fn login_response_joins_cookies() {
    let headers = vec![
        String::from("XSRF-TOKEN=a; path=/"),
        String::from("new_kasir_v2_session=s; path=/"),
    ];
    let cookie = AuthService::process_login_response(&headers).unwrap();
    assert_eq!(cookie, "XSRF-TOKEN=a; new_kasir_v2_session=s");
}

#[test]
fn login_response_without_cookies_is_unauthorized() {
    let r = AuthService::process_login_response(&vec![String::from("other=thing; path=/")]);
    assert!(matches!(r, Err(DebugAppError::Unauthorized(_))));
}

#[test]
fn login_page_extracts_csrf_token() {
    // through the real HTML parser
    let html = "<html><body><form>\
                <input type=\"hidden\" name=\"_token\" value=\"csrf-42\">\
                </form></body></html>";
    let headers = vec![String::from("XSRF-TOKEN=x; path=/")];
    let data = AuthService::process_login_page(&headers, html).unwrap();
    assert_eq!(data.csrf_token, "csrf-42");
    assert_eq!(data.xsrf_token, "x");
    assert_eq!(data.session_token, "");
}

#[test]
fn login_page_without_token_fails() {
    let html = "<html><body>no form here</body></html>";
    let r = AuthService::process_login_page(&vec![], html);
    assert!(matches!(r, Err(DebugAppError::Serialization(_))));
}
