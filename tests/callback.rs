use std::cell::Cell;

use git_warden::callback::{authorize_callback, check_state, error_summary, interpret_callback, request_target};
use git_warden::error::AuthError;

const BASE: &str = "http://127.0.0.1:8080";

#[test]
fn provider_error_callback_never_reaches_exchange() {
    let exchanges = Cell::new(0u32);
    let exchange = |_code: &str| exchanges.set(exchanges.get() + 1);
    let line = "GET /?error=access_denied&error_description=User+denied HTTP/1.1\r\n";
    match authorize_callback(BASE, line, "state123") {
        Ok(code) => exchange(&code),
        Err(AuthError::ProviderError(s)) => {
            assert!(s.contains("access_denied"));
            assert!(s.contains("User denied"));
        },
        Err(_) => panic!("provider error expected"),
    }
    assert_eq!(exchanges.get(), 0);
}

#[test]
fn matching_state_yields_code_and_any_byte_difference_aborts() {
    let line = "GET /?code=abc&state=s3cr3t HTTP/1.1";
    assert_eq!(authorize_callback(BASE, line, "s3cr3t").ok(), Some("abc".to_string()));
    assert!(matches!(authorize_callback(BASE, line, "s3cr3u"), Err(AuthError::CsrfMismatch)));
    assert!(matches!(authorize_callback(BASE, line, "s3cr3"), Err(AuthError::CsrfMismatch)));
    assert!(check_state("same", "same").is_ok());
    assert!(matches!(check_state("same", "sane"), Err(AuthError::CsrfMismatch)));
}

#[test]
fn missing_fields_are_protocol_errors() {
    match authorize_callback(BASE, "GET /?state=x HTTP/1.1", "x") {
        Err(AuthError::ProtocolError(m)) => assert!(m.contains("'code'")),
        _ => panic!("protocol error expected"),
    }
    match authorize_callback(BASE, "GET /?code=c HTTP/1.1", "x") {
        Err(AuthError::ProtocolError(m)) => assert!(m.contains("'state'")),
        _ => panic!("protocol error expected"),
    }
    assert!(matches!(authorize_callback(BASE, "GET", "x"), Err(AuthError::ProtocolError(_))));
}

#[test]
fn callback_parts() {
    assert_eq!(request_target("  GET   /cb?x=1  HTTP/1.1"), Some("/cb?x=1".to_string()));
    assert_eq!(request_target("GET"), None);
    let pairs = vec![
        ("error".to_string(), "e".to_string()),
        ("error_description".to_string(), String::new()),
        ("error_uri".to_string(), "u".to_string()),
    ];
    match interpret_callback(&pairs) {
        Err(AuthError::ProviderError(s)) => assert_eq!(s, "e (u)"),
        _ => panic!("provider error expected"),
    }
    let later_wins = vec![
        ("code".to_string(), "1".to_string()),
        ("code".to_string(), "2".to_string()),
        ("state".to_string(), "s".to_string()),
    ];
    assert_eq!(interpret_callback(&later_wins).ok(), Some(("2".to_string(), "s".to_string())));
    assert_eq!(error_summary("c", Some("d"), None), "c: d");
}
