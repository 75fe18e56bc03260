use git_warden::hosts::Hosts;
use git_warden::request::{decide_get, parse_credential_lines, parse_expiry, GetStep};

fn lines(v: &[&str]) -> Vec<String> {
    v.iter().map(|s| s.to_string()).collect()
}

#[test]
fn request_lines_are_read_up_to_the_blank_line() {
    let req = parse_credential_lines(&lines(&[
        "protocol=https",
        "host=github.com",
        "username=alice",
        "password_expiry_utc= 1700000000 ",
        "host=gitlab.com",
        "",
        "password=after-blank",
    ]))
    .unwrap();
    assert_eq!(req.protocol, "https");
    assert_eq!(req.host, "gitlab.com");
    assert_eq!(req.username.as_deref(), Some("alice"));
    assert_eq!(req.password, None);
    assert_eq!(req.password_expiry_utc, Some(1_700_000_000));
    assert!(parse_credential_lines(&lines(&["host=x"])).is_err());
    assert!(parse_credential_lines(&lines(&["protocol=https"])).is_err());
}

#[test]
fn expiry_values() {
    assert_eq!(parse_expiry("+42"), Some(42));
    assert_eq!(parse_expiry("9223372036854775807"), Some(i64::MAX));
    assert_eq!(parse_expiry("9223372036854775808"), None);
    assert_eq!(parse_expiry("-1"), None);
    assert_eq!(parse_expiry(""), None);
    assert_eq!(parse_expiry("12a"), None);
}

#[test]
fn get_steps() {
    let mut hosts = Hosts::new();
    let plain = parse_credential_lines(&lines(&["protocol=https", "host=github.com"])).unwrap();
    assert!(matches!(decide_get(&plain, &hosts, false, false, false, false), GetStep::NoProvider));
    assert!(matches!(decide_get(&plain, &hosts, true, false, true, false), GetStep::Unsupported));
    assert!(matches!(decide_get(&plain, &hosts, true, false, false, false), GetStep::LoginFirst));
    assert!(matches!(decide_get(&plain, &hosts, true, false, false, true), GetStep::RunFlow));
    hosts.set_active_credential("github.com", "alice");
    match decide_get(&plain, &hosts, true, false, false, false) {
        GetStep::UseStored(n) => assert_eq!(n, "alice"),
        _ => panic!("stored credential expected"),
    }
    let with_refresh = parse_credential_lines(&lines(&["protocol=https", "host=github.com", "oauth_refresh_token=r"])).unwrap();
    match decide_get(&with_refresh, &hosts, true, true, true, false) {
        GetStep::UseRefreshToken(r) => assert_eq!(r, "r"),
        _ => panic!("refresh expected"),
    }
    let named = parse_credential_lines(&lines(&["protocol=https", "host=github.com", "username=bob"])).unwrap();
    match decide_get(&named, &hosts, true, false, false, false) {
        GetStep::UseStored(n) => assert_eq!(n, "bob"),
        _ => panic!("stored credential expected"),
    }
}
