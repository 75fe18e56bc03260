use git_warden::token::{CheckedAccess, Token};

#[test]
fn fresh_token_needs_no_refresh_twice() {
    let t = Token::new("secret".into(), Some("r1".into()), Some(2_000));
    for now in [1_000, 1_500] {
        match t.access_token_checked(now) {
            CheckedAccess::Ready(s) => assert_eq!(s, "secret"),
            _ => panic!("no refresh expected"),
        }
    }
    assert_eq!(t.access_token(), "secret");
}

#[test]
fn expired_token_asks_for_refresh_or_fails_without_one() {
    let t = Token::new("old".into(), Some("r1".into()), Some(100));
    assert!(t.is_expired(101));
    assert!(!t.is_expired(100));
    match t.access_token_checked(101) {
        CheckedAccess::Refresh(r) => assert_eq!(r, "r1"),
        _ => panic!("refresh expected"),
    }
    let u = Token::new("old".into(), None, Some(100));
    assert!(matches!(u.access_token_checked(101), CheckedAccess::NoRefreshToken));
    assert_eq!(u.refresh_grant(), None);
    let v = Token::new("x".into(), None, None);
    assert!(matches!(v.access_token_checked(i64::MAX), CheckedAccess::Ready(_)));
}

#[test]
fn install_refreshed_replaces_every_field() {
    let mut t = Token::new("old".into(), Some("r1".into()), Some(100));
    let fresh = Token::from_grant("new".into(), None, Some(3600), 1_000);
    let s = t.install_refreshed(fresh);
    assert_eq!(s, "new");
    assert_eq!(t.access_token(), "new");
    assert_eq!(t.refresh_token(), None);
    assert_eq!(t.expires_at, Some(4_600));
    assert_eq!(Token::from_grant("a".into(), None, None, 5).expires_at, None);
}

#[test]
fn redaction_shows_at_most_four_characters() {
    assert_eq!(Token::new("abcdefghij".into(), None, None).redacted(), "abcd***");
    assert_eq!(Token::new("abcdef".into(), None, None).redacted(), "abcd***");
    assert_eq!(Token::new("abcd".into(), None, None).redacted(), "***");
    assert_eq!(Token::new(String::new(), None, None).redacted(), "***");
}

#[test]
fn pack_writes_compact_record() {
    let t = Token::new("a\"b\\c\n".into(), None, None);
    assert_eq!(
        t.pack().unwrap(),
        "{\"access_token\":\"a\\\"b\\\\c\\n\",\"refresh_token\":null,\"expires_at\":null}"
    );
    let u = Token::new("tok".into(), Some("ref".into()), Some(0));
    assert_eq!(
        u.pack().unwrap(),
        "{\"access_token\":\"tok\",\"refresh_token\":\"ref\",\"expires_at\":\"1970-01-01T00:00:00Z\"}"
    );
}

#[test]
fn pack_then_unpack_round_trips() {
    let cases = vec![
        Token::new("gho_abc".into(), Some("ghr_def".into()), Some(1_700_000_000)),
        Token::new("with \"quotes\" and \\ and \u{1}".into(), None, Some(-86_400)),
        Token::new(String::new(), Some("é∂😀".into()), None),
    ];
    for t in cases {
        let s = t.pack().unwrap();
        let u = Token::from_string(&s).unwrap();
        assert_eq!(u.access_token(), t.access_token());
        assert_eq!(u.refresh_token(), t.refresh_token());
        assert_eq!(u.expires_at, t.expires_at);
    }
}

#[test]
fn unpack_rejects_malformed_records() {
    assert!(Token::from_string("").is_err());
    assert!(Token::from_string("{\"access_token\":\"x\"}").is_err());
    assert!(Token::from_string("{\"access_token\":\"x\",\"refresh_token\":null,\"expires_at\":\"soon\"}").is_err());
    assert!(Token::from_string("{\"access_token\":\"x\",\"refresh_token\":null,\"expires_at\":null} ").is_err());
    let t = Token::from_string("{\"access_token\":\"\\u0041\\/\",\"refresh_token\":null,\"expires_at\":null}").unwrap();
    assert_eq!(t.access_token(), "A/");
}

#[test]
fn pack_fails_for_expiry_outside_four_digit_years() {
    assert!(Token::new("x".into(), None, Some(i64::MAX)).pack().is_none());
    assert!(Token::new("x".into(), None, Some(253_402_300_800)).pack().is_none());
    assert!(Token::new("x".into(), None, Some(-62_167_219_201)).pack().is_none());
    for secs in [253_402_300_799, -62_167_219_200] {
        let t = Token::new("x".into(), None, Some(secs));
        let u = Token::from_string(&t.pack().unwrap()).unwrap();
        assert_eq!(u.expires_at, Some(secs));
    }
}
