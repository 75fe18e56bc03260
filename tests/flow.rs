use git_warden::error::AuthError;
use git_warden::flow::{
    bind_step, classify_legacy, falls_back_after_device_failure, legacy_reply_from_body,
    preferred_flow_from_name, scopes_to_request, select_flow, BindStep, DeviceAction, DevicePoller, FlowPlan,
    LegacyReply, PollEvent, PollMode, PreferredFlow,
};
use git_warden::token::Token;

#[test]
fn selector_follows_force_and_preference() {
    assert!(matches!(select_flow(None, false, true), Err(AuthError::UnsupportedFlow)));
    assert_eq!(select_flow(None, true, true).ok(), Some(FlowPlan::DeviceOnly));
    assert_eq!(select_flow(Some(PreferredFlow::Device), false, false).ok(), Some(FlowPlan::DeviceOnly));
    assert_eq!(select_flow(Some(PreferredFlow::AuthCode), true, false).ok(), Some(FlowPlan::AuthCodeOnly));
    assert_eq!(select_flow(Some(PreferredFlow::Auto), true, false).ok(), Some(FlowPlan::DeviceThenAuthCode));
    assert_eq!(select_flow(None, false, false).ok(), Some(FlowPlan::AuthCodeOnly));
    assert!(falls_back_after_device_failure(FlowPlan::DeviceThenAuthCode));
    assert!(!falls_back_after_device_failure(FlowPlan::DeviceOnly));
    assert_eq!(preferred_flow_from_name("device"), PreferredFlow::Device);
    assert_eq!(preferred_flow_from_name("authcode"), PreferredFlow::AuthCode);
    assert_eq!(preferred_flow_from_name("whatever"), PreferredFlow::Auto);
}

#[test]
fn bind_retries_within_budget_then_gives_up() {
    assert_eq!(bind_step(0, true), BindStep::Bound);
    assert_eq!(bind_step(4_999, false), BindStep::RetryAfter(500));
    assert_eq!(bind_step(5_000, false), BindStep::GiveUp);
}

#[test]
fn pending_pending_slow_down_token_sleeps_three_times() {
    let mut p = DevicePoller::new(5);
    let first = p.step(PollEvent::StandardUnparsable("{\"error\":\"authorization_pending\"}".into()));
    assert!(matches!(first, DeviceAction::PollLegacyNow));
    assert_eq!(p.mode, PollMode::Legacy);
    let replies = vec![
        LegacyReply::Pending,
        LegacyReply::Pending,
        LegacyReply::SlowDown,
        LegacyReply::Granted(Token::new("tok".into(), None, None)),
    ];
    let mut sleeps = Vec::new();
    let mut result = None;
    for r in replies {
        match p.step(PollEvent::Legacy(r)) {
            DeviceAction::SleepThenPollLegacy(s) => sleeps.push(s),
            DeviceAction::Finish(t) => result = Some(t),
            _ => panic!("unexpected action"),
        }
    }
    assert_eq!(sleeps, vec![5, 5, 10]);
    assert_eq!(result.unwrap().access_token(), "tok");
}

#[test]
fn slow_down_interval_is_remembered() {
    let mut p = DevicePoller::new(2);
    p.step(PollEvent::StandardUnparsable("authorization_pending".into()));
    assert!(matches!(p.step(PollEvent::Legacy(LegacyReply::SlowDown)), DeviceAction::SleepThenPollLegacy(7)));
    assert!(matches!(p.step(PollEvent::Legacy(LegacyReply::Pending)), DeviceAction::SleepThenPollLegacy(7)));
}

#[test]
fn standard_outcomes_end_the_flow() {
    let mut p = DevicePoller::new(5);
    assert!(matches!(p.step(PollEvent::StandardToken(Token::new("t".into(), None, None))), DeviceAction::Finish(_)));
    let mut q = DevicePoller::new(5);
    match q.step(PollEvent::StandardError("access_denied".into())) {
        DeviceAction::Fail(AuthError::ProviderError(s)) => assert_eq!(s, "access_denied"),
        _ => panic!("provider error expected"),
    }
    let mut r = DevicePoller::new(5);
    assert!(matches!(r.step(PollEvent::StandardUnparsable("<html>".into())), DeviceAction::Fail(AuthError::ProtocolError(_))));
    assert_eq!(r.mode, PollMode::Standard);
}

#[test]
fn legacy_failures_carry_summary() {
    let mut p = DevicePoller::new(5);
    p.step(PollEvent::StandardUnparsable("authorization_pending".into()));
    let reply = legacy_reply_from_body(
        "{\"error\":\"expired_token\",\"error_description\":\"too late\",\"error_uri\":\"https://e/x\"}",
        0,
    )
    .unwrap();
    match p.step(PollEvent::Legacy(reply)) {
        DeviceAction::Fail(AuthError::ProviderError(s)) => assert_eq!(s, "expired_token: too late (https://e/x)"),
        _ => panic!("provider error expected"),
    }
}

#[test]
fn legacy_bodies_are_classified() {
    assert!(matches!(legacy_reply_from_body("{\"error\":\"authorization_pending\"}", 0).unwrap(), LegacyReply::Pending));
    assert!(matches!(legacy_reply_from_body("{\"error\":\"slow_down\"}", 0).unwrap(), LegacyReply::SlowDown));
    assert!(matches!(legacy_reply_from_body("{}", 0).unwrap(), LegacyReply::Missing));
    assert!(legacy_reply_from_body("not json", 0).is_err());
    match legacy_reply_from_body("{\"access_token\":\"a\",\"refresh_token\":\"r\",\"expires_in\":60}", 1_000).unwrap() {
        LegacyReply::Granted(t) => {
            assert_eq!(t.access_token(), "a");
            assert_eq!(t.refresh_token(), Some("r"));
            assert_eq!(t.expires_at, Some(1_060));
        },
        _ => panic!("token expected"),
    }
    match classify_legacy(Some("bad".into()), None, None, None, None, None, 0) {
        LegacyReply::Failed(s) => assert_eq!(s, "bad"),
        _ => panic!("failure expected"),
    }
}

#[test]
fn scopes_are_sent_only_when_listed() {
    assert!(scopes_to_request(&None).is_empty());
    assert!(scopes_to_request(&Some(vec![])).is_empty());
    assert_eq!(scopes_to_request(&Some(vec!["repo".to_string()])), vec!["repo".to_string()]);
}
