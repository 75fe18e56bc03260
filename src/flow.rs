//! Flow selection and the decisions of the device-authorization flow and of
//! the loopback listener's bind loop.
use vstd::prelude::*;
use crate::error::AuthError;
use crate::text::{owned, contains_str, has_infix};
use crate::token::Token;

verus! {

/// A provider's preferred authorization flow.
#[derive(PartialEq, Eq, Structural, Clone, Copy, Debug)]
pub enum PreferredFlow {
    Auto,
    Device,
    AuthCode,
}

/// Which flows to run, in order.
#[derive(PartialEq, Eq, Structural, Clone, Copy, Debug)]
pub enum FlowPlan {
    /// Only the device-authorization flow.
    DeviceOnly,
    /// Only the authorization-code flow with PKCE.
    AuthCodeOnly,
    /// The device flow first; on any failure, the authorization-code flow once.
    DeviceThenAuthCode,
}

/// Reads a configured preference: `device` and `authcode` name those flows;
/// anything else means automatic choice.
pub fn preferred_flow_from_name(s: &str) -> (r: PreferredFlow)
    ensures
        r == (if s@ == "device"@ {
            PreferredFlow::Device
        } else if s@ == "authcode"@ {
            PreferredFlow::AuthCode
        } else {
            PreferredFlow::Auto
        }),
{
    if crate::text::str_eq(s, "device") {
        PreferredFlow::Device
    } else if crate::text::str_eq(s, "authcode") {
        PreferredFlow::AuthCode
    } else {
        PreferredFlow::Auto
    }
}

/// The plan that the selector picks, or `None` where forcing the device flow
/// meets a provider without a device endpoint.
pub open spec fn plan_for(preferred: Option<PreferredFlow>, has_device_url: bool, force_device: bool) -> Option<FlowPlan> {
    if force_device {
        if has_device_url { Some(FlowPlan::DeviceOnly) } else { None }
    } else {
        match preferred {
            Some(PreferredFlow::Device) => Some(FlowPlan::DeviceOnly),
            Some(PreferredFlow::AuthCode) => Some(FlowPlan::AuthCodeOnly),
            _ => if has_device_url { Some(FlowPlan::DeviceThenAuthCode) } else { Some(FlowPlan::AuthCodeOnly) },
        }
    }
}

/// Chooses the flows to run for a provider.
pub fn select_flow(preferred: Option<PreferredFlow>, has_device_url: bool, force_device: bool) -> (r: Result<FlowPlan, AuthError>)
    ensures
        r matches Ok(p) ==> plan_for(preferred, has_device_url, force_device) == Some(p),
        r matches Err(e) ==> plan_for(preferred, has_device_url, force_device) is None && e is UnsupportedFlow,
        r is Err <==> plan_for(preferred, has_device_url, force_device) is None,
{
    if force_device {
        if has_device_url {
            Ok(FlowPlan::DeviceOnly)
        } else {
            Err(AuthError::UnsupportedFlow)
        }
    } else {
        match preferred {
            Some(PreferredFlow::Device) => Ok(FlowPlan::DeviceOnly),
            Some(PreferredFlow::AuthCode) => Ok(FlowPlan::AuthCodeOnly),
            _ => if has_device_url {
                Ok(FlowPlan::DeviceThenAuthCode)
            } else {
                Ok(FlowPlan::AuthCodeOnly)
            },
        }
    }
}

/// Whether the authorization-code flow runs after the device flow failed.
pub fn falls_back_after_device_failure(plan: FlowPlan) -> (r: bool)
    ensures
        r == (plan == FlowPlan::DeviceThenAuthCode),
{
    match plan {
        FlowPlan::DeviceThenAuthCode => true,
        _ => false,
    }
}

/// The scopes that an authorization request names: the configured ones
/// when there are any; none when the list is absent or empty, so that no
/// `scope` parameter is sent.
pub fn scopes_to_request(scopes: &Option<Vec<String>>) -> (r: Vec<String>)
    ensures
        match scopes {
            Some(v) => crate::hosts::names_view(r@) == crate::hosts::names_view(v@),
            None => r@.len() == 0,
        },
{
    match scopes {
        Some(v) => crate::hosts::clone_names(v),
        None => Vec::new(),
    }
}

/// Time budget for binding the loopback listener, in milliseconds.
pub const BIND_BUDGET_MS: u64 = 5000;

/// Pause between bind attempts, in milliseconds.
pub const BIND_RETRY_MS: u64 = 500;

/// What to do after a bind attempt.
#[derive(PartialEq, Eq, Structural, Clone, Copy, Debug)]
pub enum BindStep {
    /// The listener is bound.
    Bound,
    /// Wait this many milliseconds and try again.
    RetryAfter(u64),
    /// The budget is spent.
    GiveUp,
}

/// Decides after a bind attempt made `elapsed_ms` after the first one.
pub fn bind_step(elapsed_ms: u64, bound: bool) -> (r: BindStep)
    ensures
        bound ==> r == BindStep::Bound,
        !bound && elapsed_ms < BIND_BUDGET_MS ==> r == BindStep::RetryAfter(BIND_RETRY_MS),
        !bound && elapsed_ms >= BIND_BUDGET_MS ==> r == BindStep::GiveUp,
{
    if bound {
        BindStep::Bound
    } else if elapsed_ms < BIND_BUDGET_MS {
        BindStep::RetryAfter(BIND_RETRY_MS)
    } else {
        BindStep::GiveUp
    }
}

/// The error that ends a bind loop whose budget is spent.
pub fn bind_failure() -> (r: AuthError)
    ensures
        r is ListenerBindTimeout,
{
    AuthError::ListenerBindTimeout
}

/// Extra wait that a `slow_down` reply adds to the poll interval, in seconds.
pub const SLOW_DOWN_EXTRA_SECS: u64 = 5;

/// Which endpoint the device flow polls.
#[derive(PartialEq, Eq, Structural, Clone, Copy, Debug)]
pub enum PollMode {
    /// The standard device-grant exchange.
    Standard,
    /// Raw JSON polling of the token endpoint, for providers that do not
    /// follow the standard.
    Legacy,
}

/// A reply of the token endpoint in legacy polling.
pub enum LegacyReply {
    /// `authorization_pending`.
    Pending,
    /// `slow_down`.
    SlowDown,
    /// Any other error, with its summary.
    Failed(String),
    /// A token.
    Granted(Token),
    /// Neither an error nor an access token.
    Missing,
}

/// What a poll of the device flow produced.
pub enum PollEvent {
    /// The standard exchange returned a token.
    StandardToken(Token),
    /// The standard exchange returned a definitive error, with its summary.
    StandardError(String),
    /// The standard exchange got a body that is not a compliant error; the
    /// raw body is kept.
    StandardUnparsable(String),
    /// A legacy poll's reply.
    Legacy(LegacyReply),
}

/// What the device flow does next.
pub enum DeviceAction {
    /// Poll the token endpoint through the legacy protocol now.
    PollLegacyNow,
    /// Sleep this many seconds, then poll through the legacy protocol.
    SleepThenPollLegacy(u64),
    /// The flow succeeded.
    Finish(Token),
    /// The flow failed.
    Fail(AuthError),
}

/// The polling state of one device flow.
pub struct DevicePoller {
    /// The endpoint being polled.
    pub mode: PollMode,
    /// Seconds to sleep between legacy polls.
    pub interval: u64,
}

/// An action as a small number and the wait it carries.
pub open spec fn action_kind(a: DeviceAction) -> (u8, u64) {
    match a {
        DeviceAction::PollLegacyNow => (0, 0),
        DeviceAction::SleepThenPollLegacy(s) => (1, s),
        DeviceAction::Finish(_) => (2, 0),
        DeviceAction::Fail(_) => (3, 0),
    }
}

/// The interval after a `slow_down` reply.
pub open spec fn slowed(interval: u64) -> u64 {
    if interval + SLOW_DOWN_EXTRA_SECS <= u64::MAX { (interval + SLOW_DOWN_EXTRA_SECS) as u64 } else { u64::MAX }
}

/// The marker that a non-compliant provider puts in its pending reply.
pub open spec fn pending_marker() -> Seq<char> {
    "authorization_pending"@
}

/// One step of the device flow on the model: the next mode, the next
/// interval and the kind of action.
pub open spec fn poll_step(mode: PollMode, interval: u64, ev: PollEvent) -> (PollMode, u64, (u8, u64)) {
    match (mode, ev) {
        (PollMode::Standard, PollEvent::StandardToken(_)) => (mode, interval, (2, 0)),
        (PollMode::Standard, PollEvent::StandardError(_)) => (mode, interval, (3, 0)),
        (PollMode::Standard, PollEvent::StandardUnparsable(body)) =>
            if has_infix(body@, pending_marker()) { (PollMode::Legacy, interval, (0, 0)) } else { (mode, interval, (3, 0)) },
        (PollMode::Legacy, PollEvent::Legacy(LegacyReply::Pending)) => (mode, interval, (1, interval)),
        (PollMode::Legacy, PollEvent::Legacy(LegacyReply::SlowDown)) => (mode, slowed(interval), (1, slowed(interval))),
        (PollMode::Legacy, PollEvent::Legacy(LegacyReply::Granted(_))) => (mode, interval, (2, 0)),
        _ => (mode, interval, (3, 0)),
    }
}

impl DevicePoller {
    /// A poller that starts with the standard exchange.
    pub fn new(interval: u64) -> (r: DevicePoller)
        ensures
            r.mode == PollMode::Standard,
            r.interval == interval,
    {
        DevicePoller { mode: PollMode::Standard, interval }
    }

    /// Takes in what the last poll produced and says what comes next.
    /// Only `authorization_pending` and `slow_down` lead to another poll; the
    /// switch to legacy polling happens at most once and is never undone.
    pub fn step(&mut self, ev: PollEvent) -> (r: DeviceAction)
        ensures
            (final(self).mode, final(self).interval, action_kind(r)) == poll_step(old(self).mode, old(self).interval, ev),
            old(self).mode == PollMode::Standard ==> match ev {
                PollEvent::StandardToken(u) => r matches DeviceAction::Finish(t) && t@ == u@,
                PollEvent::StandardError(m) => r matches DeviceAction::Fail(e) && e == AuthError::ProviderError(m),
                PollEvent::StandardUnparsable(body) => if has_infix(body@, pending_marker()) {
                    r is PollLegacyNow
                } else {
                    r matches DeviceAction::Fail(e) && e == AuthError::ProtocolError(body)
                },
                PollEvent::Legacy(_) => r matches DeviceAction::Fail(e) && e is ProtocolError,
            },
            old(self).mode == PollMode::Legacy ==> match ev {
                PollEvent::Legacy(LegacyReply::Pending) => r == DeviceAction::SleepThenPollLegacy(old(self).interval),
                PollEvent::Legacy(LegacyReply::SlowDown) => r == DeviceAction::SleepThenPollLegacy(slowed(old(self).interval)),
                PollEvent::Legacy(LegacyReply::Failed(m)) => r matches DeviceAction::Fail(e) && e == AuthError::ProviderError(m),
                PollEvent::Legacy(LegacyReply::Granted(u)) => r matches DeviceAction::Finish(t) && t@ == u@,
                _ => r matches DeviceAction::Fail(e) && e is ProtocolError,
            },
    {
        match ev {
            PollEvent::StandardToken(t) => {
                if self.mode == PollMode::Standard {
                    DeviceAction::Finish(t)
                } else {
                    DeviceAction::Fail(AuthError::ProtocolError(owned("standard reply during legacy polling")))
                }
            },
            PollEvent::StandardError(s) => {
                if self.mode == PollMode::Standard {
                    DeviceAction::Fail(AuthError::ProviderError(s))
                } else {
                    DeviceAction::Fail(AuthError::ProtocolError(owned("standard reply during legacy polling")))
                }
            },
            PollEvent::StandardUnparsable(body) => {
                if self.mode == PollMode::Standard && contains_str(body.as_str(), "authorization_pending") {
                    self.mode = PollMode::Legacy;
                    DeviceAction::PollLegacyNow
                } else {
                    DeviceAction::Fail(AuthError::ProtocolError(body))
                }
            },
            PollEvent::Legacy(reply) => {
                if self.mode == PollMode::Standard {
                    DeviceAction::Fail(AuthError::ProtocolError(owned("legacy reply during standard polling")))
                } else {
                    match reply {
                        LegacyReply::Pending => DeviceAction::SleepThenPollLegacy(self.interval),
                        LegacyReply::SlowDown => {
                            self.interval = if self.interval <= u64::MAX - SLOW_DOWN_EXTRA_SECS {
                                self.interval + SLOW_DOWN_EXTRA_SECS
                            } else {
                                u64::MAX
                            };
                            DeviceAction::SleepThenPollLegacy(self.interval)
                        },
                        LegacyReply::Failed(s) => DeviceAction::Fail(AuthError::ProviderError(s)),
                        LegacyReply::Granted(t) => DeviceAction::Finish(t),
                        LegacyReply::Missing => DeviceAction::Fail(AuthError::ProtocolError(owned("missing access_token in response"))),
                    }
                }
            },
        }
    }
}

/// Legacy polling that sees `pending`, `pending`, `slow_down` and then a
/// token sleeps exactly three times, for the interval, the interval again and
/// the interval plus five seconds, and then finishes.
pub proof fn lemma_pending_pending_slowdown_token(interval: u64, t: Token)
    requires
        interval + SLOW_DOWN_EXTRA_SECS <= u64::MAX,
    ensures
        ({
            let s1 = poll_step(PollMode::Legacy, interval, PollEvent::Legacy(LegacyReply::Pending));
            let s2 = poll_step(s1.0, s1.1, PollEvent::Legacy(LegacyReply::Pending));
            let s3 = poll_step(s2.0, s2.1, PollEvent::Legacy(LegacyReply::SlowDown));
            let s4 = poll_step(s3.0, s3.1, PollEvent::Legacy(LegacyReply::Granted(t)));
            &&& s1.2 == (1u8, interval)
            &&& s2.2 == (1u8, interval)
            &&& s3.2 == (1u8, (interval + SLOW_DOWN_EXTRA_SECS) as u64)
            &&& s4.2 == (2u8, 0u64)
        }),
{
}

/// The switch to legacy polling happens at most once: once legacy, every
/// step stays legacy.
pub proof fn lemma_legacy_is_final(interval: u64, ev: PollEvent)
    ensures
        poll_step(PollMode::Legacy, interval, ev).0 == PollMode::Legacy,
{
}

/// The fields of a legacy reply body that is a JSON object: `error`,
/// `error_description`, `error_uri`, `access_token` and `refresh_token`
/// where they are strings, and `expires_in` where it is an unsigned
/// integer; `None` if the body is not JSON.
pub uninterp spec fn legacy_fields_of(body: Seq<char>) -> Option<(
    Option<Seq<char>>,
    Option<Seq<char>>,
    Option<Seq<char>>,
    Option<Seq<char>>,
    Option<Seq<char>>,
    Option<u64>,
)>;

/// The fields of a legacy reply body.
pub struct LegacyFields {
    pub error: Option<String>,
    pub description: Option<String>,
    pub uri: Option<String>,
    pub access_token: Option<String>,
    pub refresh_token: Option<String>,
    pub expires_in: Option<u64>,
}

/// Relies on `serde_json::from_str` into a `Value`, then `Value::get` with
/// `Value::as_str` or `Value::as_u64` for each field.
#[verifier::external_body]
fn legacy_fields(body: &str) -> (r: Option<LegacyFields>)
    ensures
        legacy_fields_of(body@) == match r {
            Some(f) => Some((
                crate::token::opt_view(f.error),
                crate::token::opt_view(f.description),
                crate::token::opt_view(f.uri),
                crate::token::opt_view(f.access_token),
                crate::token::opt_view(f.refresh_token),
                f.expires_in,
            )),
            None => None,
        },
{
    let v: serde_json::Value = serde_json::from_str(body).ok()?;
    let s = |k: &str| v.get(k).and_then(serde_json::Value::as_str).map(String::from);
    Some(LegacyFields {
        error: s("error"),
        description: s("error_description"),
        uri: s("error_uri"),
        access_token: s("access_token"),
        refresh_token: s("refresh_token"),
        expires_in: v.get("expires_in").and_then(serde_json::Value::as_u64),
    })
}

/// The kind of a legacy reply, as a small number, with what it carries:
/// pending 0, slow down 1, failed 2 (summary), granted 3, missing 4.
pub open spec fn legacy_view(r: LegacyReply) -> (u8, Seq<char>, Option<crate::token::TokenView>) {
    match r {
        LegacyReply::Pending => (0, Seq::empty(), None),
        LegacyReply::SlowDown => (1, Seq::empty(), None),
        LegacyReply::Failed(s) => (2, s@, None),
        LegacyReply::Granted(t) => (3, Seq::empty(), Some(t@)),
        LegacyReply::Missing => (4, Seq::empty(), None),
    }
}

/// How the fields of a legacy reply are read: a pending or slow-down error
/// asks for another poll, any other error fails with its summary, and
/// without an error an access token grants a token issued at `now`.
pub open spec fn legacy_classified(
    error: Option<Seq<char>>,
    description: Option<Seq<char>>,
    uri: Option<Seq<char>>,
    access_token: Option<Seq<char>>,
    refresh_token: Option<Seq<char>>,
    expires_in: Option<u64>,
    now: i64,
) -> (u8, Seq<char>, Option<crate::token::TokenView>) {
    match error {
        Some(e) => if e == "authorization_pending"@ {
            (0, Seq::empty(), None)
        } else if e == "slow_down"@ {
            (1, Seq::empty(), None)
        } else {
            (2, crate::callback::summary_of(e, description, uri), None)
        },
        None => match access_token {
            Some(a) => (3, Seq::empty(), Some((a, refresh_token, crate::token::expiry_from(now, expires_in)))),
            None => (4, Seq::empty(), None),
        },
    }
}

fn opt_str(v: &Option<String>) -> (r: Option<&str>)
    ensures
        match r { Some(s) => Some(s@), None => None::<Seq<char>> } == crate::token::opt_view(*v),
{
    match v {
        Some(s) => Some(s.as_str()),
        None => None,
    }
}

/// Classifies the fields of a legacy reply.
pub fn classify_legacy(
    error: Option<String>,
    description: Option<String>,
    uri: Option<String>,
    access_token: Option<String>,
    refresh_token: Option<String>,
    expires_in: Option<u64>,
    now: i64,
) -> (r: LegacyReply)
    requires
        expires_in matches Some(d) ==> now + d <= i64::MAX,
    ensures
        legacy_view(r) == legacy_classified(
            crate::token::opt_view(error),
            crate::token::opt_view(description),
            crate::token::opt_view(uri),
            crate::token::opt_view(access_token),
            crate::token::opt_view(refresh_token),
            expires_in,
            now,
        ),
{
    match error {
        Some(e) => {
            if crate::text::str_eq(e.as_str(), "authorization_pending") {
                LegacyReply::Pending
            } else if crate::text::str_eq(e.as_str(), "slow_down") {
                LegacyReply::SlowDown
            } else {
                LegacyReply::Failed(crate::callback::error_summary(e.as_str(), opt_str(&description), opt_str(&uri)))
            }
        },
        None => match access_token {
            Some(a) => LegacyReply::Granted(Token::from_grant(a, refresh_token, expires_in, now)),
            None => LegacyReply::Missing,
        },
    }
}

/// Reads a legacy reply body received at `now`. A body that is not JSON, or
/// whose lifetime would carry the expiry past the largest instant, is a
/// protocol error; otherwise the fields are classified.
pub fn legacy_reply_from_body(body: &str, now: i64) -> (r: Result<LegacyReply, AuthError>)
    ensures
        match legacy_fields_of(body@) {
            None => r matches Err(e) && e is ProtocolError,
            Some((e, d, u, a, rt, x)) => if x matches Some(dd) && now + dd > i64::MAX {
                r matches Err(err) && err is ProtocolError
            } else {
                r matches Ok(reply) && legacy_view(reply) == legacy_classified(e, d, u, a, rt, x, now)
            },
        },
{
    let f = match legacy_fields(body) {
        Some(f) => f,
        None => {
            return Err(AuthError::ProtocolError(owned("Failed to parse token response")));
        },
    };
    match f.expires_in {
        Some(d) => {
            if (now as i128) + (d as i128) > (i64::MAX as i128) {
                return Err(AuthError::ProtocolError(owned("expires_in out of range")));
            }
        },
        None => {},
    }
    Ok(classify_legacy(f.error, f.description, f.uri, f.access_token, f.refresh_token, f.expires_in, now))
}

} // verus!
