//! Git's credential-helper request: `key=value` lines up to an empty line,
//! and the choice of how to answer it.
use vstd::prelude::*;
use vstd::string::*;
use crate::hosts::Hosts;
use crate::provider::trim_of;
use crate::text::{owned, str_eq};
use crate::token::opt_view;

verus! {

/// The fields Git sends to a credential helper.
#[derive(Debug)]
pub struct CredentialRequest {
    pub protocol: String,
    pub host: String,
    pub path: Option<String>,
    pub username: Option<String>,
    pub password: Option<String>,
    /// Expiry of the password, in seconds since the epoch.
    pub password_expiry_utc: Option<i64>,
    pub oauth_refresh_token: Option<String>,
}

/// The key and value of a line: split at the first `=`, if there is one.
pub open spec fn split_line(line: Seq<char>) -> Option<(Seq<char>, Seq<char>)> {
    if exists|i: int| 0 <= i < line.len() && line[i] == '=' {
        let i = choose|i: int| 0 <= i < line.len() && line[i] == '=' && forall|j: int| 0 <= j < i ==> line[j] != '=';
        Some((line.subrange(0, i), line.subrange(i + 1, line.len() as int)))
    } else {
        None
    }
}

fn split_once_eq(line: &str) -> (r: Option<(String, String)>)
    ensures
        match r {
            Some((k, v)) => split_line(line@) == Some((k@, v@)),
            None => split_line(line@) is None,
        },
{
    let n = line.unicode_len();
    let mut i: usize = 0;
    while i < n
        invariant
            n == line@.len(),
            i <= n,
            forall|j: int| 0 <= j < i ==> line@[j] != '=',
        decreases n - i,
    {
        if line.get_char(i) == '=' {
            proof {
                let c = choose|c: int| 0 <= c < line@.len() && line@[c] == '=' && forall|j: int| 0 <= j < c ==> line@[j] != '=';
                if c < i {
                    assert(line@[c] != '=');
                } else if c > i {
                    assert(line@[i as int] != '=');
                }
            }
            return Some((crate::text::prefix_to(line, i), crate::text::suffix_from(line, i + 1)));
        }
        i = i + 1;
    }
    None
}

/// The value of the last line whose key is `key`, among the lines before
/// the first empty one.
pub open spec fn request_value(lines: Seq<Seq<char>>, key: Seq<char>) -> Option<Seq<char>>
    decreases lines.len(),
{
    if lines.len() == 0 || lines[0].len() == 0 {
        None
    } else {
        match request_value(lines.drop_first(), key) {
            Some(v) => Some(v),
            None => match split_line(lines[0]) {
                Some((k, v)) => if k == key { Some(v) } else { None },
                None => None,
            },
        }
    }
}

/// Looks up the value of `key` in the request lines.
pub fn request_field(lines: &Vec<String>, key: &str) -> (r: Option<String>)
    ensures
        opt_view(r) == request_value(crate::hosts::names_view(lines@), key@),
{
    let ghost all = crate::hosts::names_view(lines@);
    let mut end: usize = 0;
    while end < lines.len() && lines[end].as_str().unicode_len() > 0
        invariant
            end <= lines@.len(),
            forall|j: int| 0 <= j < end ==> lines@[j]@.len() > 0,
        decreases lines@.len() - end,
    {
        end = end + 1;
    }
    let mut found: Option<String> = None;
    let mut i: usize = end;
    while i > 0
        invariant
            i <= end <= lines@.len(),
            all == crate::hosts::names_view(lines@),
            forall|j: int| 0 <= j < end ==> lines@[j]@.len() > 0,
            end == lines@.len() || lines@[end as int]@.len() == 0,
            opt_view(found) == request_value(all.subrange(i as int, all.len() as int), key@),
        decreases i,
    {
        let k = i - 1;
        let ghost t = all.subrange(k as int, all.len() as int);
        assert(t.drop_first() =~= all.subrange(i as int, all.len() as int));
        assert(t[0] == lines@[k as int]@);
        if found.is_none() {
            match split_once_eq(lines[k].as_str()) {
                Some((key2, v)) => {
                    if str_eq(key2.as_str(), key) {
                        found = Some(v);
                    }
                },
                None => {},
            }
        }
        i = k;
    }
    proof {
        assert(all.subrange(0, all.len() as int) =~= all);
        if end < lines@.len() {
            lemma_request_value_stops(all, end as int, key@);
        } else {
            assert(all.subrange(end as int, all.len() as int).len() == 0);
        }
    }
    found
}

proof fn lemma_request_value_stops(all: Seq<Seq<char>>, end: int, key: Seq<char>)
    requires
        0 <= end < all.len(),
        all[end].len() == 0,
    ensures
        request_value(all.subrange(end, all.len() as int), key) is None,
{
    assert(all.subrange(end, all.len() as int)[0] == all[end]);
}

/// A decimal number of `u64`, as Rust's `u64::from_str` reads it: an
/// optional `+` and then one or more digits.
pub open spec fn digits_value(s: Seq<char>) -> int
    decreases s.len(),
{
    if s.len() == 0 { 0 } else { digits_value(s.drop_last()) * 10 + (s.last() as u32 - 48) }
}

/// Only ASCII digits, at least one.
pub open spec fn all_digits(s: Seq<char>) -> bool {
    s.len() > 0 && forall|i: int| 0 <= i < s.len() ==> '0' <= #[trigger] s[i] && s[i] <= '9'
}

/// The timestamp that a `password_expiry_utc` value gives: the trimmed
/// text as an unsigned decimal that fits in `i64`.
pub open spec fn expiry_value(v: Seq<char>) -> Option<i64> {
    let t = trim_of(v);
    let d = if t.len() > 0 && t[0] == '+' { t.drop_first() } else { t };
    if all_digits(d) && digits_value(d) <= i64::MAX { Some(digits_value(d) as i64) } else { None }
}

proof fn lemma_digits_value_nonneg(s: Seq<char>)
    requires
        forall|i: int| 0 <= i < s.len() ==> '0' <= #[trigger] s[i] && s[i] <= '9',
    ensures
        digits_value(s) >= 0,
    decreases s.len(),
{
    if s.len() > 0 {
        lemma_digits_value_nonneg(s.drop_last());
    }
}

proof fn lemma_digits_value_grows(s: Seq<char>, t: Seq<char>)
    requires
        forall|i: int| 0 <= i < t.len() ==> '0' <= #[trigger] t[i] && t[i] <= '9',
        t.len() >= s.len(),
        s == t.subrange(0, s.len() as int),
    ensures
        digits_value(t) >= digits_value(s),
    decreases t.len(),
{
    if t.len() > s.len() {
        assert(t.drop_last().subrange(0, s.len() as int) == s);
        lemma_digits_value_grows(s, t.drop_last());
        lemma_digits_value_nonneg(t.drop_last());
    } else {
        assert(t == s);
    }
}

/// Reads a `password_expiry_utc` value.
pub fn parse_expiry(v: &str) -> (r: Option<i64>)
    ensures
        r == expiry_value(v@),
{
    let t = crate::provider::trimmed(v);
    let n = t.unicode_len();
    let start: usize = if n > 0 && t.get_char(0) == '+' { 1 } else { 0 };
    let ghost d = if t@.len() > 0 && t@[0] == '+' { t@.drop_first() } else { t@ };
    assert(d =~= t@.subrange(start as int, n as int));
    if start >= n {
        return None;
    }
    let mut acc: u64 = 0;
    let mut i: usize = start;
    assert(t@.subrange(start as int, start as int) =~= Seq::<char>::empty());
    while i < n
        invariant
            n == t@.len(),
            start < n,
            start <= i <= n,
            d == t@.subrange(start as int, n as int),
            t@ == trim_of(v@),
            d == (if t@.len() > 0 && t@[0] == '+' { t@.drop_first() } else { t@ }),
            forall|k: int| start <= k < i ==> '0' <= #[trigger] t@[k] && t@[k] <= '9',
            acc as int == digits_value(t@.subrange(start as int, i as int)),
            acc <= i64::MAX,
        decreases n - i,
    {
        let c = t.get_char(i);
        let ghost pre = t@.subrange(start as int, i as int);
        assert(t@.subrange(start as int, i + 1).drop_last() =~= pre);
        if c < '0' || c > '9' {
            assert(d[i - start] == c);
            assert(!all_digits(d)) by {
                assert(!('0' <= d[i - start] && d[i - start] <= '9'));
            }
            assert(trim_of(v@) == t@);
            return None;
        }
        let digit = (c as u32 - 48) as u64;
        if acc > (i64::MAX as u64 - digit) / 10 {
            proof {
                assert(digits_value(t@.subrange(start as int, i + 1)) > i64::MAX) by (nonlinear_arith)
                    requires
                        digits_value(t@.subrange(start as int, i + 1)) == acc * 10 + digit,
                        acc > (i64::MAX - digit) / 10,
                        digit <= 9,
                {}
                assert(t@.subrange(start as int, i + 1) =~= d.subrange(0, i + 1 - start));
                if all_digits(d) {
                    lemma_digits_value_grows(t@.subrange(start as int, i + 1), d);
                    assert(digits_value(d) > i64::MAX);
                }
                assert(trim_of(v@) == t@);
            }
            return None;
        }
        acc = acc * 10 + digit;
        i = i + 1;
    }
    assert(d == t@.subrange(start as int, n as int));
    Some(acc as i64)
}

/// Builds a request from Git's lines. Fails when `protocol` or `host` is
/// missing.
pub fn parse_credential_lines(lines: &Vec<String>) -> (r: Result<CredentialRequest, String>)
    ensures
        match r {
            Ok(req) => {
                let l = crate::hosts::names_view(lines@);
                &&& request_value(l, "protocol"@) == Some(req.protocol@)
                &&& request_value(l, "host"@) == Some(req.host@)
                &&& opt_view(req.path) == request_value(l, "path"@)
                &&& opt_view(req.username) == request_value(l, "username"@)
                &&& opt_view(req.password) == request_value(l, "password"@)
                &&& opt_view(req.oauth_refresh_token) == request_value(l, "oauth_refresh_token"@)
                &&& req.password_expiry_utc == match request_value(l, "password_expiry_utc"@) {
                    Some(v) => expiry_value(v),
                    None => None,
                }
            },
            Err(_) => request_value(crate::hosts::names_view(lines@), "protocol"@) is None
                || request_value(crate::hosts::names_view(lines@), "host"@) is None,
        },
{
    let protocol = match request_field(lines, "protocol") {
        Some(p) => p,
        None => {
            return Err(owned("Missing 'protocol' field"));
        },
    };
    let host = match request_field(lines, "host") {
        Some(h) => h,
        None => {
            return Err(owned("Missing 'host' field"));
        },
    };
    let expiry = match request_field(lines, "password_expiry_utc") {
        Some(v) => parse_expiry(v.as_str()),
        None => None,
    };
    Ok(CredentialRequest {
        protocol,
        host,
        path: request_field(lines, "path"),
        username: request_field(lines, "username"),
        password: request_field(lines, "password"),
        password_expiry_utc: expiry,
        oauth_refresh_token: request_field(lines, "oauth_refresh_token"),
    })
}

/// How to answer a `get` request.
pub enum GetStep {
    /// No provider is configured for the host: Git tries its next helper.
    NoProvider,
    /// The device flow is forced on a provider without a device endpoint.
    Unsupported,
    /// Exchange the refresh secret that Git sent for a token.
    UseRefreshToken(String),
    /// Run an authorization flow without consulting stored credentials.
    RunFlow,
    /// Answer with the stored token of this credential.
    UseStored(String),
    /// No credential is active for the host: log in first.
    LoginFirst,
}

/// `get`'s step as a small number and the name it carries.
pub open spec fn step_view(s: GetStep) -> (u8, Seq<char>) {
    match s {
        GetStep::NoProvider => (0, Seq::empty()),
        GetStep::Unsupported => (1, Seq::empty()),
        GetStep::UseRefreshToken(r) => (2, r@),
        GetStep::RunFlow => (3, Seq::empty()),
        GetStep::UseStored(n) => (4, n@),
        GetStep::LoginFirst => (5, Seq::empty()),
    }
}

/// The step for a request: with the device flow forced or OAuth-only mode
/// on, a refresh secret sent without a password is used, else a flow runs;
/// otherwise a known user name's credential is used, else the host's
/// active credential (or the user name, if one was sent), else a login.
pub open spec fn get_step_of(
    host: Seq<char>,
    username: Option<Seq<char>>,
    password: Option<Seq<char>>,
    refresh: Option<Seq<char>>,
    m: Map<Seq<char>, crate::hosts::HostView>,
    has_provider: bool,
    has_device_url: bool,
    force_device: bool,
    oauth_only: bool,
) -> (u8, Seq<char>) {
    if !has_provider {
        (0, Seq::empty())
    } else if force_device && !has_device_url {
        (1, Seq::empty())
    } else if force_device || oauth_only {
        match (refresh, password) {
            (Some(r), None) => (2, r),
            _ => (3, Seq::empty()),
        }
    } else if username matches Some(u) && u.len() > 0 && m.contains_key(host) && m[host].1.contains(u) {
        (4, username->Some_0)
    } else if !m.contains_key(host) || m[host].0.len() == 0 {
        (5, Seq::empty())
    } else {
        (4, match username { Some(u) => u, None => m[host].0 })
    }
}

/// Decides how to answer a `get` request.
pub fn decide_get(
    req: &CredentialRequest,
    hosts: &Hosts,
    has_provider: bool,
    has_device_url: bool,
    force_device: bool,
    oauth_only: bool,
) -> (r: GetStep)
    requires
        hosts.wf(),
    ensures
        step_view(r) == get_step_of(
            req.host@,
            opt_view(req.username),
            opt_view(req.password),
            opt_view(req.oauth_refresh_token),
            hosts@,
            has_provider,
            has_device_url,
            force_device,
            oauth_only,
        ),
{
    if !has_provider {
        return GetStep::NoProvider;
    }
    if force_device && !has_device_url {
        return GetStep::Unsupported;
    }
    if force_device || oauth_only {
        return match (&req.oauth_refresh_token, &req.password) {
            (Some(r), None) => GetStep::UseRefreshToken(r.clone()),
            _ => GetStep::RunFlow,
        };
    }
    match &req.username {
        Some(u) => {
            if u.as_str().unicode_len() > 0 && hosts.has_credential(req.host.as_str(), u.as_str()) {
                return GetStep::UseStored(u.clone());
            }
        },
        None => {},
    }
    match hosts.get_active_credential(req.host.as_str()) {
        None => GetStep::LoginFirst,
        Some(a) => {
            if a.as_str().unicode_len() == 0 {
                GetStep::LoginFirst
            } else {
                match &req.username {
                    Some(u) => GetStep::UseStored(u.clone()),
                    None => GetStep::UseStored(a),
                }
            }
        },
    }
}

} // verus!
