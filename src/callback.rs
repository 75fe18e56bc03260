//! The redirect callback of the authorization-code flow: the request line,
//! its query parameters, the provider's error report and the state check.
use vstd::prelude::*;
use vstd::string::*;
use crate::error::AuthError;
use crate::text::{owned, push_char, str_eq};
use crate::weburl::{pairs_view, parse_url_parts, url_parts_of};

verus! {

/// The decoded query pairs of a URL, or `None` when the text is not a URL.
pub open spec fn query_pairs_of(url: Seq<char>) -> Option<Seq<(Seq<char>, Seq<char>)>> {
    match url_parts_of(url) {
        Some(p) => Some(p.5),
        None => None,
    }
}

/// Relies on `constant_time_eq::constant_time_eq`: true exactly when the two
/// byte strings are equal, in time that does not depend on where they differ.
#[verifier::external_body]
fn bytes_eq_constant_time(a: &[u8], b: &[u8]) -> (r: bool)
    ensures
        r == (a@ == b@),
{
    constant_time_eq::constant_time_eq(a, b)
}

/// ASCII whitespace, which separates the parts of an HTTP request line.
pub open spec fn is_space(c: char) -> bool {
    c == ' ' || c == '\t' || c == '\n' || c == '\r' || c == '\x0B' || c == '\x0C'
}

/// The first index at or after `i` that holds no whitespace.
pub open spec fn skip_spaces(s: Seq<char>, i: int) -> int
    decreases s.len() - i,
{
    if i < 0 || i >= s.len() || !is_space(s[i]) { if i < 0 { 0 } else if i > s.len() { s.len() as int } else { i } } else { skip_spaces(s, i + 1) }
}

/// The first index at or after `i` that holds whitespace.
pub open spec fn skip_word(s: Seq<char>, i: int) -> int
    decreases s.len() - i,
{
    if i < 0 || i >= s.len() || is_space(s[i]) { if i < 0 { 0 } else if i > s.len() { s.len() as int } else { i } } else { skip_word(s, i + 1) }
}

/// The second whitespace-separated part of a request line: the request target.
pub open spec fn request_target_of(line: Seq<char>) -> Option<Seq<char>> {
    let a = skip_spaces(line, 0);
    let b = skip_word(line, a);
    let c = skip_spaces(line, b);
    let d = skip_word(line, c);
    if c < d { Some(line.subrange(c, d)) } else { None }
}

fn is_space_char(c: char) -> (r: bool)
    ensures
        r == is_space(c),
{
    c == ' ' || c == '\t' || c == '\n' || c == '\r' || c == '\x0B' || c == '\x0C'
}

proof fn lemma_skip_bounds(s: Seq<char>, i: int)
    requires
        0 <= i <= s.len(),
    ensures
        i <= skip_spaces(s, i) <= s.len(),
        i <= skip_word(s, i) <= s.len(),
    decreases s.len() - i,
{
    if i < s.len() {
        lemma_skip_bounds(s, i + 1);
    }
}

fn skip_spaces_exec(s: &str, n: usize, start: usize) -> (r: usize)
    requires
        n == s@.len(),
        start <= n,
    ensures
        r == skip_spaces(s@, start as int),
        start <= r <= n,
{
    let mut i = start;
    while i < n && is_space_char(s.get_char(i))
        invariant
            n == s@.len(),
            start <= i <= n,
            skip_spaces(s@, i as int) == skip_spaces(s@, start as int),
        decreases n - i,
    {
        i = i + 1;
    }
    i
}

fn skip_word_exec(s: &str, n: usize, start: usize) -> (r: usize)
    requires
        n == s@.len(),
        start <= n,
    ensures
        r == skip_word(s@, start as int),
        start <= r <= n,
{
    let mut i = start;
    while i < n && !is_space_char(s.get_char(i))
        invariant
            n == s@.len(),
            start <= i <= n,
            skip_word(s@, i as int) == skip_word(s@, start as int),
        decreases n - i,
    {
        i = i + 1;
    }
    i
}

/// The request target of an HTTP request line, if it has one.
pub fn request_target(line: &str) -> (r: Option<String>)
    ensures
        match r {
            Some(t) => request_target_of(line@) == Some(t@),
            None => request_target_of(line@) is None,
        },
{
    let n = line.unicode_len();
    let a = skip_spaces_exec(line, n, 0);
    let b = skip_word_exec(line, n, a);
    let c = skip_spaces_exec(line, n, b);
    let d = skip_word_exec(line, n, c);
    if c < d {
        let mut out = String::new();
        let mut i = c;
        while i < d
            invariant
                n == line@.len(),
                c <= i <= d <= n,
                out@ == line@.subrange(c as int, i as int),
            decreases d - i,
        {
            push_char(&mut out, line.get_char(i));
            assert(line@.subrange(c as int, i + 1) == line@.subrange(c as int, i as int).push(line@[i as int]));
            i = i + 1;
        }
        Some(out)
    } else {
        None
    }
}

/// The value of the last pair named `key`: where a name repeats, the last
/// occurrence wins.
pub open spec fn lookup_last(pairs: Seq<(Seq<char>, Seq<char>)>, key: Seq<char>) -> Option<Seq<char>>
    decreases pairs.len(),
{
    if pairs.len() == 0 {
        None
    } else if pairs.last().0 == key {
        Some(pairs.last().1)
    } else {
        lookup_last(pairs.drop_last(), key)
    }
}

/// The value of the last pair named `key`.
pub fn lookup(pairs: &Vec<(String, String)>, key: &str) -> (r: Option<String>)
    ensures
        match r {
            Some(v) => lookup_last(pairs_view(pairs@), key@) == Some(v@),
            None => lookup_last(pairs_view(pairs@), key@) is None,
        },
{
    let mut found: Option<String> = None;
    let mut i: usize = 0;
    while i < pairs.len()
        invariant
            i <= pairs@.len(),
            match found {
                Some(v) => lookup_last(pairs_view(pairs@.subrange(0, i as int)), key@) == Some(v@),
                None => lookup_last(pairs_view(pairs@.subrange(0, i as int)), key@) is None,
            },
        decreases pairs@.len() - i,
    {
        let ghost prev = pairs_view(pairs@.subrange(0, i as int));
        assert(pairs_view(pairs@.subrange(0, i + 1)) =~= prev.push((pairs@[i as int].0@, pairs@[i as int].1@)));
        assert(prev.push((pairs@[i as int].0@, pairs@[i as int].1@)).drop_last() =~= prev);
        if str_eq(pairs[i].0.as_str(), key) {
            found = Some(pairs[i].1.clone());
        }
        i = i + 1;
    }
    assert(pairs@.subrange(0, pairs@.len() as int) == pairs@);
    found
}

/// The summary of a provider's error report: the code, then `": "` and the
/// description, then `" ("`, the URI and `")"`, each part where given.
pub open spec fn summary_of(code: Seq<char>, description: Option<Seq<char>>, uri: Option<Seq<char>>) -> Seq<char> {
    code + match description {
        Some(d) => ": "@ + d,
        None => Seq::empty(),
    } + match uri {
        Some(u) => " ("@ + u + ")"@,
        None => Seq::empty(),
    }
}

/// Formats a provider's error report.
pub fn error_summary(code: &str, description: Option<&str>, uri: Option<&str>) -> (r: String)
    ensures
        r@ == summary_of(code@, match description { Some(d) => Some(d@), None => None }, match uri { Some(u) => Some(u@), None => None }),
{
    let mut out = owned(code);
    let ghost base = out@;
    match description {
        Some(d) => {
            out.append(": ");
            out.append(d);
        },
        None => {},
    }
    let ghost mid = out@;
    match uri {
        Some(u) => {
            out.append(" (");
            out.append(u);
            out.append(")");
        },
        None => {},
    }
    proof {
        let dv = match description { Some(d) => Some(d@), None => None::<Seq<char>> };
        let uv = match uri { Some(u) => Some(u@), None => None::<Seq<char>> };
        let dpart = match dv { Some(d) => ": "@ + d, None => Seq::<char>::empty() };
        let upart = match uv { Some(u) => " ("@ + u + ")"@, None => Seq::<char>::empty() };
        assert(mid =~= base + dpart);
        assert(out@ =~= base + dpart + upart);
    }
    out
}

/// A present, non-empty value.
pub open spec fn non_empty(v: Option<Seq<char>>) -> Option<Seq<char>> {
    match v {
        Some(s) => if s.len() > 0 { Some(s) } else { None },
        None => None,
    }
}

fn non_empty_str(v: &Option<String>) -> (r: Option<&str>)
    ensures
        match r { Some(s) => Some(s@), None => None::<Seq<char>> } == non_empty(match v { Some(s) => Some(s@), None => None::<Seq<char>> }),
{
    match v {
        Some(s) => if s.as_str().is_empty() { None } else { Some(s.as_str()) },
        None => None,
    }
}

/// Text of the error for a callback without an authorization code.
pub open spec fn missing_code_message() -> Seq<char> {
    "Missing 'code' parameter in callback URL"@
}

/// Text of the error for a callback without a state.
pub open spec fn missing_state_message() -> Seq<char> {
    "Missing 'state' parameter in callback URL"@
}

/// What a callback's parameters mean: a provider error, a missing field, or
/// the code and the returned state.
pub open spec fn callback_result(pairs: Seq<(Seq<char>, Seq<char>)>) -> Result<(Seq<char>, Seq<char>), (u8, Seq<char>)> {
    match lookup_last(pairs, "error"@) {
        Some(code) => Err((3u8, summary_of(code, non_empty(lookup_last(pairs, "error_description"@)), non_empty(lookup_last(pairs, "error_uri"@))))),
        None => match (lookup_last(pairs, "code"@), lookup_last(pairs, "state"@)) {
            (None, _) => Err((1u8, missing_code_message())),
            (Some(_), None) => Err((1u8, missing_state_message())),
            (Some(c), Some(s)) => Ok((c, s)),
        },
    }
}

/// Reads a callback's parameters: an `error` parameter becomes a provider
/// error whose summary holds the code, the description and the URI where
/// they are given and non-empty; otherwise `code` and `state` must both be
/// present.
pub fn interpret_callback(pairs: &Vec<(String, String)>) -> (r: Result<(String, String), AuthError>)
    ensures
        match r {
            Ok((c, s)) => callback_result(pairs_view(pairs@)) == Ok::<(Seq<char>, Seq<char>), (u8, Seq<char>)>((c@, s@)),
            Err(e) => callback_result(pairs_view(pairs@)) == Err::<(Seq<char>, Seq<char>), (u8, Seq<char>)>(crate::error::error_view(e)),
        },
{
    let err = lookup(pairs, "error");
    match err {
        Some(code) => {
            let desc = lookup(pairs, "error_description");
            let uri = lookup(pairs, "error_uri");
            let summary = error_summary(code.as_str(), non_empty_str(&desc), non_empty_str(&uri));
            Err(AuthError::ProviderError(summary))
        },
        None => {
            let code = lookup(pairs, "code");
            let state = lookup(pairs, "state");
            match code {
                None => {
                    proof { reveal_strlit("Missing 'code' parameter in callback URL"); }
                    Err(AuthError::ProtocolError(owned("Missing 'code' parameter in callback URL")))
                },
                Some(c) => match state {
                    None => Err(AuthError::ProtocolError(owned("Missing 'state' parameter in callback URL"))),
                    Some(s) => Ok((c, s)),
                },
            }
        },
    }
}

/// Compares the returned state with the one sent, in constant time. The
/// exchange may go ahead exactly when the two are equal byte for byte.
pub fn check_state(returned: &str, expected: &str) -> (r: Result<(), AuthError>)
    ensures
        r is Ok <==> returned.spec_bytes() == expected.spec_bytes(),
        r matches Err(e) ==> e is CsrfMismatch,
{
    if bytes_eq_constant_time(returned.as_bytes(), expected.as_bytes()) {
        Ok(())
    } else {
        Err(AuthError::CsrfMismatch)
    }
}

/// The outcome of a callback on the model: the authorization code, or the
/// error (as in `error_view`), given the redirect base, the request line and
/// the bytes of the state that was sent.
pub open spec fn callback_outcome(base: Seq<char>, line: Seq<char>, expected: Seq<u8>) -> Result<Seq<char>, (u8, Seq<char>)> {
    match request_target_of(line) {
        None => Err((1u8, "Malformed request line in callback"@)),
        Some(t) => match query_pairs_of(base + t) {
            None => Err((1u8, "Malformed callback URL"@)),
            Some(pairs) => match callback_result(pairs) {
                Err(e) => Err(e),
                Ok((code, state)) => if vstd::utf8::encode_utf8(state) == expected { Ok(code) } else { Err((2u8, Seq::empty())) },
            },
        },
    }
}

/// Decides on the request line that the loopback listener received: the
/// authorization code when the exchange may proceed, else the reason it
/// must not. A provider error, a missing field or a state that differs from
/// the one sent in any byte all stop the flow before the token endpoint.
pub fn authorize_callback(redirect_base: &str, request_line: &str, expected_state: &str) -> (r: Result<String, AuthError>)
    ensures
        match r {
            Ok(code) => callback_outcome(redirect_base@, request_line@, expected_state.spec_bytes()) == Ok::<Seq<char>, (u8, Seq<char>)>(code@),
            Err(e) => callback_outcome(redirect_base@, request_line@, expected_state.spec_bytes()) == Err::<Seq<char>, (u8, Seq<char>)>(crate::error::error_view(e)),
        },
{
    let target = match request_target(request_line) {
        Some(t) => t,
        None => {
            return Err(AuthError::ProtocolError(owned("Malformed request line in callback")));
        },
    };
    let mut url = owned(redirect_base);
    url.append(target.as_str());
    let pairs = match parse_url_parts(url.as_str()) {
        Some(p) => p.query,
        None => {
            return Err(AuthError::ProtocolError(owned("Malformed callback URL")));
        },
    };
    match interpret_callback(&pairs) {
        Err(e) => Err(e),
        Ok((code, state)) => match check_state(state.as_str(), expected_state) {
            Ok(()) => Ok(code),
            Err(e) => Err(e),
        },
    }
}

} // verus!
