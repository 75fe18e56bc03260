//! The secret record: a token packed as a compact JSON object
//! `{"access_token":…,"refresh_token":…|null,"expires_at":…|null}` with the
//! expiry as an RFC 3339 string, and read back.
use vstd::prelude::*;
use vstd::string::*;
use crate::error::AuthError;
use crate::text::{has_prefix, owned, push_char};
use crate::token::{Token, TokenView, opt_view};

verus! {

/// The RFC 3339 text (UTC, `Z` suffix) of an instant given in seconds since
/// the epoch, or `None` outside the range of representable dates.
pub uninterp spec fn rfc3339_text_of(secs: i64) -> Option<Seq<char>>;

/// The instant, in whole seconds since the epoch, that an RFC 3339 text
/// denotes, or `None` if it does not parse.
pub uninterp spec fn rfc3339_secs_of(text: Seq<char>) -> Option<i64>;

/// The first instant of year 0000, in seconds since the epoch.
pub const FIRST_RECORD_SECS: i64 = -62167219200;

/// The last second of year 9999, in seconds since the epoch.
pub const LAST_RECORD_SECS: i64 = 253402300799;

/// An instant whose RFC 3339 text has a four-digit year.
pub open spec fn recordable(secs: i64) -> bool {
    FIRST_RECORD_SECS <= secs <= LAST_RECORD_SECS
}

/// Relies on `chrono::DateTime::from_timestamp` and `to_rfc3339_opts` with
/// automatic sub-second digits and a `Z` suffix, the form in which chrono's
/// serde support writes a UTC instant; `from_timestamp` succeeds for every
/// second of the years 0000 to 9999.
#[verifier::external_body]
fn format_rfc3339(secs: i64) -> (r: Option<String>)
    requires
        recordable(secs),
    ensures
        r is Some,
        match r {
            Some(s) => rfc3339_text_of(secs) == Some(s@),
            None => rfc3339_text_of(secs) is None,
        },
{
    chrono::DateTime::from_timestamp(secs, 0).map(|d| d.to_rfc3339_opts(chrono::SecondsFormat::AutoSi, true))
}

/// Relies on `chrono::DateTime::parse_from_rfc3339` and `timestamp`: a text
/// that chrono wrote for an instant with a four-digit year reads back as
/// that instant.
#[verifier::external_body]
fn parse_rfc3339(text: &str) -> (r: Option<i64>)
    ensures
        r == rfc3339_secs_of(text@),
        forall|secs: i64| recordable(secs) && #[trigger] rfc3339_text_of(secs) == Some(text@) ==> r == Some(secs),
{
    chrono::DateTime::parse_from_rfc3339(text).ok().map(|d| d.timestamp())
}

/// The lower-case hexadecimal digit of a value below sixteen.
pub open spec fn hex_digit(n: u32) -> char {
    if n < 10 { ((n + 48) as u8) as char } else { ((n + 87) as u8) as char }
}

/// The value of a hexadecimal digit, either case.
pub open spec fn hex_value(c: char) -> Option<u32> {
    if '0' <= c && c <= '9' {
        Some((c as u32 - 48) as u32)
    } else if 'a' <= c && c <= 'f' {
        Some((c as u32 - 87) as u32)
    } else if 'A' <= c && c <= 'F' {
        Some((c as u32 - 55) as u32)
    } else {
        None
    }
}

/// How one character is written inside a JSON string.
pub open spec fn esc_char(c: char) -> Seq<char> {
    if c == '"' {
        seq!['\\', '"']
    } else if c == '\\' {
        seq!['\\', '\\']
    } else if c == '\n' {
        seq!['\\', 'n']
    } else if c == '\r' {
        seq!['\\', 'r']
    } else if c == '\t' {
        seq!['\\', 't']
    } else if c == '\x08' {
        seq!['\\', 'b']
    } else if c == '\x0C' {
        seq!['\\', 'f']
    } else if (c as u32) < 0x20 {
        seq!['\\', 'u', '0', '0', hex_digit((c as u32) / 16), hex_digit((c as u32) % 16)]
    } else {
        seq![c]
    }
}

/// How a string is written inside a JSON string, without the quotes.
#[verifier::opaque]
pub open spec fn esc(s: Seq<char>) -> Seq<char>
    decreases s.len(),
{
    if s.len() == 0 {
        Seq::empty()
    } else {
        esc_char(s[0]) + esc(s.drop_first())
    }
}

/// The character that a JSON escape `\c` stands for, other than `\u`.
pub open spec fn simple_escape(c: char) -> Option<char> {
    if c == '"' {
        Some('"')
    } else if c == '\\' {
        Some('\\')
    } else if c == '/' {
        Some('/')
    } else if c == 'n' {
        Some('\n')
    } else if c == 'r' {
        Some('\r')
    } else if c == 't' {
        Some('\t')
    } else if c == 'b' {
        Some('\x08')
    } else if c == 'f' {
        Some('\x0C')
    } else {
        None
    }
}

/// The value of four hexadecimal digits.
pub open spec fn hex4(t: Seq<char>) -> Option<u32> {
    match (hex_value(t[0]), hex_value(t[1]), hex_value(t[2]), hex_value(t[3])) {
        (Some(a), Some(b), Some(c), Some(d)) => Some((((a * 16 + b) * 16 + c) * 16 + d) as u32),
        _ => None,
    }
}

/// A code point that is a `char` (no surrogate halves).
pub open spec fn scalar(v: u32) -> bool {
    v < 0xD800 || (0xE000 <= v && v <= 0x10FFFF)
}

/// Reads the rest of a JSON string whose opening quote has been consumed:
/// the decoded characters and what follows the closing quote.
pub open spec fn read_str(t: Seq<char>) -> Option<(Seq<char>, Seq<char>)>
    decreases t.len(),
{
    if t.len() == 0 {
        None
    } else if t[0] == '"' {
        Some((Seq::empty(), t.drop_first()))
    } else if t[0] == '\\' {
        if t.len() < 2 {
            None
        } else if t[1] == 'u' {
            if t.len() < 6 {
                None
            } else {
                match hex4(t.subrange(2, 6)) {
                    Some(v) => if scalar(v) {
                        match read_str(t.subrange(6, t.len() as int)) {
                            Some((d, r)) => Some((seq![v as char] + d, r)),
                            None => None,
                        }
                    } else {
                        None
                    },
                    None => None,
                }
            }
        } else {
            match simple_escape(t[1]) {
                Some(c) => match read_str(t.subrange(2, t.len() as int)) {
                    Some((d, r)) => Some((seq![c] + d, r)),
                    None => None,
                },
                None => None,
            }
        }
    } else if (t[0] as u32) < 0x20 {
        None
    } else {
        match read_str(t.drop_first()) {
            Some((d, r)) => Some((seq![t[0]] + d, r)),
            None => None,
        }
    }
}

fn hex_digit_exec(n: u32) -> (r: char)
    requires
        n < 16,
    ensures
        r == hex_digit(n),
{
    if n < 10 { ((n + 48) as u8) as char } else { ((n + 87) as u8) as char }
}

/// Appends the JSON escape of `s`.
fn append_escaped(out: &mut String, s: &str)
    ensures
        final(out)@ == old(out)@ + esc(s@),
{
    let n = s.unicode_len();
    let mut i: usize = 0;
    assert(s@.subrange(0, n as int) =~= s@);
    while i < n
        invariant
            n == s@.len(),
            i <= n,
            out@ + esc(s@.subrange(i as int, n as int)) == old(out)@ + esc(s@),
        decreases n - i,
    {
        let c = s.get_char(i);
        let ghost before = out@;
        let ghost tail = s@.subrange(i as int, n as int);
        assert(tail[0] == c);
        assert(tail.drop_first() =~= s@.subrange(i + 1, n as int));
        if c == '"' {
            push_char(out, '\\');
            push_char(out, '"');
        } else if c == '\\' {
            push_char(out, '\\');
            push_char(out, '\\');
        } else if c == '\n' {
            push_char(out, '\\');
            push_char(out, 'n');
        } else if c == '\r' {
            push_char(out, '\\');
            push_char(out, 'r');
        } else if c == '\t' {
            push_char(out, '\\');
            push_char(out, 't');
        } else if c == '\x08' {
            push_char(out, '\\');
            push_char(out, 'b');
        } else if c == '\x0C' {
            push_char(out, '\\');
            push_char(out, 'f');
        } else if (c as u32) < 0x20 {
            push_char(out, '\\');
            push_char(out, 'u');
            push_char(out, '0');
            push_char(out, '0');
            push_char(out, hex_digit_exec((c as u32) / 16));
            push_char(out, hex_digit_exec((c as u32) % 16));
        } else {
            push_char(out, c);
        }
        assert(out@ =~= before + esc_char(c));
        assert(esc(tail) == esc_char(c) + esc(tail.drop_first())) by {
            reveal(esc);
        }
        assert(out@ + esc(s@.subrange(i + 1, n as int)) =~= before + esc(tail));
        i = i + 1;
    }
    assert(s@.subrange(n as int, n as int) =~= Seq::<char>::empty());
    assert(esc(Seq::<char>::empty()) == Seq::<char>::empty()) by {
        reveal(esc);
    }
    assert(s@.subrange(0, n as int) =~= s@);
}

proof fn lemma_hex_round_trip(n: u32)
    requires
        n < 16,
    ensures
        hex_value(hex_digit(n)) == Some(n),
{
    if n < 10 {
        assert(((n + 48) as u8) as char as u32 == n + 48);
    } else {
        assert(((n + 87) as u8) as char as u32 == n + 87);
    }
}

/// Reading back an escaped string up to its closing quote yields the string
/// and leaves what follows the quote.
pub proof fn lemma_read_escaped(x: Seq<char>, rest: Seq<char>)
    ensures
        read_str(esc(x) + (seq!['"'] + rest)) == Some((x, rest)),
    decreases x.len(),
{
    reveal(esc);
    let t = esc(x) + (seq!['"'] + rest);
    if x.len() == 0 {
        assert(esc(x) =~= Seq::<char>::empty());
        assert(t =~= seq!['"'] + rest);
        assert(t.drop_first() =~= rest);
    } else {
        let c = x[0];
        let y = x.drop_first();
        let u = esc(y) + (seq!['"'] + rest);
        lemma_read_escaped(y, rest);
        assert(t =~= esc_char(c) + u);
        assert(x =~= seq![c] + y);
        let k = esc_char(c).len() as int;
        assert(t.subrange(k, t.len() as int) =~= u);
        if c == '"' || c == '\\' || c == '\n' || c == '\r' || c == '\t' || c == '\x08' || c == '\x0C' {
            assert(t[0] == '\\');
            assert(t.subrange(2, t.len() as int) =~= u);
        } else if (c as u32) < 0x20 {
            let v = c as u32;
            lemma_hex_round_trip(v / 16);
            lemma_hex_round_trip(v % 16);
            assert(t[0] == '\\');
            assert(t[1] == 'u');
            let h = t.subrange(2, 6);
            assert(h[0] == '0' && h[1] == '0');
            assert(h[2] == hex_digit(v / 16));
            assert(h[3] == hex_digit(v % 16));
            assert(hex_value('0') == Some(0u32));
            assert(hex4(h) == Some(v));
            vstd::utf8::char_u32_cast(c, v);
            assert(t.subrange(6, t.len() as int) =~= u);
        } else {
            assert(t[0] == c);
            assert(t.drop_first() =~= u);
        }
    }
}

/// Relies on `char::from_u32`: the character with that code point, or
/// `None` for a surrogate half or a value past the last code point.
#[verifier::external_body]
fn char_from_code(v: u32) -> (r: Option<char>)
    ensures
        r is Some <==> scalar(v),
        r matches Some(c) ==> c == v as char,
{
    char::from_u32(v)
}

fn hex_value_exec(c: char) -> (r: Option<u32>)
    ensures
        r == hex_value(c),
{
    if '0' <= c && c <= '9' {
        Some(c as u32 - 48)
    } else if 'a' <= c && c <= 'f' {
        Some(c as u32 - 87)
    } else if 'A' <= c && c <= 'F' {
        Some(c as u32 - 55)
    } else {
        None
    }
}

fn simple_escape_exec(c: char) -> (r: Option<char>)
    ensures
        r == simple_escape(c),
{
    if c == '"' {
        Some('"')
    } else if c == '\\' {
        Some('\\')
    } else if c == '/' {
        Some('/')
    } else if c == 'n' {
        Some('\n')
    } else if c == 'r' {
        Some('\r')
    } else if c == 't' {
        Some('\t')
    } else if c == 'b' {
        Some('\x08')
    } else if c == 'f' {
        Some('\x0C')
    } else {
        None
    }
}

/// Reads a JSON string whose opening quote ends just before `start`: the
/// decoded text and the index just past the closing quote.
fn read_json_str(v: &Vec<char>, start: usize) -> (r: Option<(String, usize)>)
    requires
        start <= v@.len(),
    ensures
        match r {
            Some((d, end)) => end <= v@.len() && read_str(v@.subrange(start as int, v@.len() as int)) == Some((d@, v@.subrange(end as int, v@.len() as int))),
            None => read_str(v@.subrange(start as int, v@.len() as int)) is None,
        },
{
    let n = v.len();
    let mut acc = String::new();
    let mut i = start;
    while i < n
        invariant
            n == v@.len(),
            start <= i <= n,
            read_str(v@.subrange(start as int, n as int)) == match read_str(v@.subrange(i as int, n as int)) {
                Some((d, rr)) => Some((acc@ + d, rr)),
                None => None,
            },
        decreases n - i,
    {
        let ghost t = v@.subrange(i as int, n as int);
        let c = v[i];
        assert(t[0] == c);
        if c == '"' {
            assert(t.drop_first() =~= v@.subrange(i + 1, n as int));
            assert(acc@ + Seq::<char>::empty() =~= acc@);
            return Some((acc, i + 1));
        } else if c == '\\' {
            if i + 1 >= n {
                return None;
            }
            let e = v[i + 1];
            assert(t[1] == e);
            if e == 'u' {
                if n - i < 6 {
                    return None;
                }
                let h = match (hex_value_exec(v[i + 2]), hex_value_exec(v[i + 3]), hex_value_exec(v[i + 4]), hex_value_exec(v[i + 5])) {
                    (Some(a), Some(b), Some(cc), Some(d)) => (((a * 16 + b) * 16 + cc) * 16 + d),
                    _ => {
                        assert(hex4(t.subrange(2, 6)) is None);
                        return None;
                    },
                };
                assert(hex4(t.subrange(2, 6)) == Some(h));
                match char_from_code(h) {
                    Some(ch) => {
                        let ghost before = acc@;
                        push_char(&mut acc, ch);
                        assert(t.subrange(6, t.len() as int) =~= v@.subrange(i + 6, n as int));
                        assert forall|d: Seq<char>| #[trigger] (before + (seq![ch] + d)) == acc@ + d by {
                            assert(before + (seq![ch] + d) =~= acc@ + d);
                        }
                        i = i + 6;
                    },
                    None => {
                        return None;
                    },
                }
            } else {
                match simple_escape_exec(e) {
                    Some(ch) => {
                        let ghost before = acc@;
                        push_char(&mut acc, ch);
                        assert(t.subrange(2, t.len() as int) =~= v@.subrange(i + 2, n as int));
                        assert forall|d: Seq<char>| #[trigger] (before + (seq![ch] + d)) == acc@ + d by {
                            assert(before + (seq![ch] + d) =~= acc@ + d);
                        }
                        i = i + 2;
                    },
                    None => {
                        return None;
                    },
                }
            }
        } else if (c as u32) < 0x20 {
            return None;
        } else {
            let ghost before = acc@;
            push_char(&mut acc, c);
            assert(t.drop_first() =~= v@.subrange(i + 1, n as int));
            assert forall|d: Seq<char>| #[trigger] (before + (seq![c] + d)) == acc@ + d by {
                assert(before + (seq![c] + d) =~= acc@ + d);
            }
            i = i + 1;
        }
    }
    None
}

/// A field that may be null: `null`, or the quoted, escaped string.
pub open spec fn opt_enc(o: Option<Seq<char>>) -> Seq<char> {
    match o {
        None => "null"@,
        Some(x) => seq!['"'] + esc(x) + seq!['"'],
    }
}

/// Text that opens a record, up to the access secret's opening quote.
pub open spec fn record_head() -> Seq<char> {
    "{\"access_token\":\""@
}

/// Text between the access secret's closing quote and the refresh field.
pub open spec fn refresh_key() -> Seq<char> {
    ",\"refresh_token\":"@
}

/// Text between the refresh field and the expiry field.
pub open spec fn expiry_key() -> Seq<char> {
    ",\"expires_at\":"@
}

/// Text that closes a record.
pub open spec fn close_brace() -> Seq<char> {
    "}"@
}

/// The record of an access secret, a refresh secret and an expiry text.
pub open spec fn encode_record(access: Seq<char>, refresh: Option<Seq<char>>, expiry: Option<Seq<char>>) -> Seq<char> {
    record_head() + (esc(access) + (seq!['"'] + (refresh_key() + (opt_enc(refresh) + (expiry_key() + (opt_enc(expiry) + close_brace()))))))
}

/// What `pack` writes for a token, or `None` when its expiry lies outside
/// the years 0000 to 9999.
pub open spec fn packed_of(t: TokenView) -> Option<Seq<char>> {
    match t.2 {
        None => Some(encode_record(t.0, t.1, None)),
        Some(secs) => if !recordable(secs) {
            None
        } else {
            match rfc3339_text_of(secs) {
                Some(e) => Some(encode_record(t.0, t.1, Some(e))),
                None => None,
            }
        },
    }
}

/// The text after a literal prefix.
pub open spec fn strip(t: Seq<char>, lit: Seq<char>) -> Option<Seq<char>> {
    if has_prefix(t, lit) { Some(t.subrange(lit.len() as int, t.len() as int)) } else { None }
}

/// Reads a field that may be null.
pub open spec fn read_opt(t: Seq<char>) -> Option<(Option<Seq<char>>, Seq<char>)> {
    if has_prefix(t, "null"@) {
        Some((None, t.subrange(4, t.len() as int)))
    } else if t.len() > 0 && t[0] == '"' {
        match read_str(t.drop_first()) {
            Some((d, r)) => Some((Some(d), r)),
            None => None,
        }
    } else {
        None
    }
}

/// The three fields of a record, as texts, or `None` if the text is not a record.
pub open spec fn record_of(text: Seq<char>) -> Option<(Seq<char>, Option<Seq<char>>, Option<Seq<char>>)> {
    match strip(text, record_head()) {
        None => None,
        Some(t1) => match read_str(t1) {
            None => None,
            Some((a, t2)) => match strip(t2, refresh_key()) {
                None => None,
                Some(t3) => match read_opt(t3) {
                    None => None,
                    Some((r, t4)) => match strip(t4, expiry_key()) {
                        None => None,
                        Some(t5) => match read_opt(t5) {
                            None => None,
                            Some((e, t6)) => if t6 == close_brace() { Some((a, r, e)) } else { None },
                        },
                    },
                },
            },
        },
    }
}

/// The token that a record denotes, or `None` if it is not a record or its
/// expiry does not parse.
pub open spec fn unpacked_of(text: Seq<char>) -> Option<TokenView> {
    match record_of(text) {
        None => None,
        Some((a, r, None)) => Some((a, r, None)),
        Some((a, r, Some(e))) => match rfc3339_secs_of(e) {
            Some(x) => Some((a, r, Some(x))),
            None => None,
        },
    }
}

proof fn lemma_read_opt_enc(o: Option<Seq<char>>, rest: Seq<char>)
    ensures
        read_opt(opt_enc(o) + rest) == Some((o, rest)),
{
    reveal_strlit("null");
    let t = opt_enc(o) + rest;
    match o {
        None => {
            assert(t.subrange(0, 4) =~= "null"@);
            assert(t.subrange(4, t.len() as int) =~= rest);
        },
        Some(x) => {
            assert(t[0] == '"');
            assert(t.drop_first() =~= esc(x) + (seq!['"'] + rest));
            lemma_read_escaped(x, rest);
            assert(!has_prefix(t, "null"@)) by {
                if has_prefix(t, "null"@) {
                    assert(t.subrange(0, 4)[0] == 'n');
                }
            }
        },
    }
}

/// Reading a record reproduces the fields it was written from, whatever
/// characters the secrets and the expiry text hold.
pub proof fn lemma_record_round_trip(access: Seq<char>, refresh: Option<Seq<char>>, expiry: Option<Seq<char>>)
    ensures
        record_of(encode_record(access, refresh, expiry)) == Some((access, refresh, expiry)),
{
    let t6 = close_brace();
    let t5 = opt_enc(expiry) + t6;
    let t4 = expiry_key() + t5;
    let t3 = opt_enc(refresh) + t4;
    let t2 = refresh_key() + t3;
    let t1 = esc(access) + (seq!['"'] + t2);
    let text = record_head() + t1;
    lemma_strip_concat(record_head(), t1);
    lemma_read_escaped(access, t2);
    lemma_strip_concat(refresh_key(), t3);
    lemma_read_opt_enc(refresh, t4);
    lemma_strip_concat(expiry_key(), t5);
    lemma_read_opt_enc(expiry, t6);
}

proof fn lemma_strip_concat(lit: Seq<char>, rest: Seq<char>)
    ensures
        strip(lit + rest, lit) == Some(rest),
{
    assert((lit + rest).subrange(0, lit.len() as int) =~= lit);
    assert((lit + rest).subrange(lit.len() as int, (lit + rest).len() as int) =~= rest);
}

fn chars_of(s: &str) -> (r: Vec<char>)
    ensures
        r@ == s@,
{
    let n = s.unicode_len();
    let mut out: Vec<char> = Vec::new();
    let mut i: usize = 0;
    while i < n
        invariant
            n == s@.len(),
            i <= n,
            out@ == s@.subrange(0, i as int),
        decreases n - i,
    {
        out.push(s.get_char(i));
        assert(s@.subrange(0, i + 1) == s@.subrange(0, i as int).push(s@[i as int]));
        i = i + 1;
    }
    assert(s@.subrange(0, n as int) =~= s@);
    out
}

/// Whether the characters from `i` on start with `lit`.
fn at_literal(v: &Vec<char>, i: usize, lit: &str) -> (r: bool)
    requires
        i <= v@.len(),
    ensures
        r == has_prefix(v@.subrange(i as int, v@.len() as int), lit@),
{
    let n = v.len();
    let m = lit.unicode_len();
    if n - i < m {
        return false;
    }
    let ghost t = v@.subrange(i as int, n as int);
    let mut j: usize = 0;
    while j < m
        invariant
            n == v@.len(),
            m == lit@.len(),
            i + m <= n,
            t == v@.subrange(i as int, n as int),
            j <= m,
            t.subrange(0, j as int) == lit@.subrange(0, j as int),
        decreases m - j,
    {
        if v[i + j] != lit.get_char(j) {
            assert(t.subrange(0, m as int)[j as int] != lit@[j as int]);
            return false;
        }
        assert(t.subrange(0, j + 1) =~= t.subrange(0, j as int).push(t[j as int]));
        assert(lit@.subrange(0, j + 1) =~= lit@.subrange(0, j as int).push(lit@[j as int]));
        j = j + 1;
    }
    assert(lit@.subrange(0, m as int) =~= lit@);
    true
}

fn read_opt_exec(v: &Vec<char>, i: usize) -> (r: Option<(Option<String>, usize)>)
    requires
        i <= v@.len(),
    ensures
        match r {
            Some((o, end)) => end <= v@.len() && read_opt(v@.subrange(i as int, v@.len() as int)) == Some((opt_view(o), v@.subrange(end as int, v@.len() as int))),
            None => read_opt(v@.subrange(i as int, v@.len() as int)) is None,
        },
{
    let ghost t = v@.subrange(i as int, v@.len() as int);
    let n = v.len();
    proof {
        reveal_strlit("null");
    }
    if at_literal(v, i, "null") {
        assert(4 <= t.len());
        assert(i + 4 <= n);
        assert(t.subrange(4, t.len() as int) =~= v@.subrange(i + 4, v@.len() as int));
        Some((None, i + 4))
    } else if i < v.len() && v[i] == '"' {
        assert(t.drop_first() =~= v@.subrange(i + 1, v@.len() as int));
        match read_json_str(v, i + 1) {
            Some((d, end)) => Some((Some(d), end)),
            None => None,
        }
    } else {
        None
    }
}

fn strip_exec(v: &Vec<char>, i: usize, lit: &str) -> (r: Option<usize>)
    requires
        i <= v@.len(),
    ensures
        match r {
            Some(j) => j <= v@.len() && strip(v@.subrange(i as int, v@.len() as int), lit@) == Some(v@.subrange(j as int, v@.len() as int)),
            None => strip(v@.subrange(i as int, v@.len() as int), lit@) is None,
        },
{
    if at_literal(v, i, lit) {
        let m = lit.unicode_len();
        let n = v.len();
        assert(m <= v@.len() - i);
        assert(i + m <= n);
        assert(v@.subrange(i as int, v@.len() as int).subrange(m as int, v@.len() - i) =~= v@.subrange(i + m, v@.len() as int));
        Some(i + m)
    } else {
        None
    }
}

fn append_opt_field(out: &mut String, o: Option<&str>)
    ensures
        final(out)@ == old(out)@ + opt_enc(match o { Some(x) => Some(x@), None => None::<Seq<char>> }),
{
    proof {
        reveal_strlit("\"");
    }
    match o {
        Some(x) => {
            out.append("\"");
            append_escaped(out, x);
            out.append("\"");
            assert(final(out)@ =~= old(out)@ + opt_enc(Some(x@)));
        },
        None => {
            out.append("null");
        },
    }
}

impl Token {
    /// The token as a compact JSON record, or `None` when its expiry lies
    /// outside the years 0000 to 9999.
    pub fn pack(&self) -> (r: Option<String>)
        ensures
            r is Some <==> (self@.2 matches Some(secs) ==> recordable(secs)),
            match r {
                Some(s) => packed_of(self@) == Some(s@),
                None => packed_of(self@) is None,
            },
    {
        let expiry = match self.expiry() {
            Some(secs) => {
                if secs < FIRST_RECORD_SECS || secs > LAST_RECORD_SECS {
                    return None;
                }
                match format_rfc3339(secs) {
                    Some(e) => Some(e),
                    None => {
                        return None;
                    },
                }
            },
            None => None,
        };
        let mut out = owned("{\"access_token\":\"");
        append_escaped(&mut out, self.access_token());
        let ghost a = out@;
        out.append("\"");
        out.append(",\"refresh_token\":");
        let ghost b = out@;
        append_opt_field(&mut out, self.refresh_token());
        let ghost c = out@;
        out.append(",\"expires_at\":");
        let ghost d = out@;
        let e = match &expiry {
            Some(e) => Some(e.as_str()),
            None => None,
        };
        append_opt_field(&mut out, e);
        let ghost f = out@;
        out.append("}");
        proof {
            reveal_strlit("\"");
            let ex = match expiry { Some(e) => Some(e@), None => None::<Seq<char>> };
            assert(a == record_head() + esc(self@.0));
            assert(b =~= a + (seq!['"'] + refresh_key()));
            assert(c == b + opt_enc(self@.1));
            assert(d == c + expiry_key());
            assert(f == d + opt_enc(ex));
            assert(out@ == f + close_brace());
            assert(out@ =~= encode_record(self@.0, self@.1, ex));
        }
        Some(out)
    }

    /// Reads a token from its record. Whatever `pack` wrote for a token
    /// reads back as that token, field by field.
    pub fn from_string(s: &str) -> (r: Result<Token, AuthError>)
        ensures
            match r {
                Ok(t) => unpacked_of(s@) == Some(t@),
                Err(e) => unpacked_of(s@) is None && e is ProtocolError,
            },
            forall|t: TokenView| #[trigger] packed_of(t) == Some(s@) ==> (r matches Ok(u) && u@ == t),
    {
        let bad = AuthError::ProtocolError(owned("Failed to parse token"));
        let fields = read_record(s);
        proof {
            assert forall|t: TokenView| #[trigger] packed_of(t) == Some(s@) implies record_of(s@) == Some((t.0, t.1, match t.2 {
                None => None::<Seq<char>>,
                Some(secs) => rfc3339_text_of(secs),
            })) by {
                let ex = match t.2 {
                    None => None::<Seq<char>>,
                    Some(secs) => rfc3339_text_of(secs),
                };
                lemma_record_round_trip(t.0, t.1, ex);
            }
        }
        match fields {
            None => Err(bad),
            Some((access, refresh, expiry)) => match expiry {
                None => Ok(Token::new(access, refresh, None)),
                Some(e) => match parse_rfc3339(e.as_str()) {
                    Some(x) => Ok(Token::new(access, refresh, Some(x))),
                    None => Err(bad),
                },
            },
        }
    }
}

/// Reads the three fields of a record.
fn read_record(s: &str) -> (r: Option<(String, Option<String>, Option<String>)>)
    ensures
        match r {
            Some((a, rt, e)) => record_of(s@) == Some((a@, opt_view(rt), opt_view(e))),
            None => record_of(s@) is None,
        },
{
    let v = chars_of(s);
    let n = v.len();
    assert(v@.subrange(0, n as int) =~= s@);
    let i1 = match strip_exec(&v, 0, "{\"access_token\":\"") { Some(j) => j, None => { return None; } };
    let (access, i2) = match read_json_str(&v, i1) { Some(x) => x, None => { return None; } };
    let i3 = match strip_exec(&v, i2, ",\"refresh_token\":") { Some(j) => j, None => { return None; } };
    let (refresh, i4) = match read_opt_exec(&v, i3) { Some(x) => x, None => { return None; } };
    let i5 = match strip_exec(&v, i4, ",\"expires_at\":") { Some(j) => j, None => { return None; } };
    let (expiry, i6) = match read_opt_exec(&v, i5) { Some(x) => x, None => { return None; } };
    proof {
        reveal_strlit("}");
        let t1 = v@.subrange(i1 as int, n as int);
        assert(strip(s@, record_head()) == Some(t1));
        assert(read_str(t1) == Some((access@, v@.subrange(i2 as int, n as int))));
        assert(strip(v@.subrange(i2 as int, n as int), refresh_key()) == Some(v@.subrange(i3 as int, n as int)));
        assert(read_opt(v@.subrange(i3 as int, n as int)) == Some((opt_view(refresh), v@.subrange(i4 as int, n as int))));
        assert(strip(v@.subrange(i4 as int, n as int), expiry_key()) == Some(v@.subrange(i5 as int, n as int)));
        assert(read_opt(v@.subrange(i5 as int, n as int)) == Some((opt_view(expiry), v@.subrange(i6 as int, n as int))));
        assert(record_of(s@) == if v@.subrange(i6 as int, n as int) == close_brace() {
            Some((access@, opt_view(refresh), opt_view(expiry)))
        } else {
            None
        });
    }
    if i6 < n && i6 + 1 == n && v[i6] == '}' {
        assert(v@.subrange(i6 as int, n as int) =~= close_brace());
        Some((access, refresh, expiry))
    } else {
        assert(v@.subrange(i6 as int, n as int) != close_brace()) by {
            reveal_strlit("}");
            if v@.subrange(i6 as int, n as int) == close_brace() {
                assert(close_brace().len() == 1);
                assert(i6 + 1 == n);
                assert(v@.subrange(i6 as int, n as int)[0] == '}');
                assert(v@[i6 as int] == '}');
            }
        }
        None
    }
}

} // verus!
