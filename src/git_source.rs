//! Provider overrides read from Git configuration: entries named
//! `credential.<base>.oauth<Field>` and the `warden.oauth-only` switch.
use vstd::prelude::*;
use vstd::string::*;
use crate::provider::{canonical_base, canonical_base_of, resolve_endpoint, resolved_of, trim_slashes};
use crate::text::{has_infix, has_prefix, owned, push_char, starts_with, str_eq, suffix_from};

verus! {

/// Which Git configuration files a source reads.
#[derive(PartialEq, Eq, Structural, Clone, Copy, Debug)]
pub enum GitSourceMode {
    /// System, global and XDG configuration.
    GlobalAndSystem,
    /// The configuration of the repository around the working directory.
    RepoLocal,
}

/// A source of provider overrides in Git configuration.
#[derive(Clone, Copy, Debug)]
pub struct GitConfigSource {
    pub mode: GitSourceMode,
}

impl GitConfigSource {
    /// System, global and XDG configuration.
    pub fn global() -> (r: GitConfigSource)
        ensures
            r.mode == GitSourceMode::GlobalAndSystem,
    {
        GitConfigSource { mode: GitSourceMode::GlobalAndSystem }
    }

    /// Repository-local configuration.
    pub fn repo() -> (r: GitConfigSource)
        ensures
            r.mode == GitSourceMode::RepoLocal,
    {
        GitConfigSource { mode: GitSourceMode::RepoLocal }
    }

    /// The `git config` scope options that read this source, in order of
    /// increasing precedence.
    pub fn scopes(&self) -> (r: Vec<&'static str>)
        ensures
            self.mode == GitSourceMode::GlobalAndSystem ==> r@.len() == 2 && r@[0]@ == "--system"@ && r@[1]@ == "--global"@,
            self.mode == GitSourceMode::RepoLocal ==> r@.len() == 1 && r@[0]@ == "--local"@,
    {
        let mut v: Vec<&'static str> = Vec::new();
        match self.mode {
            GitSourceMode::GlobalAndSystem => {
                v.push("--system");
                v.push("--global");
            },
            GitSourceMode::RepoLocal => {
                v.push("--local");
            },
        }
        v
    }
}

/// `char::is_whitespace` of a character.
pub uninterp spec fn white_of(c: char) -> bool;

/// Relies on `char::is_whitespace`; a space is whitespace and a comma is not.
#[verifier::external_body]
fn is_white(c: char) -> (r: bool)
    ensures
        r == white_of(c),
        c == ' ' ==> r,
        c == ',' ==> !r,
{
    c.is_whitespace()
}

/// A provider field that a Git config entry sets.
#[derive(Debug)]
pub enum GitOAuthField {
    ClientId(String),
    ClientSecret(String),
    AuthUrl(String),
    TokenUrl(String),
    DeviceAuthUrl(String),
    PreferredFlow(String),
    Scopes(Vec<String>),
}

/// A separator between scopes: whitespace or a comma.
pub open spec fn scope_sep(c: char) -> bool {
    white_of(c) || c == ','
}

/// The scopes of a value: the non-empty runs between separators, in order.
pub open spec fn scopes_of(v: Seq<char>) -> Seq<Seq<char>>
    decreases v.len(),
{
    scopes_from(v, Seq::empty())
}

/// The scopes of `v`, where `cur` is the part of a scope read so far.
pub open spec fn scopes_from(v: Seq<char>, cur: Seq<char>) -> Seq<Seq<char>>
    decreases v.len(),
{
    if v.len() == 0 {
        if cur.len() > 0 { seq![cur] } else { Seq::empty() }
    } else if scope_sep(v[0]) {
        if cur.len() > 0 { seq![cur] + scopes_from(v.drop_first(), Seq::empty()) } else { scopes_from(v.drop_first(), Seq::empty()) }
    } else {
        scopes_from(v.drop_first(), cur.push(v[0]))
    }
}

/// Splits a scope list on whitespace and commas, dropping empty parts.
pub fn split_scopes(v: &str) -> (r: Vec<String>)
    ensures
        crate::hosts::names_view(r@) == scopes_of(v@),
{
    let n = v.unicode_len();
    let mut out: Vec<String> = Vec::new();
    let mut cur = String::new();
    let mut i: usize = 0;
    assert(v@.subrange(0, n as int) =~= v@);
    while i < n
        invariant
            n == v@.len(),
            i <= n,
            crate::hosts::names_view(out@) + scopes_from(v@.subrange(i as int, n as int), cur@) == scopes_of(v@),
        decreases n - i,
    {
        let c = v.get_char(i);
        let ghost t = v@.subrange(i as int, n as int);
        assert(t[0] == c);
        assert(t.drop_first() =~= v@.subrange(i + 1, n as int));
        let ghost old_cur = cur@;
        let ghost old_out = crate::hosts::names_view(out@);
        if is_white(c) || c == ',' {
            assert(scope_sep(c));
            if cur.unicode_len() > 0 {
                assert(scopes_from(t, old_cur) == seq![old_cur] + scopes_from(t.drop_first(), Seq::empty()));
                let ghost before = crate::hosts::names_view(out@);
                let ghost piece = cur@;
                out.push(cur);
                cur = String::new();
                assert(crate::hosts::names_view(out@) =~= before.push(piece));
                assert(before + (seq![piece] + scopes_from(t.drop_first(), Seq::empty())) =~= before.push(piece) + scopes_from(t.drop_first(), Seq::empty()));
            } else {
                assert(scopes_from(t, old_cur) == scopes_from(t.drop_first(), Seq::empty()));
                assert(cur@ =~= Seq::<char>::empty());
            }
        } else {
            assert(!scope_sep(c));
            assert(scopes_from(t, old_cur) == scopes_from(t.drop_first(), old_cur.push(c)));
            push_char(&mut cur, c);
        }
        i = i + 1;
    }
    if cur.unicode_len() > 0 {
        let ghost before = crate::hosts::names_view(out@);
        let ghost piece = cur@;
        out.push(cur);
        assert(crate::hosts::names_view(out@) =~= before + seq![piece]);
    } else {
        assert(crate::hosts::names_view(out@) =~= crate::hosts::names_view(out@) + Seq::<Seq<char>>::empty());
    }
    out
}

/// The first position of `p` in `s`, if it occurs.
pub open spec fn first_index(s: Seq<char>, p: Seq<char>, i: int) -> bool {
    0 <= i && i + p.len() <= s.len() && s.subrange(i, i + p.len()) == p
        && forall|j: int| 0 <= j < i ==> #[trigger] s.subrange(j, j + p.len()) != p
}

fn find_str(s: &str, p: &str) -> (r: Option<usize>)
    ensures
        match r {
            Some(i) => first_index(s@, p@, i as int),
            None => !has_infix(s@, p@),
        },
{
    let n = s.unicode_len();
    let m = p.unicode_len();
    if m > n {
        return None;
    }
    if m == 0 {
        assert(s@.subrange(0, 0) =~= p@);
        return Some(0);
    }
    let mut i: usize = 0;
    while i < n - m + 1
        invariant
            n == s@.len(),
            m == p@.len(),
            0 < m <= n,
            i <= n - m + 1,
            forall|j: int| 0 <= j < i ==> #[trigger] s@.subrange(j, j + m) != p@,
        decreases n - m + 1 - i,
    {
        if str_eq(crate::text::slice_of(s, i, i + m).as_str(), p) {
            assert(forall|j: int| 0 <= j < i ==> #[trigger] s@.subrange(j, j + p@.len()) != p@);
            return Some(i);
        }
        i = i + 1;
    }
    None
}

/// The provider key and the field suffix of an entry name already in lower
/// case: `credential.<base>.oauth<suffix>` with a non-empty suffix, split at
/// the first `.oauth`.
pub open spec fn entry_parts_of(key: Seq<char>) -> Option<(Seq<char>, Seq<char>)> {
    if has_prefix(key, "credential."@) {
        let rest = key.subrange(11, key.len() as int);
        if exists|i: int| first_index(rest, ".oauth"@, i) {
            let i = choose|i: int| first_index(rest, ".oauth"@, i);
            let suffix = rest.subrange(i + 6, rest.len() as int);
            if suffix.len() > 0 { Some((rest.subrange(0, i), suffix)) } else { None }
        } else {
            None
        }
    } else {
        None
    }
}

proof fn lemma_first_index_unique(s: Seq<char>, p: Seq<char>, i: int, j: int)
    requires
        first_index(s, p, i),
        first_index(s, p, j),
    ensures
        i == j,
{
    if i < j {
        assert(s.subrange(i, i + p.len()) != p);
    } else if j < i {
        assert(s.subrange(j, j + p.len()) != p);
    }
}

/// Splits a lower-cased entry name into its raw base and field suffix.
pub fn entry_parts(key: &str) -> (r: Option<(String, String)>)
    ensures
        match r {
            Some((b, f)) => entry_parts_of(key@) == Some((b@, f@)),
            None => entry_parts_of(key@) is None,
        },
{
    proof {
        reveal_strlit("credential.");
        reveal_strlit(".oauth");
    }
    if !starts_with(key, "credential.") {
        return None;
    }
    let rest = suffix_from(key, 11);
    match find_str(rest.as_str(), ".oauth") {
        None => {
            assert(!exists|i: int| first_index(rest@, ".oauth"@, i)) by {
                if exists|i: int| first_index(rest@, ".oauth"@, i) {
                    let i = choose|i: int| first_index(rest@, ".oauth"@, i);
                    assert(rest@.subrange(i, i + 6) == ".oauth"@);
                }
            }
            None
        },
        Some(i) => {
            proof {
                let j = choose|j: int| first_index(rest@, ".oauth"@, j);
                lemma_first_index_unique(rest@, ".oauth"@, i as int, j);
            }
            let rn = rest.as_str().unicode_len();
            assert(i + 6 <= rn);
            let suffix = suffix_from(rest.as_str(), i + 6);
            if suffix.unicode_len() == 0 {
                None
            } else {
                Some((crate::text::prefix_to(rest.as_str(), i), suffix))
            }
        },
    }
}

/// The base URL that relative endpoints of an entry resolve against: the
/// trimmed base if it has a scheme, else `https://` and the provider key.
pub open spec fn entry_endpoint_base(raw_base: Seq<char>) -> Seq<char> {
    let t = trim_slashes(raw_base);
    if has_prefix(t, "http://"@) || has_prefix(t, "https://"@) { t } else { "https://"@ + canonical_base_of(raw_base) }
}

/// The field that a suffix names, with the value it gets, as a small
/// number and the text or list it carries.
pub open spec fn field_of(suffix: Seq<char>, raw_base: Seq<char>, value: Seq<char>) -> Option<(u8, Seq<char>, Seq<Seq<char>>)> {
    let base = entry_endpoint_base(raw_base);
    if suffix == "clientid"@ {
        Some((0, value, Seq::empty()))
    } else if suffix == "clientsecret"@ {
        Some((1, value, Seq::empty()))
    } else if suffix == "authurl"@ {
        Some((2, resolved_of(base, value), Seq::empty()))
    } else if suffix == "tokenurl"@ {
        Some((3, resolved_of(base, value), Seq::empty()))
    } else if suffix == "deviceauthurl"@ {
        Some((4, resolved_of(base, value), Seq::empty()))
    } else if suffix == "preferredflow"@ {
        Some((5, value, Seq::empty()))
    } else if suffix == "scopes"@ {
        Some((6, Seq::empty(), scopes_of(value)))
    } else {
        None
    }
}

/// A field as seen by contracts.
pub open spec fn field_view(f: GitOAuthField) -> (u8, Seq<char>, Seq<Seq<char>>) {
    match f {
        GitOAuthField::ClientId(s) => (0, s@, Seq::empty()),
        GitOAuthField::ClientSecret(s) => (1, s@, Seq::empty()),
        GitOAuthField::AuthUrl(s) => (2, s@, Seq::empty()),
        GitOAuthField::TokenUrl(s) => (3, s@, Seq::empty()),
        GitOAuthField::DeviceAuthUrl(s) => (4, s@, Seq::empty()),
        GitOAuthField::PreferredFlow(s) => (5, s@, Seq::empty()),
        GitOAuthField::Scopes(v) => (6, Seq::empty(), crate::hosts::names_view(v@)),
    }
}

fn entry_base(raw_base: &str) -> (r: String)
    ensures
        r@ == entry_endpoint_base(raw_base@),
{
    let t = crate::provider::trim_end_slashes_pub(raw_base);
    if starts_with(t.as_str(), "http://") || starts_with(t.as_str(), "https://") {
        t
    } else {
        let mut s = owned("https://");
        let c = canonical_base(raw_base);
        s.append(c.as_str());
        s
    }
}

/// Decodes one Git config entry whose name is already in lower case: the
/// provider key (the base without trailing slashes and scheme) and the
/// field it sets. Relative endpoint values are resolved against the base;
/// scopes are split on whitespace and commas. Entries of other shapes and
/// unknown suffixes give `None`.
pub fn git_oauth_entry(key: &str, value: &str) -> (r: Option<(String, GitOAuthField)>)
    ensures
        match r {
            Some((k, f)) => entry_parts_of(key@) matches Some((b, s)) && k@ == canonical_base_of(b)
                && field_of(s, b, value@) == Some(field_view(f)),
            None => entry_parts_of(key@) matches Some((b, s)) ==> field_of(s, b, value@) is None,
        },
{
    let (raw_base, suffix) = match entry_parts(key) {
        Some(p) => p,
        None => {
            return None;
        },
    };
    let base = entry_base(raw_base.as_str());
    let field = if str_eq(suffix.as_str(), "clientid") {
        GitOAuthField::ClientId(owned(value))
    } else if str_eq(suffix.as_str(), "clientsecret") {
        GitOAuthField::ClientSecret(owned(value))
    } else if str_eq(suffix.as_str(), "authurl") {
        GitOAuthField::AuthUrl(resolve_endpoint(base.as_str(), value))
    } else if str_eq(suffix.as_str(), "tokenurl") {
        GitOAuthField::TokenUrl(resolve_endpoint(base.as_str(), value))
    } else if str_eq(suffix.as_str(), "deviceauthurl") {
        GitOAuthField::DeviceAuthUrl(resolve_endpoint(base.as_str(), value))
    } else if str_eq(suffix.as_str(), "preferredflow") {
        GitOAuthField::PreferredFlow(owned(value))
    } else if str_eq(suffix.as_str(), "scopes") {
        GitOAuthField::Scopes(split_scopes(value))
    } else {
        return None;
    };
    Some((canonical_base(raw_base.as_str()), field))
}

/// Whether a `warden.oauth-only` value switches the mode on: `1`, `true`,
/// `yes` or `on`, ignoring ASCII case.
pub open spec fn flag_on(v: Seq<char>) -> bool {
    let l = crate::repo_url::ascii_lower_seq(v);
    l == "1"@ || l == "true"@ || l == "yes"@ || l == "on"@
}

/// Reads the `warden.oauth-only` switch.
pub fn parse_flag(v: &str) -> (r: bool)
    ensures
        r == flag_on(v@),
{
    crate::repo_url::eq_ignore_ascii_case(v, "1") || crate::repo_url::eq_ignore_ascii_case(v, "true")
        || crate::repo_url::eq_ignore_ascii_case(v, "yes") || crate::repo_url::eq_ignore_ascii_case(v, "on")
}

} // verus!
