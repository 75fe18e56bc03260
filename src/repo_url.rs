//! Repository identifiers: version control system, scheme, host, owner and
//! repository name, read from a URL and written back; and the rules that
//! pick a profile for a repository.
use vstd::prelude::*;
use vstd::string::*;
use crate::text::{owned, str_eq};
use crate::token::opt_view;
use crate::weburl::{parse_url_parts, url_parts_of};

verus! {

/// ASCII lower case of one character.
pub open spec fn ascii_lower(c: char) -> char {
    if 'A' <= c && c <= 'Z' { ((c as u32) + 32) as char } else { c }
}

/// ASCII lower case of a string.
pub open spec fn ascii_lower_seq(s: Seq<char>) -> Seq<char> {
    s.map_values(|c: char| ascii_lower(c))
}

fn ascii_lower_char(c: char) -> (r: char)
    ensures
        r == ascii_lower(c),
{
    if 'A' <= c && c <= 'Z' {
        let v = (c as u32) + 32;
        assert(v < 128);
        ((v as u8) as char)
    } else {
        c
    }
}

/// Whether `s` equals the lower-case ASCII word `w` ignoring ASCII case.
pub fn eq_ignore_ascii_case(s: &str, w: &str) -> (r: bool)
    ensures
        r == (ascii_lower_seq(s@) == w@),
{
    let n = s.unicode_len();
    let m = w.unicode_len();
    if n != m {
        assert(ascii_lower_seq(s@).len() != w@.len());
        return false;
    }
    let mut i: usize = 0;
    while i < n
        invariant
            n == s@.len(),
            m == w@.len(),
            n == m,
            i <= n,
            forall|k: int| 0 <= k < i ==> ascii_lower(#[trigger] s@[k]) == w@[k],
        decreases n - i,
    {
        if ascii_lower_char(s.get_char(i)) != w.get_char(i) {
            assert(ascii_lower_seq(s@)[i as int] != w@[i as int]);
            return false;
        }
        i = i + 1;
    }
    assert(ascii_lower_seq(s@) =~= w@);
    true
}

/// Version control system.
#[derive(PartialEq, Eq, Structural, Clone, Copy, Debug)]
pub enum Vcs {
    Git,
}

impl Vcs {
    /// The VCS of a repository URL: Git, whether or not the URL ends in `.git`.
    pub fn from_url(url: &str) -> (r: Vcs)
        ensures
            r == Vcs::Git,
    {
        Vcs::Git
    }

    /// The file extension of repositories of this VCS.
    pub fn extension(self) -> (r: &'static str)
        ensures
            r@ == ".git"@,
    {
        ".git"
    }

    /// Reads a VCS name, ignoring ASCII case.
    pub fn parse(s: &str) -> (r: Option<Vcs>)
        ensures
            r == (if ascii_lower_seq(s@) == "git"@ { Some(Vcs::Git) } else { None }),
    {
        if eq_ignore_ascii_case(s, "git") { Some(Vcs::Git) } else { None }
    }

    /// The name of the VCS.
    pub fn name(self) -> (r: &'static str)
        ensures
            r@ == "git"@,
    {
        "git"
    }
}

/// URL scheme of a repository.
#[derive(PartialEq, Eq, Structural, Clone, Copy, Debug)]
pub enum Scheme {
    Https,
    Ssh,
}

impl Scheme {
    /// Reads a scheme name, ignoring ASCII case.
    pub fn parse(s: &str) -> (r: Option<Scheme>)
        ensures
            r == (if ascii_lower_seq(s@) == "https"@ {
                Some(Scheme::Https)
            } else if ascii_lower_seq(s@) == "ssh"@ {
                Some(Scheme::Ssh)
            } else {
                None
            }),
    {
        if eq_ignore_ascii_case(s, "https") {
            Some(Scheme::Https)
        } else if eq_ignore_ascii_case(s, "ssh") {
            Some(Scheme::Ssh)
        } else {
            None
        }
    }

    /// The name of the scheme.
    pub fn name(self) -> (r: &'static str)
        ensures
            r@ == (match self { Scheme::Https => "https"@, Scheme::Ssh => "ssh"@ }),
    {
        match self {
            Scheme::Https => "https",
            Scheme::Ssh => "ssh",
        }
    }
}

/// Host of a repository: a well-known forge or any other host name.
#[derive(Debug)]
pub enum Host {
    GitHub,
    GitLab,
    Codeberg,
    Unknown(String),
}

/// The host name that a host stands for.
pub open spec fn host_name_of(h: Host) -> Seq<char> {
    match h {
        Host::GitHub => "github.com"@,
        Host::GitLab => "gitlab.com"@,
        Host::Codeberg => "codeberg.org"@,
        Host::Unknown(s) => s@,
    }
}

/// A host as seen by contracts: which variant, and the name it carries.
pub open spec fn host_view(h: Host) -> (u8, Seq<char>) {
    match h {
        Host::GitHub => (0, Seq::empty()),
        Host::GitLab => (1, Seq::empty()),
        Host::Codeberg => (2, Seq::empty()),
        Host::Unknown(s) => (3, s@),
    }
}

/// The host that a host name denotes; well-known names are recognised
/// regardless of ASCII case.
pub open spec fn host_from_name(s: Seq<char>) -> (u8, Seq<char>) {
    if ascii_lower_seq(s) == "github.com"@ {
        (0, Seq::empty())
    } else if ascii_lower_seq(s) == "gitlab.com"@ {
        (1, Seq::empty())
    } else if ascii_lower_seq(s) == "codeberg.org"@ {
        (2, Seq::empty())
    } else {
        (3, s)
    }
}

impl PartialEq for Host {
    fn eq(&self, o: &Host) -> (r: bool) {
        match (self, o) {
            (Host::GitHub, Host::GitHub) => true,
            (Host::GitLab, Host::GitLab) => true,
            (Host::Codeberg, Host::Codeberg) => true,
            (Host::Unknown(a), Host::Unknown(b)) => str_eq(a.as_str(), b.as_str()),
            _ => false,
        }
    }
}

impl vstd::std_specs::cmp::PartialEqSpecImpl for Host {
    open spec fn obeys_eq_spec() -> bool {
        true
    }

    open spec fn eq_spec(&self, o: &Host) -> bool {
        host_view(*self) == host_view(*o)
    }
}

impl Host {
    /// The host for a host name.
    pub fn parse(s: &str) -> (r: Host)
        ensures
            host_view(r) == host_from_name(s@),
    {
        if eq_ignore_ascii_case(s, "github.com") {
            Host::GitHub
        } else if eq_ignore_ascii_case(s, "gitlab.com") {
            Host::GitLab
        } else if eq_ignore_ascii_case(s, "codeberg.org") {
            Host::Codeberg
        } else {
            Host::Unknown(owned(s))
        }
    }

    /// The host name.
    pub fn to_string(&self) -> (r: String)
        ensures
            r@ == host_name_of(*self),
    {
        match self {
            Host::GitHub => owned("github.com"),
            Host::GitLab => owned("gitlab.com"),
            Host::Codeberg => owned("codeberg.org"),
            Host::Unknown(s) => s.clone(),
        }
    }

    /// A copy.
    pub fn duplicate(&self) -> (r: Host)
        ensures
            host_view(r) == host_view(*self),
            host_name_of(r) == host_name_of(*self),
    {
        match self {
            Host::GitHub => Host::GitHub,
            Host::GitLab => Host::GitLab,
            Host::Codeberg => Host::Codeberg,
            Host::Unknown(s) => Host::Unknown(s.clone()),
        }
    }
}

/// A repository identifier.
#[derive(Debug)]
pub struct Url {
    pub vcs: Vcs,
    pub scheme: Scheme,
    pub user: Option<String>,
    pub host: Host,
    pub owner: String,
    pub repo: String,
    /// The text to use as is, where it is kept instead of the inferred form.
    pub raw: Option<String>,
}

impl PartialEq for Url {
    fn eq(&self, o: &Url) -> (r: bool) {
        self.vcs == o.vcs && self.scheme == o.scheme && opt_str_eq(&self.user, &o.user) && self.host.eq(&o.host)
            && str_eq(self.owner.as_str(), o.owner.as_str()) && str_eq(self.repo.as_str(), o.repo.as_str())
            && opt_str_eq(&self.raw, &o.raw)
    }
}

impl vstd::std_specs::cmp::PartialEqSpecImpl for Url {
    open spec fn obeys_eq_spec() -> bool {
        true
    }

    open spec fn eq_spec(&self, o: &Url) -> bool {
        url_view(*self) == url_view(*o)
    }
}

fn opt_str_eq(a: &Option<String>, b: &Option<String>) -> (r: bool)
    ensures
        r == (opt_view(*a) == opt_view(*b)),
{
    match (a, b) {
        (Some(x), Some(y)) => str_eq(x.as_str(), y.as_str()),
        (None, None) => true,
        _ => false,
    }
}

/// A repository identifier as seen by contracts.
pub open spec fn url_view(u: Url) -> (Vcs, Scheme, Option<Seq<char>>, (u8, Seq<char>), Seq<char>, Seq<char>, Option<Seq<char>>) {
    (u.vcs, u.scheme, opt_view(u.user), host_view(u.host), u.owner@, u.repo@, opt_view(u.raw))
}

/// A repository name without trailing `.git` extensions.
pub open spec fn without_extensions(s: Seq<char>) -> Seq<char>
    decreases s.len(),
{
    if s.len() >= 4 && s.subrange(s.len() - 4, s.len() as int) == ".git"@ {
        without_extensions(s.subrange(0, s.len() - 4))
    } else {
        s
    }
}

fn git_suffix_at(s: &str, n: usize) -> (r: bool)
    requires
        n <= s@.len(),
    ensures
        r == (n >= 4 && s@.subrange(0, n as int).subrange(n - 4, n as int) == ".git"@),
{
    proof {
        reveal_strlit(".git");
    }
    if n < 4 {
        return false;
    }
    let ghost t = s@.subrange(0, n as int).subrange(n - 4, n as int);
    let r = s.get_char(n - 4) == '.' && s.get_char(n - 3) == 'g' && s.get_char(n - 2) == 'i' && s.get_char(n - 1) == 't';
    assert(t[0] == s@[n - 4] && t[1] == s@[n - 3] && t[2] == s@[n - 2] && t[3] == s@[n - 1]);
    if r {
        assert(t =~= ".git"@);
    }
    r
}

/// Whether `from_url` fails on a URL with these parts: it does not parse, cannot
/// be a base, has another scheme, no host, or fewer than two path segments.
pub open spec fn from_url_fails(parts: Option<(Seq<char>, Seq<char>, Option<Seq<char>>, Option<Seq<Seq<char>>>, Seq<char>, Seq<(Seq<char>, Seq<char>)>)>) -> bool {
    match parts {
        None => true,
        Some((scheme, _u, host, segs, _t, _q)) => {
            ||| segs is None
            ||| (ascii_lower_seq(scheme) != "https"@ && ascii_lower_seq(scheme) != "ssh"@)
            ||| host is None
            ||| (segs matches Some(s) && s.len() < 2)
        },
    }
}

impl Url {
    /// Removes trailing `.git` extensions from a repository name.
    pub fn remove_extensions(s: &str) -> (r: String)
        ensures
            r@ == without_extensions(s@),
    {
        let mut n = s.unicode_len();
        assert(s@.subrange(0, n as int) =~= s@);
        while git_suffix_at(s, n)
            invariant
                n <= s@.len(),
                without_extensions(s@) == without_extensions(s@.subrange(0, n as int)),
            decreases n,
        {
            assert(s@.subrange(0, n as int).subrange(0, n - 4) =~= s@.subrange(0, n - 4));
            n = n - 4;
        }
        crate::text::prefix_to(s, n)
    }

    /// Reads a repository identifier from a URL such as
    /// `https://github.com/owner/repo.git`: the first two path segments are
    /// the owner and the repository; an HTTPS URL is kept as the raw text.
    pub fn from_url(url: &str) -> (r: Result<Url, String>)
        ensures
            r is Err <==> from_url_fails(url_parts_of(url@)),
            r matches Ok(u) ==> {
                let p = url_parts_of(url@)->Some_0;
                let segs = p.3->Some_0;
                &&& u.vcs == Vcs::Git
                &&& Some(u.scheme) == (if ascii_lower_seq(p.0) == "https"@ { Some(Scheme::Https) } else { Some(Scheme::Ssh) })
                &&& opt_view(u.user) == (if p.1.len() == 0 { None } else { Some(p.1) })
                &&& host_view(u.host) == host_from_name(p.2->Some_0)
                &&& u.owner@ == segs[0]
                &&& u.repo@ == without_extensions(segs[1])
                &&& opt_view(u.raw) == (if u.scheme == Scheme::Https { Some(p.4) } else { None })
            },
    {
        let parts = match parse_url_parts(url) {
            Some(p) => p,
            None => {
                return Err(owned("Could not parse the URL"));
            },
        };
        let segments = match parts.segments {
            Some(s) => s,
            None => {
                return Err(owned("Could not parse path segments from the URL"));
            },
        };
        let scheme = match Scheme::parse(parts.scheme.as_str()) {
            Some(s) => s,
            None => {
                return Err(owned("Unknown URL scheme found"));
            },
        };
        let host = match &parts.host {
            Some(h) => Host::parse(h.as_str()),
            None => {
                return Err(owned("Could not find hostname from the URL"));
            },
        };
        if segments.len() < 1 {
            return Err(owned("Could not find owner from the URL"));
        }
        if segments.len() < 2 {
            return Err(owned("Could not find repository name from the URL"));
        }
        assert(crate::hosts::names_view(segments@)[0] == segments@[0]@);
        assert(crate::hosts::names_view(segments@)[1] == segments@[1]@);
        let user = if parts.username.as_str().is_empty() { None } else { Some(parts.username.clone()) };
        let raw = match scheme {
            Scheme::Https => Some(parts.serialized.clone()),
            Scheme::Ssh => None,
        };
        Ok(Url {
            vcs: Vcs::from_url(url),
            scheme,
            user,
            host,
            owner: segments[0].clone(),
            repo: Url::remove_extensions(segments[1].as_str()),
            raw,
        })
    }

    /// The text of the identifier: the raw text where one is kept; else
    /// `https://[user@]host/owner/repo.git` for HTTPS and
    /// `[user@]host:owner/repo.git` for SSH.
    pub fn to_string(&self) -> (r: String)
        ensures
            r@ == url_text(url_view(*self), host_name_of(self.host)),
    {
        match &self.raw {
            Some(r) => r.clone(),
            None => {
                let mut s = match self.scheme {
                    Scheme::Https => owned("https://"),
                    Scheme::Ssh => String::new(),
                };
                let ghost s0 = s@;
                match &self.user {
                    Some(u) => {
                        s.append(u.as_str());
                        s.append("@");
                    },
                    None => {},
                }
                let ghost s1 = s@;
                let h = self.host.to_string();
                s.append(h.as_str());
                match self.scheme {
                    Scheme::Https => s.append("/"),
                    Scheme::Ssh => s.append(":"),
                }
                s.append(self.owner.as_str());
                s.append("/");
                s.append(self.repo.as_str());
                s.append(self.vcs.extension());
                proof {
                    let v = url_view(*self);
                    assert(s@ =~= url_text(v, host_name_of(self.host)));
                }
                s
            },
        }
    }
}

/// The text of an identifier, given its host name.
pub open spec fn url_text(u: (Vcs, Scheme, Option<Seq<char>>, (u8, Seq<char>), Seq<char>, Seq<char>, Option<Seq<char>>), host: Seq<char>) -> Seq<char> {
    match u.6 {
        Some(r) => r,
        None => {
            let authority = match u.2 {
                Some(user) => user + "@"@ + host,
                None => host,
            };
            match u.1 {
                Scheme::Https => "https://"@ + authority + "/"@ + u.4 + "/"@ + u.5 + ".git"@,
                Scheme::Ssh => authority + ":"@ + u.4 + "/"@ + u.5 + ".git"@,
            }
        },
    }
}

/// What a pattern captured from a repository identifier, defaults applied.
#[derive(Debug)]
pub struct Match {
    pub vcs: Option<Vcs>,
    pub scheme: Option<Scheme>,
    pub user: Option<String>,
    pub host: Option<Host>,
    pub owner: Option<String>,
    pub repo: String,
    pub raw: Option<String>,
}

impl Url {
    /// The identifier that a match denotes: Git, HTTPS and GitHub where the
    /// match says nothing, the default owner where it names none, and the
    /// repository without `.git` extensions. `None` when no owner is known.
    pub fn from_match(m: Match, default_owner: Option<&str>) -> (r: Option<Url>)
        ensures
            r is Some <==> (m.owner is Some || default_owner is Some),
            r matches Some(u) ==> {
                &&& u.vcs == Vcs::Git
                &&& u.scheme == (match m.scheme { Some(s) => s, None => Scheme::Https })
                &&& opt_view(u.user) == opt_view(m.user)
                &&& host_view(u.host) == (match m.host { Some(h) => host_view(h), None => (0u8, Seq::<char>::empty()) })
                &&& u.owner@ == (match m.owner { Some(o) => o@, None => default_owner->Some_0@ })
                &&& u.repo@ == without_extensions(m.repo@)
                &&& opt_view(u.raw) == opt_view(m.raw)
            },
    {
        let owner = match m.owner {
            Some(o) => o,
            None => match default_owner {
                Some(d) => owned(d),
                None => {
                    return None;
                },
            },
        };
        let repo = Url::remove_extensions(m.repo.as_str());
        Some(Url {
            vcs: Vcs::Git,
            scheme: match m.scheme {
                Some(s) => s,
                None => Scheme::Https,
            },
            user: m.user,
            host: match m.host {
                Some(h) => h,
                None => Host::GitHub,
            },
            owner,
            repo,
            raw: m.raw,
        })
    }
}

/// A reference to a profile by name.
pub struct ProfileRef {
    pub name: String,
}

/// A rule: the profile to use for repositories whose host, owner and name
/// match the given values, where given.
pub struct Rule {
    pub profile: ProfileRef,
    pub host: Option<String>,
    pub owner: Option<String>,
    pub repo: Option<String>,
}

/// Whether an optional constraint admits a value.
pub open spec fn admits(c: Option<Seq<char>>, v: Seq<char>) -> bool {
    match c {
        Some(x) => x == v,
        None => true,
    }
}

/// Whether a rule matches a repository.
pub open spec fn rule_matches(r: &Rule, u: &Url) -> bool {
    admits(opt_view(r.host), host_name_of(u.host)) && admits(opt_view(r.owner), u.owner@) && admits(opt_view(r.repo), u.repo@)
}

fn admits_exec(c: &Option<String>, v: &str) -> (r: bool)
    ensures
        r == admits(opt_view(*c), v@),
{
    match c {
        Some(x) => str_eq(x.as_str(), v),
        None => true,
    }
}

impl Rule {
    /// Whether the rule matches the repository.
    pub fn matches(&self, url: &Url) -> (r: bool)
        ensures
            r == rule_matches(self, url),
    {
        let host = url.host.to_string();
        admits_exec(&self.host, host.as_str()) && admits_exec(&self.owner, url.owner.as_str()) && admits_exec(&self.repo, url.repo.as_str())
    }
}

/// The rules, in order of precedence.
pub struct Rules(pub Vec<Rule>);

impl Rules {
    /// The first rule that matches the repository.
    pub fn resolve(&self, url: &Url) -> (r: Option<&Rule>)
        ensures
            match r {
                Some(rule) => exists|i: int| 0 <= i < self.0@.len() && self.0@[i] == *rule && rule_matches(rule, url)
                    && forall|j: int| 0 <= j < i ==> !rule_matches(#[trigger] &self.0@[j], url),
                None => forall|j: int| 0 <= j < self.0@.len() ==> !rule_matches(#[trigger] &self.0@[j], url),
            },
    {
        let mut i: usize = 0;
        while i < self.0.len()
            invariant
                i <= self.0@.len(),
                forall|j: int| 0 <= j < i ==> !rule_matches(#[trigger] &self.0@[j], url),
            decreases self.0@.len() - i,
        {
            if self.0[i].matches(url) {
                return Some(&self.0[i]);
            }
            i = i + 1;
        }
        None
    }
}

/// A profile: git configuration entries as (key, value) pairs.
pub struct Profile {
    pub configs: Vec<(String, String)>,
}

/// Named profiles.
pub struct Profiles {
    pub map: Vec<(String, Profile)>,
}

impl Profiles {
    /// The first profile with the referenced name, with its name.
    pub fn resolve(&self, r: &ProfileRef) -> (res: Option<(&str, &Profile)>)
        ensures
            match res {
                Some((name, p)) => name@ == r.name@ && exists|i: int| 0 <= i < self.map@.len() && self.map@[i].0@ == r.name@ && self.map@[i].1 == *p
                    && forall|j: int| 0 <= j < i ==> #[trigger] self.map@[j].0@ != r.name@,
                None => forall|j: int| 0 <= j < self.map@.len() ==> #[trigger] self.map@[j].0@ != r.name@,
            },
    {
        let mut i: usize = 0;
        while i < self.map.len()
            invariant
                i <= self.map@.len(),
                forall|j: int| 0 <= j < i ==> #[trigger] self.map@[j].0@ != r.name@,
            decreases self.map@.len() - i,
        {
            if str_eq(self.map[i].0.as_str(), r.name.as_str()) {
                return Some((self.map[i].0.as_str(), &self.map[i].1));
            }
            i = i + 1;
        }
        None
    }
}

} // verus!
