//! OAuth provider configuration: defaults per provider type, endpoint
//! resolution against the provider's base URL, and validation that discards
//! unusable providers.
use vstd::prelude::*;
use vstd::string::*;
use crate::text::{has_prefix, owned, starts_with, str_eq};
use crate::token::opt_view;

verus! {

/// `str::trim` of a string.
pub uninterp spec fn trim_of(s: Seq<char>) -> Seq<char>;

/// `str::to_lowercase` of a string.
pub uninterp spec fn lower_of(s: Seq<char>) -> Seq<char>;

/// Whether `url::Url::parse` accepts a string.
pub open spec fn url_valid_of(s: Seq<char>) -> bool {
    crate::weburl::url_parts_of(s) is Some
}

/// Relies on `str::trim`: the string without leading and trailing
/// whitespace; an empty string stays empty.
#[verifier::external_body]
pub(crate) fn trimmed(s: &str) -> (r: &str)
    ensures
        r@ == trim_of(s@),
        s@.len() == 0 ==> r@.len() == 0,
{
    s.trim()
}

/// Relies on `str::to_lowercase`.
#[verifier::external_body]
fn lowercase(s: &str) -> (r: String)
    ensures
        r@ == lower_of(s@),
{
    s.to_lowercase()
}

/// Whether the text parses as an absolute URL.
fn url_is_valid(s: &str) -> (r: bool)
    ensures
        r == url_valid_of(s@),
{
    crate::weburl::parse_url_parts(s).is_some()
}

/// Empty or only whitespace.
pub open spec fn blank(s: Seq<char>) -> bool {
    trim_of(s).len() == 0
}

fn is_blank(s: &str) -> (r: bool)
    ensures
        r == blank(s@),
{
    trimmed(s).is_empty()
}

/// Configuration of one OAuth provider.
#[derive(Debug)]
pub struct ProviderConfig {
    /// Optional provider type that supplies default endpoints and scopes:
    /// `github`, `gitlab`, `forgejo` or `gitea`.
    pub provider_type: Option<String>,
    pub client_id: String,
    pub client_secret: Option<String>,
    pub auth_url: String,
    pub token_url: String,
    /// Device authorization endpoint, if the provider supports the device flow.
    pub device_auth_url: Option<String>,
    /// Scopes to request; `None` sends no `scope` parameter at all.
    pub scopes: Option<Vec<String>>,
    /// Optional override: `auto`, `device` or `authcode`.
    pub preferred_flow: Option<String>,
}

/// A provider's configuration as seen by contracts.
pub struct ProviderView {
    pub provider_type: Option<Seq<char>>,
    pub client_id: Seq<char>,
    pub client_secret: Option<Seq<char>>,
    pub auth_url: Seq<char>,
    pub token_url: Seq<char>,
    pub device_auth_url: Option<Seq<char>>,
    pub scopes: Option<Seq<Seq<char>>>,
    pub preferred_flow: Option<Seq<char>>,
}

/// The characters of an optional list of strings.
pub open spec fn opt_names_view(o: Option<Vec<String>>) -> Option<Seq<Seq<char>>> {
    match o {
        Some(v) => Some(crate::hosts::names_view(v@)),
        None => None,
    }
}

impl View for ProviderConfig {
    type V = ProviderView;

    open spec fn view(&self) -> ProviderView {
        ProviderView {
            provider_type: opt_view(self.provider_type),
            client_id: self.client_id@,
            client_secret: opt_view(self.client_secret),
            auth_url: self.auth_url@,
            token_url: self.token_url@,
            device_auth_url: opt_view(self.device_auth_url),
            scopes: opt_names_view(self.scopes),
            preferred_flow: opt_view(self.preferred_flow),
        }
    }
}

/// Defaults that a provider type supplies.
pub struct ProviderDefaults {
    pub auth_path: String,
    pub token_path: String,
    pub device_auth_path: Option<String>,
    pub scopes: Vec<String>,
    pub preferred_flow: String,
}

/// The defaults of a provider type as seen by contracts: auth path, token
/// path, device path, scopes and preferred flow.
pub type DefaultsView = (Seq<char>, Seq<char>, Option<Seq<char>>, Seq<Seq<char>>, Seq<char>);

/// The defaults for a lower-cased provider type, if it is known.
pub open spec fn defaults_for(kind: Seq<char>) -> Option<DefaultsView> {
    if kind == "github"@ {
        Some(("/login/oauth/authorize"@, "/login/oauth/access_token"@, Some("/login/device/code"@),
            seq!["repo"@, "read:org"@, "write:org"@, "workflow"@], "authcode"@))
    } else if kind == "gitlab"@ {
        Some(("/oauth/authorize"@, "/oauth/token"@, Some("/oauth/authorize_device"@),
            seq!["read_repository"@, "write_repository"@], "authcode"@))
    } else if kind == "forgejo"@ || kind == "gitea"@ {
        Some(("/login/oauth/authorize"@, "/login/oauth/access_token"@, None,
            seq!["read:repository"@, "write:repository"@], "authcode"@))
    } else {
        None
    }
}

fn names_from(items: &[&str]) -> (r: Vec<String>)
    ensures
        crate::hosts::names_view(r@) == items@.map_values(|s: &str| s@),
{
    let mut out: Vec<String> = Vec::new();
    let mut i: usize = 0;
    while i < items.len()
        invariant
            i <= items@.len(),
            crate::hosts::names_view(out@) == items@.subrange(0, i as int).map_values(|s: &str| s@),
        decreases items@.len() - i,
    {
        let ghost before = out@;
        out.push(owned(items[i]));
        assert(crate::hosts::names_view(out@) =~= crate::hosts::names_view(before).push(items@[i as int]@));
        assert(items@.subrange(0, i + 1).map_values(|s: &str| s@) =~= items@.subrange(0, i as int).map_values(|s: &str| s@).push(items@[i as int]@));
        i = i + 1;
    }
    assert(items@.subrange(0, items@.len() as int) == items@);
    out
}

/// The defaults for a lower-cased provider type.
pub fn provider_defaults(kind: &str) -> (r: Option<ProviderDefaults>)
    ensures
        match r {
            Some(d) => defaults_for(kind@) == Some((d.auth_path@, d.token_path@, opt_view(d.device_auth_path), crate::hosts::names_view(d.scopes@), d.preferred_flow@)),
            None => defaults_for(kind@) is None,
        },
{
    if str_eq(kind, "github") {
        let items: [&str; 4] = ["repo", "read:org", "write:org", "workflow"];
        let scopes = names_from(&items);
        assert(items@.map_values(|s: &str| s@) =~= seq!["repo"@, "read:org"@, "write:org"@, "workflow"@]);
        Some(ProviderDefaults {
            auth_path: owned("/login/oauth/authorize"),
            token_path: owned("/login/oauth/access_token"),
            device_auth_path: Some(owned("/login/device/code")),
            scopes,
            preferred_flow: owned("authcode"),
        })
    } else if str_eq(kind, "gitlab") {
        let items: [&str; 2] = ["read_repository", "write_repository"];
        let scopes = names_from(&items);
        assert(items@.map_values(|s: &str| s@) =~= seq!["read_repository"@, "write_repository"@]);
        Some(ProviderDefaults {
            auth_path: owned("/oauth/authorize"),
            token_path: owned("/oauth/token"),
            device_auth_path: Some(owned("/oauth/authorize_device")),
            scopes,
            preferred_flow: owned("authcode"),
        })
    } else if str_eq(kind, "forgejo") || str_eq(kind, "gitea") {
        let items: [&str; 2] = ["read:repository", "write:repository"];
        let scopes = names_from(&items);
        assert(items@.map_values(|s: &str| s@) =~= seq!["read:repository"@, "write:repository"@]);
        Some(ProviderDefaults {
            auth_path: owned("/login/oauth/authorize"),
            token_path: owned("/login/oauth/access_token"),
            device_auth_path: None,
            scopes,
            preferred_flow: owned("authcode"),
        })
    } else {
        None
    }
}

/// The base URL of a provider named by a host or by a URL with a scheme.
pub open spec fn endpoint_base_of(name: Seq<char>) -> Seq<char> {
    if has_prefix(name, "http://"@) || has_prefix(name, "https://"@) {
        name
    } else {
        "https://"@ + name
    }
}

/// The base URL that relative endpoints of the provider `name` resolve against.
pub fn provider_endpoint_base(name: &str) -> (r: String)
    ensures
        r@ == endpoint_base_of(name@),
{
    if starts_with(name, "http://") || starts_with(name, "https://") {
        owned(name)
    } else {
        let mut s = owned("https://");
        s.append(name);
        s
    }
}

/// An endpoint resolved against a base: a value starting with `/` is
/// appended to the base, any other value is kept.
pub open spec fn resolved_of(base: Seq<char>, v: Seq<char>) -> Seq<char> {
    if v.len() > 0 && v[0] == '/' { base + v } else { v }
}

/// Resolves an endpoint against a base URL.
pub fn resolve_endpoint(base: &str, v: &str) -> (r: String)
    ensures
        r@ == resolved_of(base@, v@),
{
    if v.unicode_len() > 0 && v.get_char(0) == '/' {
        let mut s = owned(base);
        s.append(v);
        s
    } else {
        owned(v)
    }
}

/// Error text for a provider type that is not known.
pub open spec fn unknown_type_message() -> Seq<char> {
    "unknown provider type"@
}

/// The provider after the defaults of a provider type are filled in where
/// the configuration leaves a gap.
pub open spec fn with_defaults(p: ProviderView, d: DefaultsView) -> ProviderView {
    ProviderView {
        auth_url: if blank(p.auth_url) { d.0 } else { p.auth_url },
        token_url: if blank(p.token_url) { d.1 } else { p.token_url },
        device_auth_url: match (p.device_auth_url, d.2) {
            (None, Some(path)) => Some(path),
            (Some(u), Some(path)) => if blank(u) { Some(path) } else { Some(u) },
            _ => p.device_auth_url,
        },
        scopes: match p.scopes {
            Some(s) => if s.len() == 0 { Some(d.3) } else { Some(s) },
            None => Some(d.3),
        },
        preferred_flow: match p.preferred_flow {
            Some(f) => Some(f),
            None => Some(d.4),
        },
        ..p
    }
}

/// `apply_type_defaults` on the model: the provider and the errors to add.
pub open spec fn type_defaults_applied(p: ProviderView, ptype: Seq<char>) -> (ProviderView, Seq<Seq<char>>) {
    match defaults_for(lower_of(ptype)) {
        Some(d) => (with_defaults(p, d), Seq::empty()),
        None => (p, seq![unknown_type_message()]),
    }
}

/// Fills the gaps of a provider's configuration from the defaults of its
/// type; an unknown type adds an error and changes nothing.
pub fn apply_type_defaults(provider: &mut ProviderConfig, ptype: &str, errs: &mut Vec<String>)
    ensures
        final(provider)@ == type_defaults_applied(old(provider)@, ptype@).0,
        crate::hosts::names_view(final(errs)@) == crate::hosts::names_view(old(errs)@) + type_defaults_applied(old(provider)@, ptype@).1,
{
    let kind = lowercase(ptype);
    match provider_defaults(kind.as_str()) {
        Some(d) => {
            if is_blank(provider.auth_url.as_str()) {
                provider.auth_url = d.auth_path;
            }
            if is_blank(provider.token_url.as_str()) {
                provider.token_url = d.token_path;
            }
            match d.device_auth_path {
                Some(path) => {
                    let replace = match &provider.device_auth_url {
                        None => true,
                        Some(u) => is_blank(u.as_str()),
                    };
                    if replace {
                        provider.device_auth_url = Some(path);
                    }
                },
                None => {},
            }
            let fill = match &provider.scopes {
                None => true,
                Some(s) => s.len() == 0,
            };
            if fill {
                provider.scopes = Some(d.scopes);
            }
            if provider.preferred_flow.is_none() {
                provider.preferred_flow = Some(d.preferred_flow);
            }
            assert(crate::hosts::names_view(errs@) =~= crate::hosts::names_view(errs@) + Seq::<Seq<char>>::empty());
        },
        None => {
            let ghost before = errs@;
            errs.push(owned("unknown provider type"));
            assert(crate::hosts::names_view(errs@) =~= crate::hosts::names_view(before) + seq![unknown_type_message()]);
        },
    }
}

/// The provider-type stage of validation: defaults filled in, and the
/// errors it finds.
pub open spec fn type_stage(p: ProviderView) -> (ProviderView, Seq<Seq<char>>) {
    match p.provider_type {
        Some(pt) => {
            let e0: Seq<Seq<char>> = if blank(pt) && (blank(p.auth_url) || blank(p.token_url)) {
                seq!["missing provider_type or auth_url/token_url"@]
            } else {
                Seq::empty()
            };
            let applied = type_defaults_applied(p, pt);
            (applied.0, e0 + applied.1)
        },
        None => (p, Seq::empty()),
    }
}

/// A required endpoint: missing when blank, else resolved against `base`
/// and checked to be a URL.
pub open spec fn required_endpoint(base: Seq<char>, v: Seq<char>, missing: Seq<char>, invalid: Seq<char>) -> (Seq<char>, Seq<Seq<char>>) {
    if blank(v) {
        (v, seq![missing])
    } else {
        let a = resolved_of(base, v);
        (a, if url_valid_of(a) { Seq::<Seq<char>>::empty() } else { seq![invalid] })
    }
}

/// An optional endpoint: resolved against `base` and checked when present.
pub open spec fn optional_endpoint(base: Seq<char>, v: Option<Seq<char>>, invalid: Seq<char>) -> (Option<Seq<char>>, Seq<Seq<char>>) {
    match v {
        Some(u) => {
            let d = resolved_of(base, u);
            (Some(d), if url_valid_of(d) { Seq::<Seq<char>>::empty() } else { seq![invalid] })
        },
        None => (None, Seq::<Seq<char>>::empty()),
    }
}

/// The errors and the normalized provider that validation yields.
pub open spec fn validation_of(name: Seq<char>, p: ProviderView) -> (ProviderView, Seq<Seq<char>>) {
    let base = endpoint_base_of(name);
    let (staged, e1) = type_stage(p);
    let e2: Seq<Seq<char>> = if blank(staged.client_id) { seq!["missing client_id"@] } else { Seq::empty() };
    let (a, ea) = required_endpoint(base, staged.auth_url, "missing auth_url"@, "invalid auth_url"@);
    let (t, et) = required_endpoint(base, staged.token_url, "missing token_url"@, "invalid token_url"@);
    let (dv, ed) = optional_endpoint(base, staged.device_auth_url, "invalid device_auth_url"@);
    (ProviderView { auth_url: a, token_url: t, device_auth_url: dv, ..staged }, e1 + e2 + ea + et + ed)
}

fn push_message(errs: &mut Vec<String>, msg: &str)
    ensures
        crate::hosts::names_view(final(errs)@) == crate::hosts::names_view(old(errs)@).push(msg@),
{
    errs.push(owned(msg));
    assert(crate::hosts::names_view(errs@) =~= crate::hosts::names_view(old(errs)@).push(msg@));
}

fn apply_type_stage(provider: &mut ProviderConfig, errs: &mut Vec<String>)
    ensures
        final(provider)@ == type_stage(old(provider)@).0,
        crate::hosts::names_view(final(errs)@) == crate::hosts::names_view(old(errs)@) + type_stage(old(provider)@).1,
{
    match provider.provider_type.clone() {
        Some(ptype) => {
            let ghost e_start = crate::hosts::names_view(errs@);
            if is_blank(ptype.as_str()) && (is_blank(provider.auth_url.as_str()) || is_blank(provider.token_url.as_str())) {
                push_message(errs, "missing provider_type or auth_url/token_url");
            }
            let ghost e_mid = crate::hosts::names_view(errs@);
            apply_type_defaults(provider, ptype.as_str(), errs);
            proof {
                let t = type_stage(old(provider)@);
                assert(crate::hosts::names_view(errs@) =~= e_start + t.1);
            }
        },
        None => {
            assert(crate::hosts::names_view(errs@) =~= crate::hosts::names_view(errs@) + Seq::<Seq<char>>::empty());
        },
    }
}

fn resolve_required(base: &str, v: &str, missing: &str, invalid: &str, errs: &mut Vec<String>) -> (r: String)
    ensures
        r@ == required_endpoint(base@, v@, missing@, invalid@).0,
        crate::hosts::names_view(final(errs)@) == crate::hosts::names_view(old(errs)@) + required_endpoint(base@, v@, missing@, invalid@).1,
{
    if is_blank(v) {
        push_message(errs, missing);
        assert(crate::hosts::names_view(old(errs)@).push(missing@) =~= crate::hosts::names_view(old(errs)@) + seq![missing@]);
        owned(v)
    } else {
        let a = resolve_endpoint(base, v);
        if !url_is_valid(a.as_str()) {
            push_message(errs, invalid);
            assert(crate::hosts::names_view(old(errs)@).push(invalid@) =~= crate::hosts::names_view(old(errs)@) + seq![invalid@]);
        } else {
            assert(crate::hosts::names_view(errs@) =~= crate::hosts::names_view(errs@) + Seq::<Seq<char>>::empty());
        }
        a
    }
}

fn resolve_optional(base: &str, v: &Option<String>, invalid: &str, errs: &mut Vec<String>) -> (r: Option<String>)
    ensures
        opt_view(r) == optional_endpoint(base@, opt_view(*v), invalid@).0,
        crate::hosts::names_view(final(errs)@) == crate::hosts::names_view(old(errs)@) + optional_endpoint(base@, opt_view(*v), invalid@).1,
{
    match v {
        Some(u) => {
            let d = resolve_endpoint(base, u.as_str());
            if !url_is_valid(d.as_str()) {
                push_message(errs, invalid);
                assert(crate::hosts::names_view(old(errs)@).push(invalid@) =~= crate::hosts::names_view(old(errs)@) + seq![invalid@]);
            } else {
                assert(crate::hosts::names_view(errs@) =~= crate::hosts::names_view(errs@) + Seq::<Seq<char>>::empty());
            }
            Some(d)
        },
        None => {
            assert(crate::hosts::names_view(errs@) =~= crate::hosts::names_view(errs@) + Seq::<Seq<char>>::empty());
            None
        },
    }
}

/// Fills defaults from the provider type, resolves relative endpoints
/// against the provider's base URL and returns every problem found: a
/// missing client id or endpoint, an endpoint that is not a URL, or an
/// unknown provider type.
pub fn validate_and_normalize_provider(name: &str, provider: &mut ProviderConfig) -> (r: Vec<String>)
    ensures
        final(provider)@ == validation_of(name@, old(provider)@).0,
        crate::hosts::names_view(r@) == validation_of(name@, old(provider)@).1,
{
    let mut errs: Vec<String> = Vec::new();
    let base = provider_endpoint_base(name);
    apply_type_stage(provider, &mut errs);
    let ghost e1 = crate::hosts::names_view(errs@);
    if is_blank(provider.client_id.as_str()) {
        push_message(&mut errs, "missing client_id");
    }
    let ghost e2 = crate::hosts::names_view(errs@);
    let a = resolve_required(base.as_str(), provider.auth_url.as_str(), "missing auth_url", "invalid auth_url", &mut errs);
    let ghost e3 = crate::hosts::names_view(errs@);
    let t = resolve_required(base.as_str(), provider.token_url.as_str(), "missing token_url", "invalid token_url", &mut errs);
    let ghost e4 = crate::hosts::names_view(errs@);
    let d = resolve_optional(base.as_str(), &provider.device_auth_url, "invalid device_auth_url", &mut errs);
    provider.auth_url = a;
    provider.token_url = t;
    provider.device_auth_url = d;
    proof {
        let v = validation_of(name@, old(provider)@);
        let st = type_stage(old(provider)@);
        assert(e1 =~= st.1);
        assert(e2 =~= st.1 + (if blank(st.0.client_id) { seq!["missing client_id"@] } else { Seq::<Seq<char>>::empty() }));
        assert(crate::hosts::names_view(errs@) =~= v.1);
        assert(provider@ == v.0);
    }
    errs
}

/// The optional strings, copied.
pub fn clone_opt(o: &Option<String>) -> (r: Option<String>)
    ensures
        opt_view(r) == opt_view(*o),
{
    match o {
        Some(s) => Some(s.clone()),
        None => None,
    }
}

impl ProviderConfig {
    /// A copy with the same view.
    pub fn duplicate(&self) -> (r: ProviderConfig)
        ensures
            r@ == self@,
    {
        ProviderConfig {
            provider_type: clone_opt(&self.provider_type),
            client_id: self.client_id.clone(),
            client_secret: clone_opt(&self.client_secret),
            auth_url: self.auth_url.clone(),
            token_url: self.token_url.clone(),
            device_auth_url: clone_opt(&self.device_auth_url),
            scopes: match &self.scopes {
                Some(v) => Some(crate::hosts::clone_names(v)),
                None => None,
            },
            preferred_flow: clone_opt(&self.preferred_flow),
        }
    }
}

/// OAuth configuration: the providers by name, the loopback port and the
/// OAuth-only switch.
#[derive(Debug)]
pub struct OAuthConfig {
    pub providers: Vec<(String, ProviderConfig)>,
    pub port: Option<u16>,
    pub oauth_only: Option<bool>,
}

/// The providers of a configuration, by name.
pub open spec fn providers_view(s: Seq<(String, ProviderConfig)>) -> Seq<(Seq<char>, ProviderView)> {
    s.map_values(|e: (String, ProviderConfig)| (e.0@, e.1@))
}

/// The providers that pass validation, normalized, in the order given.
pub open spec fn valid_providers(s: Seq<(Seq<char>, ProviderView)>) -> Seq<(Seq<char>, ProviderView)>
    decreases s.len(),
{
    if s.len() == 0 {
        Seq::empty()
    } else {
        let rest = valid_providers(s.drop_last());
        let (n, p) = s.last();
        let v = validation_of(n, p);
        if v.1.len() == 0 { rest.push((n, v.0)) } else { rest }
    }
}

/// The first provider registered under `name`.
pub open spec fn provider_named(s: Seq<(Seq<char>, ProviderView)>, name: Seq<char>) -> Option<ProviderView>
    decreases s.len(),
{
    if s.len() == 0 {
        None
    } else if s[0].0 == name {
        Some(s[0].1)
    } else {
        provider_named(s.drop_first(), name)
    }
}

/// Error text when no provider survives validation.
pub open spec fn no_valid_providers_message() -> Seq<char> {
    "No valid OAuth providers configured"@
}

/// Normalizes every provider and discards those with problems. Fails when
/// none is left.
pub fn validate_providers(cfg: OAuthConfig) -> (r: Result<OAuthConfig, String>)
    ensures
        match r {
            Ok(c) => {
                &&& providers_view(c.providers@) == valid_providers(providers_view(cfg.providers@))
                &&& valid_providers(providers_view(cfg.providers@)).len() > 0
                &&& c.port == cfg.port
                &&& c.oauth_only == cfg.oauth_only
            },
            Err(m) => valid_providers(providers_view(cfg.providers@)).len() == 0 && m@ == no_valid_providers_message(),
        },
{
    let mut kept: Vec<(String, ProviderConfig)> = Vec::new();
    let mut i: usize = 0;
    while i < cfg.providers.len()
        invariant
            i <= cfg.providers@.len(),
            providers_view(kept@) == valid_providers(providers_view(cfg.providers@.subrange(0, i as int))),
        decreases cfg.providers@.len() - i,
    {
        let ghost prefix = providers_view(cfg.providers@.subrange(0, i as int));
        assert(providers_view(cfg.providers@.subrange(0, i + 1)) =~= prefix.push((cfg.providers@[i as int].0@, cfg.providers@[i as int].1@)));
        assert(prefix.push((cfg.providers@[i as int].0@, cfg.providers@[i as int].1@)).drop_last() =~= prefix);
        let mut p = cfg.providers[i].1.duplicate();
        let errs = validate_and_normalize_provider(cfg.providers[i].0.as_str(), &mut p);
        if errs.len() == 0 {
            let ghost before = kept@;
            kept.push((cfg.providers[i].0.clone(), p));
            assert(providers_view(kept@) =~= providers_view(before).push((cfg.providers@[i as int].0@, p@)));
        }
        i = i + 1;
    }
    assert(cfg.providers@.subrange(0, cfg.providers@.len() as int) == cfg.providers@);
    if kept.len() == 0 {
        Err(owned("No valid OAuth providers configured"))
    } else {
        Ok(OAuthConfig { providers: kept, port: cfg.port, oauth_only: cfg.oauth_only })
    }
}

impl OAuthConfig {
    /// The provider registered under `name`, if any.
    pub fn provider(&self, name: &str) -> (r: Option<&ProviderConfig>)
        ensures
            match r {
                Some(p) => provider_named(providers_view(self.providers@), name@) == Some(p@),
                None => provider_named(providers_view(self.providers@), name@) is None,
            },
    {
        let mut i: usize = 0;
        assert(providers_view(self.providers@).subrange(0, self.providers@.len() as int) =~= providers_view(self.providers@));
        while i < self.providers.len()
            invariant
                i <= self.providers@.len(),
                provider_named(providers_view(self.providers@), name@)
                    == provider_named(providers_view(self.providers@).subrange(i as int, self.providers@.len() as int), name@),
            decreases self.providers@.len() - i,
        {
            let ghost rest = providers_view(self.providers@).subrange(i as int, self.providers@.len() as int);
            assert(rest.drop_first() =~= providers_view(self.providers@).subrange(i + 1, self.providers@.len() as int));
            if str_eq(self.providers[i].0.as_str(), name) {
                return Some(&self.providers[i].1);
            }
            i = i + 1;
        }
        None
    }

    /// Whether a provider is registered under `name`.
    pub fn contains_provider(&self, name: &str) -> (r: bool)
        ensures
            r == provider_named(providers_view(self.providers@), name@) is Some,
    {
        self.provider(name).is_some()
    }
}

/// A string without its trailing `/` characters.
pub open spec fn trim_slashes(s: Seq<char>) -> Seq<char>
    decreases s.len(),
{
    if s.len() > 0 && s.last() == '/' { trim_slashes(s.drop_last()) } else { s }
}

/// The provider key that a Git config base names: trailing slashes and an
/// `https://` or `http://` scheme removed.
pub open spec fn canonical_base_of(raw: Seq<char>) -> Seq<char> {
    let t = trim_slashes(raw);
    if has_prefix(t, "https://"@) {
        t.subrange(8, t.len() as int)
    } else if has_prefix(t, "http://"@) {
        t.subrange(7, t.len() as int)
    } else {
        t
    }
}

fn trim_end_slashes(raw: &str) -> (r: String)
    ensures
        r@ == trim_slashes(raw@),
{
    let mut n = raw.unicode_len();
    assert(raw@.subrange(0, n as int) =~= raw@);
    while n > 0 && raw.get_char(n - 1) == '/'
        invariant
            n <= raw@.len(),
            trim_slashes(raw@) == trim_slashes(raw@.subrange(0, n as int)),
        decreases n,
    {
        assert(raw@.subrange(0, n as int).drop_last() =~= raw@.subrange(0, n - 1));
        n = n - 1;
    }
    let mut out = String::new();
    let mut i: usize = 0;
    while i < n
        invariant
            n <= raw@.len(),
            i <= n,
            out@ == raw@.subrange(0, i as int),
        decreases n - i,
    {
        crate::text::push_char(&mut out, raw.get_char(i));
        assert(raw@.subrange(0, i + 1) == raw@.subrange(0, i as int).push(raw@[i as int]));
        i = i + 1;
    }
    proof {
        let t = raw@.subrange(0, n as int);
        if t.len() > 0 {
            assert(t.last() == raw@[n - 1]);
        }
    }
    out
}

/// A string without its trailing `/` characters.
pub fn trim_end_slashes_pub(raw: &str) -> (r: String)
    ensures
        r@ == trim_slashes(raw@),
{
    trim_end_slashes(raw)
}

/// The provider key for a Git config base such as `https://git.example.com/`.
pub fn canonical_base(raw: &str) -> (r: String)
    ensures
        r@ == canonical_base_of(raw@),
{
    let t = trim_end_slashes(raw);
    proof {
        reveal_strlit("https://");
        reveal_strlit("http://");
    }
    if starts_with(t.as_str(), "https://") {
        crate::text::suffix_from(t.as_str(), 8)
    } else if starts_with(t.as_str(), "http://") {
        crate::text::suffix_from(t.as_str(), 7)
    } else {
        t
    }
}

} // verus!
