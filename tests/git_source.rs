use git_warden::provider::{canonical_base, provider_endpoint_base, resolve_endpoint};

#[test]
fn canonical_base_strip_scheme() {
    let raw_base = "https://git.example.com";
    let canonical = canonical_base(raw_base);
    assert_eq!(canonical, "git.example.com");
}

#[test]
fn relative_endpoint_resolution() {
    let endpoint_base = "https://git.example.com".to_string();
    let resolve = |v: &str| resolve_endpoint(&endpoint_base, v);
    assert_eq!(
        resolve("/oauth/token"),
        "https://git.example.com/oauth/token"
    );
    assert_eq!(resolve("https://override/token"), "https://override/token");
}

#[test]
fn canonical_base_trims_slashes_and_http() {
    assert_eq!(canonical_base("http://host.example//"), "host.example");
    assert_eq!(canonical_base("plain.example/"), "plain.example");
    assert_eq!(canonical_base(""), "");
}

#[test]
fn endpoint_base_adds_https_only_without_scheme() {
    assert_eq!(provider_endpoint_base("gitlab.example.com"), "https://gitlab.example.com");
    assert_eq!(provider_endpoint_base("http://local"), "http://local");
    assert_eq!(provider_endpoint_base("https://x"), "https://x");
}
