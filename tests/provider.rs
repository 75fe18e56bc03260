use git_warden::provider::{
    apply_type_defaults, validate_and_normalize_provider, validate_providers, OAuthConfig,
    ProviderConfig,
};

fn bare(client_id: &str) -> ProviderConfig {
    ProviderConfig {
        provider_type: None,
        client_id: client_id.into(),
        client_secret: None,
        auth_url: String::new(),
        token_url: String::new(),
        device_auth_url: None,
        scopes: None,
        preferred_flow: None,
    }
}

#[test]
fn validation_discards_invalid() {
    let cfg = OAuthConfig {
        providers: vec![
            (
                "good.example".into(),
                ProviderConfig {
                    provider_type: None,
                    client_id: "some-id".into(),
                    client_secret: None,
                    auth_url: "https://good.example/auth".into(),
                    token_url: "https://good.example/token".into(),
                    device_auth_url: None,
                    scopes: None,
                    preferred_flow: None,
                },
            ),
            (
                "bad.example".into(),
                ProviderConfig {
                    provider_type: None,
                    client_id: String::new(),
                    client_secret: None,
                    auth_url: "notaurl".into(),
                    token_url: "https://still.ok/token".into(),
                    device_auth_url: Some("also_bad".into()),
                    scopes: Some(vec![]),
                    preferred_flow: None,
                },
            ),
        ],
        port: None,
        oauth_only: None,
    };

    let cfg = validate_providers(cfg).unwrap();
    assert!(cfg.contains_provider("good.example"));
    assert!(!cfg.contains_provider("bad.example"));
}

#[test]
fn provider_type_gitlab_fills_defaults() {
    let cfg = OAuthConfig {
        providers: vec![(
            "example.com".into(),
            ProviderConfig {
                provider_type: Some("gitlab".into()),
                client_id: "some-id".into(),
                client_secret: None,
                auth_url: String::new(),
                token_url: String::new(),
                device_auth_url: None,
                scopes: None,
                preferred_flow: None,
            },
        )],
        port: None,
        oauth_only: None,
    };

    let cfg = validate_providers(cfg).unwrap();

    let p = cfg.provider("example.com").unwrap();
    assert_eq!(p.auth_url, "https://example.com/oauth/authorize");
    assert_eq!(p.token_url, "https://example.com/oauth/token");
    assert_eq!(
        p.device_auth_url.as_deref(),
        Some("https://example.com/oauth/authorize_device")
    );
    assert_eq!(p.preferred_flow.as_deref(), Some("authcode"));
    assert_eq!(
        p.scopes.as_ref().unwrap(),
        &vec![
            "read_repository".to_string(),
            "write_repository".to_string(),
        ]
    );
}

#[test]
fn provider_type_respects_overrides() {
    let cfg = OAuthConfig {
        providers: vec![(
            "example".into(),
            ProviderConfig {
                provider_type: Some("forgejo".into()),
                client_id: "some-id".into(),
                client_secret: None,
                auth_url: "https://override.example/custom_auth".into(),
                token_url: String::new(),
                device_auth_url: Some("/custom/device".into()),
                scopes: None,
                preferred_flow: None,
            },
        )],
        port: None,
        oauth_only: None,
    };

    let cfg = validate_providers(cfg).unwrap();

    let p = cfg.provider("example").unwrap();
    assert_eq!(p.auth_url, "https://override.example/custom_auth");
    assert_eq!(p.token_url, "https://example/login/oauth/access_token");
    assert_eq!(
        p.device_auth_url.as_deref(),
        Some("https://example/custom/device")
    );
    assert_eq!(p.preferred_flow.as_deref(), Some("authcode"));
    assert_eq!(
        p.scopes.as_ref().unwrap(),
        &vec![
            "read:repository".to_string(),
            "write:repository".to_string(),
        ]
    );
}

#[test]
fn scheme_in_key_resolved() {
    let cfg = OAuthConfig {
        providers: vec![(
            "https://gitlab.example.com".into(),
            ProviderConfig {
                provider_type: Some("gitlab".into()),
                client_id: "some-id".into(),
                client_secret: None,
                auth_url: String::new(),
                token_url: String::new(),
                device_auth_url: None,
                scopes: None,
                preferred_flow: None,
            },
        )],
        port: None,
        oauth_only: None,
    };

    let cfg = validate_providers(cfg).unwrap();

    let p = cfg.provider("https://gitlab.example.com").unwrap();
    assert_eq!(p.auth_url, "https://gitlab.example.com/oauth/authorize");
    assert_eq!(p.token_url, "https://gitlab.example.com/oauth/token");
    assert_eq!(
        p.device_auth_url.as_deref(),
        Some("https://gitlab.example.com/oauth/authorize_device")
    );
    assert_eq!(p.preferred_flow.as_deref(), Some("authcode"));
    assert_eq!(
        p.scopes.as_ref().unwrap(),
        &vec![
            "read_repository".to_string(),
            "write_repository".to_string(),
        ]
    );
}

#[test]
fn empty_providers_error() {
    let cfg = OAuthConfig {
        providers: Vec::new(),
        port: None,
        oauth_only: None,
    };
    validate_providers(cfg).unwrap_err();
}

#[test]
fn validation_reports_each_problem() {
    let mut p = bare("");
    p.auth_url = "notaurl".into();
    p.token_url = "https://still.ok/token".into();
    p.device_auth_url = Some("also_bad".into());
    let errs = validate_and_normalize_provider("bad.example", &mut p);
    assert_eq!(
        errs,
        vec![
            "missing client_id".to_string(),
            "invalid auth_url".to_string(),
            "invalid device_auth_url".to_string(),
        ]
    );
    let mut q = bare("id");
    let errs = validate_and_normalize_provider("x.example", &mut q);
    assert_eq!(errs, vec!["missing auth_url".to_string(), "missing token_url".to_string()]);
}

#[test]
fn unknown_and_blank_provider_types() {
    let mut p = bare("id");
    p.provider_type = Some("bitbucket".into());
    let mut errs = Vec::new();
    apply_type_defaults(&mut p, "bitbucket", &mut errs);
    assert_eq!(errs, vec!["unknown provider type".to_string()]);
    assert_eq!(p.auth_url, "");

    let mut q = bare("id");
    q.provider_type = Some("  ".into());
    let errs = validate_and_normalize_provider("h.example", &mut q);
    assert_eq!(errs[0], "missing provider_type or auth_url/token_url");
    assert!(errs.contains(&"unknown provider type".to_string()));
}

#[test]
fn github_type_is_case_insensitive_and_keeps_given_scopes() {
    let mut p = bare("id");
    p.provider_type = Some("GitHub".into());
    p.scopes = Some(vec!["repo".into()]);
    p.preferred_flow = Some("device".into());
    let errs = validate_and_normalize_provider("github.com", &mut p);
    assert!(errs.is_empty());
    assert_eq!(p.auth_url, "https://github.com/login/oauth/authorize");
    assert_eq!(p.token_url, "https://github.com/login/oauth/access_token");
    assert_eq!(p.device_auth_url.as_deref(), Some("https://github.com/login/device/code"));
    assert_eq!(p.scopes, Some(vec!["repo".to_string()]));
    assert_eq!(p.preferred_flow.as_deref(), Some("device"));
}

#[test]
fn empty_scopes_are_filled_and_blank_device_url_replaced() {
    let mut p = bare("id");
    p.provider_type = Some("gitea".into());
    p.scopes = Some(vec![]);
    let mut errs = Vec::new();
    apply_type_defaults(&mut p, "gitea", &mut errs);
    assert!(errs.is_empty());
    assert_eq!(p.scopes, Some(vec!["read:repository".to_string(), "write:repository".to_string()]));
    assert_eq!(p.device_auth_url, None);

    let mut q = bare("id");
    q.device_auth_url = Some(" ".into());
    let mut errs = Vec::new();
    apply_type_defaults(&mut q, "gitlab", &mut errs);
    assert_eq!(q.device_auth_url.as_deref(), Some("/oauth/authorize_device"));
}
