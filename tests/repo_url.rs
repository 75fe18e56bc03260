use git_warden::repo_url::{Host, Match, ProfileRef, Profile, Profiles, Rule, Rules, Scheme, Url, Vcs};

#[test]
fn parse_from_url_https() {
    let url = "https://github.com/username/username.github.io.git";

    assert_eq!(
        Url {
            vcs: Vcs::Git,
            scheme: Scheme::Https,
            user: None,
            host: Host::GitHub,
            owner: "username".to_string(),
            repo: "username.github.io".to_string(),
            raw: Some("https://github.com/username/username.github.io.git".to_string()),
        },
        Url::from_url(url).unwrap(),
    );
}

#[test]
fn parse_from_url_ssh() {
    let url = "ssh://git@github.com/username/username.github.io.git";

    assert_eq!(
        Url {
            vcs: Vcs::Git,
            scheme: Scheme::Ssh,
            user: Some("git".to_string()),
            host: Host::GitHub,
            owner: "username".to_string(),
            repo: "username.github.io".to_string(),
            raw: None,
        },
        Url::from_url(url).unwrap(),
    );
}

#[test]
fn to_string_https() {
    assert_eq!(
        "https://github.com/username/username.github.io.git",
        Url {
            vcs: Vcs::Git,
            scheme: Scheme::Https,
            user: None,
            host: Host::GitHub,
            owner: "username".to_string(),
            repo: "username.github.io".to_string(),
            raw: None,
        }
        .to_string()
        .as_str(),
    );
}

#[test]
fn to_string_ssh() {
    assert_eq!(
        "git@github.com:username/username.github.io.git",
        Url {
            vcs: Vcs::Git,
            scheme: Scheme::Ssh,
            user: Some("git".to_string()),
            host: Host::GitHub,
            owner: "username".to_string(),
            repo: "username.github.io".to_string(),
            raw: None,
        }
        .to_string()
        .as_str(),
    );
}

#[test]
fn from_url_errors_and_unknown_hosts() {
    assert!(Url::from_url("ftp://github.com/a/b").is_err());
    assert!(Url::from_url("https://github.com/onlyowner").is_err());
    assert!(Url::from_url("not a url").is_err());
    let u = Url::from_url("https://Git.Kernel.org/torvalds/linux.git.git").unwrap();
    assert_eq!(u.host, Host::Unknown("git.kernel.org".to_string()));
    assert_eq!(u.repo, "linux");
    assert_eq!(Url::remove_extensions("repo"), "repo");
    assert_eq!(Host::parse("CODEBERG.org"), Host::Codeberg);
    assert_eq!(Scheme::parse("HTTPS"), Some(Scheme::Https));
    assert_eq!(Vcs::parse("svn"), None);
}

#[test]
fn rules_pick_first_match_and_profiles_resolve() {
    let url = Url::from_url("https://gitlab.com/team/app").unwrap();
    let rules = Rules(vec![
        Rule {
            profile: ProfileRef { name: "work".into() },
            host: Some("github.com".into()),
            owner: None,
            repo: None,
        },
        Rule {
            profile: ProfileRef { name: "team".into() },
            host: Some("gitlab.com".into()),
            owner: Some("team".into()),
            repo: None,
        },
        Rule {
            profile: ProfileRef { name: "any".into() },
            host: None,
            owner: None,
            repo: None,
        },
    ]);
    let rule = rules.resolve(&url).unwrap();
    assert_eq!(rule.profile.name, "team");

    let profiles = Profiles {
        map: vec![(
            "team".to_string(),
            Profile { configs: vec![("user.name".to_string(), "Team".to_string())] },
        )],
    };
    let (name, profile) = profiles.resolve(&rule.profile).unwrap();
    assert_eq!(name, "team");
    assert_eq!(profile.configs[0].1, "Team");
    assert!(profiles.resolve(&ProfileRef { name: "none".into() }).is_none());
}

#[test]
fn from_match_fills_defaults() {
    let m = Match {
        vcs: None,
        scheme: None,
        user: None,
        host: None,
        owner: None,
        repo: "username.github.io".to_string(),
        raw: None,
    };
    let u = Url::from_match(m, Some("username")).unwrap();
    assert_eq!(
        u,
        Url {
            vcs: Vcs::Git,
            scheme: Scheme::Https,
            user: None,
            host: Host::GitHub,
            owner: "username".to_string(),
            repo: "username.github.io".to_string(),
            raw: None,
        }
    );
    let n = Match {
        vcs: None,
        scheme: Some(Scheme::Ssh),
        user: Some("git".into()),
        host: Some(Host::GitLab),
        owner: None,
        repo: "r.git".to_string(),
        raw: None,
    };
    assert!(Url::from_match(n, None).is_none());
}
