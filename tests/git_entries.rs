use git_warden::git_source::{entry_parts, git_oauth_entry, parse_flag, split_scopes, GitOAuthField};

#[test]
fn entry_names_split_at_first_oauth() {
    assert_eq!(
        entry_parts("credential.https://git.example.com/.oauthclientid"),
        Some(("https://git.example.com/".to_string(), "clientid".to_string()))
    );
    assert_eq!(entry_parts("credential.host.oauth"), None);
    assert_eq!(entry_parts("user.name"), None);
}

#[test]
fn entries_decode_to_provider_fields() {
    match git_oauth_entry("credential.https://git.example.com/.oauthtokenurl", "/oauth/token") {
        Some((k, GitOAuthField::TokenUrl(v))) => {
            assert_eq!(k, "git.example.com");
            assert_eq!(v, "https://git.example.com/oauth/token");
        },
        other => panic!("unexpected {other:?}"),
    }
    match git_oauth_entry("credential.gitlab.example.com.oauthauthurl", "/a") {
        Some((k, GitOAuthField::AuthUrl(v))) => {
            assert_eq!(k, "gitlab.example.com");
            assert_eq!(v, "https://gitlab.example.com/a");
        },
        other => panic!("unexpected {other:?}"),
    }
    match git_oauth_entry("credential.h.oauthscopes", "read_repository, write_repository  api") {
        Some((_, GitOAuthField::Scopes(v))) => {
            assert_eq!(v, vec!["read_repository".to_string(), "write_repository".to_string(), "api".to_string()]);
        },
        other => panic!("unexpected {other:?}"),
    }
    match git_oauth_entry("credential.h.oauthscopes", " , ") {
        Some((_, GitOAuthField::Scopes(v))) => assert!(v.is_empty()),
        other => panic!("unexpected {other:?}"),
    }
    assert!(git_oauth_entry("credential.h.oauthcolour", "red").is_none());
}

#[test]
fn scopes_and_flags() {
    assert_eq!(split_scopes("a,b c"), vec!["a".to_string(), "b".to_string(), "c".to_string()]);
    assert!(parse_flag("TRUE"));
    assert!(parse_flag("1"));
    assert!(parse_flag("On"));
    assert!(!parse_flag("no"));
}

#[test]
fn sources_read_their_scopes() {
    let g = git_warden::git_source::GitConfigSource::global();
    assert_eq!(g.scopes(), vec!["--system", "--global"]);
    let r = git_warden::git_source::GitConfigSource::repo();
    assert_eq!(r.scopes(), vec!["--local"]);
}
