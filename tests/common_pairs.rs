use git_warden::common::{
    collect_all_pairs, filter_pairs, host_switch_choice, labels_credential_host, labels_host_active,
    sort_pairs, styled_error_line, toggle_choice, Choice, CredentialPair,
};
use git_warden::hosts::{HostConfig, Hosts};

fn hosts_fixture() -> Hosts {
    Hosts::from_map(vec![
        (
            "github.com".to_string(),
            HostConfig {
                active: "alice".into(),
                credentials: vec!["alice".into(), "bob".into()],
            },
        ),
        (
            "gitlab.com".to_string(),
            HostConfig {
                active: "carol".into(),
                credentials: vec!["carol".into()],
            },
        ),
    ])
}

#[test]
fn test_collect_all_pairs() {
    let h = hosts_fixture();
    let mut pairs = collect_all_pairs(&h);
    sort_pairs(&mut pairs);
    assert_eq!(
        pairs,
        vec![
            CredentialPair::new("github.com", "alice"),
            CredentialPair::new("github.com", "bob"),
            CredentialPair::new("gitlab.com", "carol"),
        ]
    );
}

#[test]
fn test_filter_pairs_by_host() {
    let h = hosts_fixture();
    let all = collect_all_pairs(&h);
    let filtered = filter_pairs(&all, Some("github.com"), None);
    assert_eq!(
        filtered,
        vec![
            CredentialPair::new("github.com", "alice"),
            CredentialPair::new("github.com", "bob"),
        ]
    );
}

#[test]
fn test_filter_pairs_by_credential() {
    let h = hosts_fixture();
    let all = collect_all_pairs(&h);
    let filtered = filter_pairs(&all, None, Some("carol"));
    assert_eq!(filtered, vec![CredentialPair::new("gitlab.com", "carol")]);
}

#[test]
fn test_filter_pairs_by_host_and_credential() {
    let h = hosts_fixture();
    let all = collect_all_pairs(&h);
    let filtered = filter_pairs(&all, Some("github.com"), Some("bob"));
    assert_eq!(filtered, vec![CredentialPair::new("github.com", "bob")]);
}

#[test]
fn test_labels() {
    let h = hosts_fixture();
    let mut pairs = collect_all_pairs(&h);
    sort_pairs(&mut pairs);
    let labels = labels_credential_host(&pairs);
    assert!(labels.iter().any(|l| l == "alice (github.com)"));
}

#[test]
fn test_styled_error_line() {
    let line = styled_error_line("Problem happened");
    assert!(
        line.contains("Problem happened"),
        "Styled line missing message: {line}"
    );
}

#[test]
fn styled_error_line_shape() {
    let line = styled_error_line("boom");
    assert!(line.starts_with("  "));
    assert!(line.contains("Error"));
    assert!(line.ends_with(" - boom"));
}

#[test]
fn filter_pairs_without_filters_keeps_all_and_empty_on_miss() {
    let h = hosts_fixture();
    let all = collect_all_pairs(&h);
    assert_eq!(filter_pairs(&all, None, None).len(), 3);
    assert!(filter_pairs(&all, Some("nowhere.example"), None).is_empty());
}

#[test]
fn sort_pairs_orders_by_host_then_credential() {
    let mut pairs = vec![
        CredentialPair::new("b.example", "zed"),
        CredentialPair::new("a.example", "yan"),
        CredentialPair::new("b.example", "amy"),
        CredentialPair::new("a.example", "yan"),
    ];
    sort_pairs(&mut pairs);
    assert_eq!(
        pairs,
        vec![
            CredentialPair::new("a.example", "yan"),
            CredentialPair::new("a.example", "yan"),
            CredentialPair::new("b.example", "amy"),
            CredentialPair::new("b.example", "zed"),
        ]
    );
}

#[test]
fn labels_host_active_shows_active_or_empty() {
    let h = hosts_fixture();
    let pairs = vec![
        CredentialPair::new("github.com", "bob"),
        CredentialPair::new("unknown.example", "x"),
    ];
    let labels = labels_host_active(&pairs, &h);
    assert_eq!(labels, vec!["github.com (alice)".to_string(), "unknown.example ()".to_string()]);
    assert_eq!(CredentialPair::new("h", "c").label_credential_host(), "c (h)");
}

#[test]
fn switch_choices_follow_the_toggle_rule() {
    use_choices();
}

fn use_choices() {
    let two = vec!["alice".to_string(), "bob".to_string()];
    assert_eq!(host_switch_choice(&two, "alice"), Some(Choice::Pick(1)));
    assert_eq!(host_switch_choice(&two, "bob"), Some(Choice::Pick(0)));
    assert_eq!(host_switch_choice(&vec!["x".to_string()], "y"), Some(Choice::Pick(0)));
    assert_eq!(host_switch_choice(&Vec::new(), "y"), None);
    let three = vec!["a".to_string(), "b".to_string(), "c".to_string()];
    assert_eq!(host_switch_choice(&three, "a"), Some(Choice::Ask));
    let h = hosts_fixture();
    let pairs = vec![CredentialPair::new("github.com", "alice"), CredentialPair::new("github.com", "bob")];
    assert_eq!(toggle_choice(&pairs, &h), Some(Choice::Pick(1)));
    let pairs = vec![CredentialPair::new("github.com", "bob"), CredentialPair::new("gitlab.com", "carol")];
    assert_eq!(toggle_choice(&pairs, &h), Some(Choice::Pick(0)));
}
