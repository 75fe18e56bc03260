use git_warden::hosts::{HostConfig, Hosts};

fn names(v: &[&str]) -> Vec<String> {
    v.iter().map(|s| s.to_string()).collect()
}

#[test]
fn set_active_on_empty_registry_creates_host() {
    let mut h = Hosts::new();
    assert!(h.is_empty());
    h.set_active_credential("github.com", "alice");
    let all = h.iter_sorted();
    assert_eq!(all.len(), 1);
    assert_eq!(all[0].0, "github.com");
    assert_eq!(all[0].1.active, "alice");
    assert_eq!(all[0].1.credentials, names(&["alice"]));
}

#[test]
fn add_credential_twice_returns_true_then_false() {
    let mut h = Hosts::new();
    h.set_active_credential("github.com", "alice");
    assert!(h.add_credential("github.com", "bob"));
    assert_eq!(h.get_active_credential("github.com").as_deref(), Some("alice"));
    assert!(!h.add_credential("github.com", "bob"));
    assert_eq!(h.get_credentials("github.com"), Some(names(&["alice", "bob"])));
    assert!(h.has_credential("github.com", "bob"));
    assert!(h.has_user("github.com", "alice"));
    assert!(!h.has_credential("gitlab.com", "bob"));
}

#[test]
fn add_credential_to_new_host_makes_it_active() {
    let mut h = Hosts::new();
    assert!(h.add_user("gitlab.com", "carol"));
    assert_eq!(h.get_active_credential("gitlab.com").as_deref(), Some("carol"));
    assert_eq!(h.get_users("gitlab.com"), Some(names(&["carol"])));
}

#[test]
fn removing_active_of_two_promotes_the_other() {
    let mut h = Hosts::new();
    h.set_active_credential("github.com", "alice");
    h.add_credential("github.com", "bob");
    assert!(h.remove_credential("github.com", "alice"));
    assert_eq!(h.get_active_credential("github.com").as_deref(), Some("bob"));
    assert_eq!(h.get_credentials("github.com"), Some(names(&["bob"])));
}

#[test]
fn removing_last_credential_drops_the_host() {
    let mut h = Hosts::new();
    h.set_active_credential("github.com", "alice");
    h.set_active_credential("gitlab.com", "carol");
    assert!(h.remove_user("gitlab.com", "carol"));
    let hosts: Vec<String> = h.iter_sorted().into_iter().map(|(k, _)| k).collect();
    assert_eq!(hosts, names(&["github.com"]));
    assert_eq!(h.get_active_credential("gitlab.com"), None);
    assert!(h.remove_credential("github.com", "alice"));
    assert!(h.is_empty());
}

#[test]
fn removing_unknown_changes_nothing() {
    let mut h = Hosts::new();
    h.set_active_credential("github.com", "alice");
    assert!(!h.remove_credential("github.com", "zed"));
    assert!(!h.remove_credential("nowhere", "alice"));
    assert_eq!(h.get_credentials("github.com"), Some(names(&["alice"])));
}

#[test]
fn removing_inactive_keeps_active() {
    let mut h = Hosts::new();
    h.set_active_credential("github.com", "alice");
    h.add_credential("github.com", "bob");
    h.add_credential("github.com", "carol");
    assert!(h.remove_credential("github.com", "bob"));
    assert_eq!(h.get_active_credential("github.com").as_deref(), Some("alice"));
    assert_eq!(h.get_credentials("github.com"), Some(names(&["alice", "carol"])));
}

#[test]
fn set_active_existing_switches_without_duplicating() {
    let mut h = Hosts::new();
    h.set_active_credential("github.com", "alice");
    h.add_credential("github.com", "bob");
    h.set_active_credential("github.com", "bob");
    assert_eq!(h.get_active_credential("github.com").as_deref(), Some("bob"));
    assert_eq!(h.get_credentials("github.com"), Some(names(&["alice", "bob"])));
    h.set_active_credential("github.com", "dave");
    assert_eq!(h.get_credentials("github.com"), Some(names(&["alice", "bob", "dave"])));
}

#[test]
fn iter_sorted_orders_hosts() {
    let h = Hosts::from_map(vec![
        ("z.example".to_string(), HostConfig { active: "a".into(), credentials: names(&["a"]) }),
        ("a.example".to_string(), HostConfig { active: "b".into(), credentials: names(&["b"]) }),
        ("m.example".to_string(), HostConfig { active: "c".into(), credentials: names(&["c"]) }),
    ]);
    let hosts: Vec<String> = h.iter_sorted().into_iter().map(|(k, _)| k).collect();
    assert_eq!(hosts, names(&["a.example", "m.example", "z.example"]));
    assert_eq!(h.hosts().len(), 3);
    assert!(h.has_host("m.example"));
    assert_eq!(h.into_inner().len(), 3);
}

#[test]
fn default_is_empty_and_get_mut_edits_in_place() {
    let mut h = Hosts::default();
    assert!(h.is_empty());
    assert!(h.get_mut("github.com").is_none());
    h.set_active_credential("github.com", "alice");
    if let Some(cfg) = h.get_mut("github.com") {
        cfg.credentials.push("bob".to_string());
    }
    assert_eq!(h.get_credentials("github.com"), Some(names(&["alice", "bob"])));
}

#[test]
fn emptied_host_is_dropped_even_if_name_was_not_active() {
    let mut h = Hosts::from_map(vec![(
        "odd.example".to_string(),
        HostConfig { active: "ghost".into(), credentials: names(&["real"]) },
    )]);
    assert!(h.remove_credential("odd.example", "real"));
    assert!(!h.has_host("odd.example"));
}
