use git_warden::error::AuthError;
use git_warden::secret_store::{entry_label, erase_failure, get_entry, get_failure, VaultFailure};

#[test]
fn vault_addresses_keep_pairs_apart() {
    let a = get_entry("alice", "github.com");
    assert_eq!(a.service, "git-warden:github.com");
    assert_eq!(a.account, "alice");
    let b = get_entry("alice", "gitlab.com");
    assert_ne!(a.service, b.service);
    assert_eq!(entry_label("alice", "github.com"), "git-warden:alice@github.com");
}

#[test]
fn missing_secret_is_not_found_and_erase_is_idempotent() {
    assert!(matches!(get_failure(VaultFailure::NoEntry), AuthError::NotFound));
    assert!(matches!(get_failure(VaultFailure::Other("x".into())), AuthError::StoreError(_)));
    assert!(erase_failure(VaultFailure::NoEntry).is_ok());
    assert!(erase_failure(VaultFailure::Other("locked".into())).is_err());
}
