//! How a (credential, host) pair addresses the OS secret vault, and what
//! the vault's answers mean.
use vstd::prelude::*;
use vstd::string::*;
use crate::error::AuthError;
use crate::text::owned;

verus! {

/// The application name that prefixes every vault service name.
pub open spec fn app_name() -> Seq<char> {
    "git-warden"@
}

/// Where one secret lives in the vault.
pub struct SecretKey {
    /// The vault service: the application name, a colon and the host.
    pub service: String,
    /// The vault account: the credential name.
    pub account: String,
}

/// The vault address of a (credential, host) pair.
pub open spec fn key_of(credential: Seq<char>, host: Seq<char>) -> (Seq<char>, Seq<char>) {
    (app_name() + ":"@ + host, credential)
}

/// The vault address of the secret of `credential` on `host`.
pub fn get_entry(credential: &str, host: &str) -> (r: SecretKey)
    ensures
        (r.service@, r.account@) == key_of(credential@, host@),
{
    let mut service = owned("git-warden:");
    service.append(host);
    proof {
        reveal_strlit("git-warden:");
        reveal_strlit("git-warden");
        reveal_strlit(":");
        assert(service@ =~= app_name() + ":"@ + host@);
    }
    SecretKey { service, account: owned(credential) }
}

/// Two different (credential, host) pairs never share a vault address.
pub proof fn lemma_keys_collision_free(c1: Seq<char>, h1: Seq<char>, c2: Seq<char>, h2: Seq<char>)
    requires
        key_of(c1, h1) == key_of(c2, h2),
    ensures
        c1 == c2,
        h1 == h2,
{
    let p = app_name() + ":"@;
    assert(key_of(c1, h1).0 =~= p + h1);
    assert(key_of(c2, h2).0 =~= p + h2);
    assert(h1 =~= (p + h1).subrange(p.len() as int, (p + h1).len() as int));
    assert(h2 =~= (p + h2).subrange(p.len() as int, (p + h2).len() as int));
}

/// The label shown for a stored secret: `git-warden:credential@host`.
pub fn entry_label(credential: &str, host: &str) -> (r: String)
    ensures
        r@ == app_name() + ":"@ + credential@ + "@"@ + host@,
{
    let mut s = owned("git-warden:");
    s.append(credential);
    s.append("@");
    s.append(host);
    proof {
        reveal_strlit("git-warden:");
        reveal_strlit("git-warden");
        reveal_strlit(":");
        assert(s@ =~= app_name() + ":"@ + credential@ + "@"@ + host@);
    }
    s
}

/// How a vault operation failed.
pub enum VaultFailure {
    /// No secret is stored under the address.
    NoEntry,
    /// Any other failure, with its message.
    Other(String),
}

/// What a failed read means: a missing secret is `NotFound`, which callers
/// treat as a reason to log in; anything else is a storage failure.
pub fn get_failure(f: VaultFailure) -> (r: AuthError)
    ensures
        f is NoEntry ==> r is NotFound,
        f matches VaultFailure::Other(m) ==> r == AuthError::StoreError(m),
{
    match f {
        VaultFailure::NoEntry => AuthError::NotFound,
        VaultFailure::Other(m) => AuthError::StoreError(m),
    }
}

/// What a failed erase means: erasing a missing secret succeeds.
pub fn erase_failure(f: VaultFailure) -> (r: Result<(), AuthError>)
    ensures
        r is Ok <==> f is NoEntry,
        f matches VaultFailure::Other(m) ==> r == Err::<(), AuthError>(AuthError::StoreError(m)),
{
    match f {
        VaultFailure::NoEntry => Ok(()),
        VaultFailure::Other(m) => Err(AuthError::StoreError(m)),
    }
}

} // verus!
