//! The credential value object: an access secret, an optional refresh
//! secret and an optional expiry instant (seconds since the Unix epoch).
use vstd::prelude::*;
use crate::text::push_char;
use vstd::string::*;

verus! {

/// The characters of an optional string.
pub open spec fn opt_view(o: Option<String>) -> Option<Seq<char>> {
    match o {
        Some(s) => Some(s@),
        None => None,
    }
}

/// A token as seen by contracts: access secret, refresh secret, expiry.
pub type TokenView = (Seq<char>, Option<Seq<char>>, Option<i64>);

/// An OAuth2 token.
pub struct Token {
    access_token: String,
    refresh_token: Option<String>,
    /// Expiry as seconds since the Unix epoch (UTC), if the server gave a lifetime.
    pub expires_at: Option<i64>,
}

impl View for Token {
    type V = TokenView;

    closed spec fn view(&self) -> TokenView {
        (self.access_token@, opt_view(self.refresh_token), self.expires_at)
    }
}

/// Whether a token with this expiry counts as expired at `now`.
pub open spec fn expired_at(expires_at: Option<i64>, now: i64) -> bool {
    match expires_at {
        Some(t) => t < now,
        None => false,
    }
}

/// What `access_token_checked` found.
pub enum CheckedAccess {
    /// The current access secret is still valid.
    Ready(String),
    /// The token has expired and must be refreshed with this refresh secret.
    Refresh(String),
    /// The token has expired and holds no refresh secret.
    NoRefreshToken,
}

/// The outcome of `access_token_checked` on the model.
pub open spec fn checked_outcome(t: TokenView, now: i64) -> (Seq<char>, u8) {
    if !expired_at(t.2, now) {
        (t.0, 0)
    } else {
        match t.1 {
            Some(r) => (r, 1),
            None => (Seq::empty(), 2),
        }
    }
}

/// The model of a `CheckedAccess`: the string it carries and its variant.
pub open spec fn checked_view(c: CheckedAccess) -> (Seq<char>, u8) {
    match c {
        CheckedAccess::Ready(s) => (s@, 0),
        CheckedAccess::Refresh(s) => (s@, 1),
        CheckedAccess::NoRefreshToken => (Seq::empty(), 2),
    }
}

/// The expiry instant of a token issued at `now` with an optional lifetime in seconds.
pub open spec fn expiry_from(now: i64, expires_in: Option<u64>) -> Option<i64> {
    match expires_in {
        Some(d) => Some((now + d) as i64),
        None => None,
    }
}

/// Number of mask characters in a redacted secret.
pub const MASK_LEN: usize = 3;

/// The redacted form of a secret: its first four characters followed by a
/// fixed mask; a secret of at most four characters shows none of them.
pub open spec fn redacted_view(s: Seq<char>) -> Seq<char> {
    let mask = Seq::new(MASK_LEN as nat, |i: int| '*');
    if s.len() > 4 {
        s.subrange(0, 4) + mask
    } else {
        mask
    }
}

impl Token {
    /// A token from its parts.
    pub fn new(access_token: String, refresh_token: Option<String>, expires_at: Option<i64>) -> (r: Token)
        ensures
            r@ == (access_token@, opt_view(refresh_token), expires_at),
    {
        Token { access_token, refresh_token, expires_at }
    }

    /// A token issued at `now` by a grant that reported the given lifetime.
    pub fn from_grant(access_token: String, refresh_token: Option<String>, expires_in: Option<u64>, now: i64) -> (r: Token)
        requires
            expires_in matches Some(d) ==> now + d <= i64::MAX,
        ensures
            r@ == (access_token@, opt_view(refresh_token), expiry_from(now, expires_in)),
    {
        let expires_at = match expires_in {
            Some(d) => Some((now as i128 + d as i128) as i64),
            None => None,
        };
        Token { access_token, refresh_token, expires_at }
    }

    /// The access secret.
    pub fn access_token(&self) -> (r: &str)
        ensures
            r@ == self@.0,
    {
        self.access_token.as_str()
    }

    /// The refresh secret, if any.
    pub fn refresh_token(&self) -> (r: Option<&str>)
        ensures
            r matches Some(s) ==> self@.1 == Some(s@),
            r is None ==> self@.1 is None,
    {
        match &self.refresh_token {
            Some(s) => Some(s.as_str()),
            None => None,
        }
    }

    /// The expiry instant, if any.
    pub fn expiry(&self) -> (r: Option<i64>)
        ensures
            r == self@.2,
    {
        self.expires_at
    }

    /// Whether the token has expired at `now`.
    pub fn is_expired(&self, now: i64) -> (r: bool)
        ensures
            r == expired_at(self@.2, now),
    {
        match self.expires_at {
            Some(t) => t < now,
            None => false,
        }
    }

    /// Returns the access secret if the token has not expired at `now`;
    /// otherwise says what a refresh needs. The token is left unchanged.
    pub fn access_token_checked(&self, now: i64) -> (r: CheckedAccess)
        ensures
            checked_view(r) == checked_outcome(self@, now),
    {
        if self.is_expired(now) {
            match &self.refresh_token {
                Some(rt) => CheckedAccess::Refresh(rt.clone()),
                None => CheckedAccess::NoRefreshToken,
            }
        } else {
            CheckedAccess::Ready(self.access_token.clone())
        }
    }

    /// Replaces every field with those of a refreshed token and returns the
    /// new access secret.
    pub fn install_refreshed(&mut self, fresh: Token) -> (r: String)
        ensures
            final(self)@ == fresh@,
            r@ == fresh@.0,
    {
        *self = fresh;
        self.access_token.clone()
    }

    /// The refresh secret that a refresh grant sends, or `None` when the
    /// token has none to offer.
    pub fn refresh_grant(&self) -> (r: Option<String>)
        ensures
            opt_view(r) == self@.1,
    {
        match &self.refresh_token {
            Some(s) => Some(s.clone()),
            None => None,
        }
    }

    /// The access secret redacted for display: at most its first four
    /// characters, then a fixed mask.
    pub fn redacted(&self) -> (r: String)
        ensures
            r@ == redacted_view(self@.0),
    {
        let s = self.access_token.as_str();
        let n = s.unicode_len();
        let mut out = String::new();
        if n > 4 {
            let mut i: usize = 0;
            while i < 4
                invariant
                    n == s@.len(),
                    n > 4,
                    i <= 4,
                    out@ == s@.subrange(0, i as int),
                decreases 4 - i,
            {
                push_char(&mut out, s.get_char(i));
                assert(s@.subrange(0, i + 1) == s@.subrange(0, i as int).push(s@[i as int]));
                i = i + 1;
            }
        }
        let ghost head = out@;
        let mut j: usize = 0;
        while j < MASK_LEN
            invariant
                j <= MASK_LEN,
                out@ == head + Seq::new(j as nat, |k: int| '*'),
            decreases MASK_LEN - j,
        {
            push_char(&mut out, '*');
            assert(Seq::new((j + 1) as nat, |k: int| '*') =~= Seq::new(j as nat, |k: int| '*').push('*'));
            j = j + 1;
        }
        proof {
            if n <= 4 {
                assert(head =~= Seq::<char>::empty());
            }
            assert(out@ =~= redacted_view(s@));
        }
        out
    }
}

/// A token whose expiry lies ahead of two consecutive checks needs no
/// refresh at either of them: both hand back its current access secret.
pub proof fn lemma_checked_twice_without_refresh(t: TokenView, first: i64, second: i64)
    requires
        first <= second,
        !expired_at(t.2, second),
    ensures
        checked_outcome(t, first) == (t.0, 0u8),
        checked_outcome(t, second) == (t.0, 0u8),
{
}

} // verus!
