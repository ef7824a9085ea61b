//! The media host's access token, cached until shortly before it expires.

use vstd::prelude::*;
use crate::models::WechatTokenResponse;
use crate::text::{chars_of, push_range};

verus! {

/// How long, in seconds, a token is served: the lifetime the host states (7200
/// where it states none, at least 60), less a margin of 60.
pub open spec fn token_validity(expires_in: Option<i64>) -> nat {
    let stated: int = match expires_in {
        Some(e) => e as int,
        None => 7200,
    };
    if stated < 60 {
        0
    } else {
        (stated - 60) as nat
    }
}

/// The moment, in milliseconds, until which a token fetched at `now` is served.
pub open spec fn expiry_of(now: u64, valid_secs: nat) -> u64 {
    if now + valid_secs * 1000 > u64::MAX {
        u64::MAX
    } else {
        (now + valid_secs * 1000) as u64
    }
}

/// The served lifetime of a token, as `token_validity` states.
pub fn token_validity_secs(expires_in: Option<i64>) -> (r: u64)
    ensures
        r as nat == token_validity(expires_in),
{
    let stated: i64 = match expires_in {
        Some(e) => e,
        None => 7200,
    };
    if stated < 60 {
        0
    } else {
        (stated - 60) as u64
    }
}

/// A token and the moment, in milliseconds, from which it is no longer served.
#[derive(Clone, Debug, PartialEq, Eq)]
pub struct CachedToken {
    pub access_token: String,
    pub expires_at: u64,
}

/// The one access token of a process, refreshed when absent or expired.
#[derive(Debug)]
pub struct TokenCache {
    entry: Option<CachedToken>,
}

impl TokenCache {
    /// The cached token and its expiry, if any.
    pub closed spec fn entry(&self) -> Option<(Seq<char>, u64)> {
        match self.entry {
            Some(c) => Some((c.access_token@, c.expires_at)),
            None => None,
        }
    }

    /// The token served at `now`: the cached one while `now` is before its expiry.
    pub open spec fn lookup(&self, now: u64) -> Option<Seq<char>> {
        match self.entry() {
            Some((t, at)) => if now < at {
                Some(t)
            } else {
                None
            },
            None => None,
        }
    }

    /// An empty cache.
    pub fn new() -> (r: TokenCache)
        ensures
            r.entry() is None,
    {
        TokenCache { entry: None }
    }

    /// The token to serve at `now`, or `None` where a fresh one must be fetched.
    pub fn cached_token(&self, now: u64) -> (r: Option<String>)
        ensures
            match r {
                Some(t) => self.lookup(now) == Some(t@),
                None => self.lookup(now) is None,
            },
    {
        match &self.entry {
            Some(c) => if now < c.expires_at {
                Some(c.access_token.clone())
            } else {
                None
            },
            None => None,
        }
    }

    /// Replaces the cached entry with `token`, fetched at `now` and served for
    /// `valid_secs` seconds.
    pub fn store(&mut self, token: String, now: u64, valid_secs: u64)
        ensures
            final(self).entry() == Some((token@, expiry_of(now, valid_secs as nat))),
    {
        let at: u128 = (now as u128) + (valid_secs as u128) * 1000;
        let expires_at: u64 = if at > u64::MAX as u128 {
            u64::MAX
        } else {
            at as u64
        };
        self.entry = Some(CachedToken { access_token: token, expires_at });
    }
}

/// A token stored at `fetched_at` with the lifetime `expires_in` is served
/// exactly while fewer than `max(expires_in, 60) - 60` seconds have passed.
pub proof fn lemma_token_served_until_margin(
    cache: TokenCache,
    token: Seq<char>,
    fetched_at: u64,
    expires_in: Option<i64>,
    now: u64,
)
    requires
        cache.entry() == Some((token, expiry_of(fetched_at, token_validity(expires_in)))),
        fetched_at <= now,
        fetched_at + token_validity(expires_in) * 1000 <= u64::MAX,
    ensures
        cache.lookup(now) is Some <==> now - fetched_at < token_validity(expires_in) * 1000,
        cache.lookup(now) is Some ==> cache.lookup(now) == Some(token),
{
}

/// Why a token could not be had.
#[derive(Clone, Debug, PartialEq, Eq)]
pub enum TokenError {
    /// The host answered with an error code other than 0.
    Host { code: i32, message: String },
    /// The host's answer has no token.
    MissingToken,
}

/// Checks the host's answer to a token request: the token and how many seconds
/// to serve it, or why there is none.
pub fn check_token_response(response: WechatTokenResponse) -> (r: Result<(String, u64), TokenError>)
    ensures
        match response.errcode {
            Some(c) if c != 0 => r matches Err(TokenError::Host { code, message }) && code == c
                && message@ == match response.errmsg {
                Some(m) => m@,
                None => Seq::empty(),
            },
            _ => match response.access_token {
                Some(t) => r matches Ok((tok, secs)) && tok@ == t@ && secs as nat
                    == token_validity(response.expires_in),
                None => r matches Err(TokenError::MissingToken),
            },
        },
{
    if let Some(code) = response.errcode {
        if code != 0 {
            let message = match response.errmsg {
                Some(m) => m,
                None => String::new(),
            };
            return Err(TokenError::Host { code, message });
        }
    }
    match response.access_token {
        Some(t) => Ok((t, token_validity_secs(response.expires_in))),
        None => Err(TokenError::MissingToken),
    }
}

/// What a diagnostic shows of a token: one of more than 12 characters as its
/// first 6 and last 4 around `...`, a shorter one whole.
pub open spec fn preview_of(t: Seq<char>) -> Seq<char> {
    if t.len() > 12 {
        t.subrange(0, 6) + "..."@ + t.subrange(t.len() - 4, t.len() as int)
    } else {
        t
    }
}

/// A short preview of `token`, as `preview_of` states.
pub fn token_preview(token: &str) -> (r: String)
    ensures
        r@ == preview_of(token@),
{
    let v = chars_of(token);
    let mut r = String::new();
    if v.len() > 12 {
        push_range(&mut r, &v, 0, 6);
        r.append("...");
        push_range(&mut r, &v, v.len() - 4, v.len());
    } else {
        push_range(&mut r, &v, 0, v.len());
        proof {
            assert(v@.subrange(0, v@.len() as int) =~= v@);
        }
    }
    r
}

} // verus!
