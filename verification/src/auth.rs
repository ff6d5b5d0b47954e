//! The pure part of vendor authentication: the OAuth endpoints and scopes an
//! account uses, the code a pasted redirect URL carries, and how a refreshed
//! token set is completed.

use vstd::prelude::*;

use crate::accounts::{ResolvedAccount, opt_text};
use crate::config::texts;
use crate::text::{join_path, joined_path, owned, str_equal};
use crate::vendors::AuthMethod;

verus! {

/// Tokens obtained from a successful auth or refresh.
#[derive(Debug, Clone)]
pub struct TokenSet {
    pub access_token: String,
    /// Present after an interactive login (`offline_access` is requested); a
    /// refresh may or may not return a new one.
    pub refresh_token: Option<String>,
    /// Unix seconds when the access token expires, if the server told.
    pub expires_at: Option<i64>,
}

/// What can go wrong before any token request is made.
#[derive(Debug)]
pub enum AuthError {
    /// The account's vendor uses an auth method that is not wired yet.
    VendorNotImplemented { vendor: String, method: AuthMethod },
    /// The account lacks `clientId`, `authority` or `redirectUri`.
    MissingOAuthConfig(String),
    /// No cached login for the account - interactive sign-in required.
    NeedsLogin(String),
    /// The pasted redirect URL has no `?code=` parameter.
    NoAuthCode,
    /// The pasted redirect URL is not a URL.
    Url(url::ParseError),
    /// A token request failed (the message says why).
    Token(String),
}

/// The OAuth client settings derived from an account.
#[derive(Debug, Clone)]
pub struct OAuthConfig {
    pub client_id: String,
    pub auth_url: String,
    pub token_url: String,
    pub redirect_uri: String,
    pub scopes: Vec<String>,
}

/// The scopes an account asks for: its own, plus `offline_access` (needed for a
/// refresh token) when absent.
pub open spec fn requested_scopes(scopes: Seq<Seq<char>>) -> Seq<Seq<char>> {
    if scopes.contains("offline_access"@) { scopes } else { scopes.push("offline_access"@) }
}

/// An OAuth sign-in always asks for `offline_access` (so a refresh token comes
/// back for unattended runs), once, and keeps every scope the account asks for.
pub proof fn law_offline_access_requested(scopes: Seq<Seq<char>>)
    ensures
        requested_scopes(scopes).contains("offline_access"@),
        forall|i: int| 0 <= i < scopes.len() ==> requested_scopes(scopes)[i] == scopes[i],
        scopes.contains("offline_access"@) ==> requested_scopes(scopes) == scopes,
{
    if !scopes.contains("offline_access"@) {
        assert(scopes.push("offline_access"@)[scopes.len() as int] == "offline_access"@);
    }
}

/// The outcome of deriving the OAuth settings of an account.
pub open spec fn oauth_outcome(a: ResolvedAccount, r: Result<OAuthConfig, AuthError>) -> bool {
    if a.auth_method != AuthMethod::Xoauth2Msal {
        r matches Err(AuthError::VendorNotImplemented { vendor, method }) && vendor@ == a.vendor@ && method == a.auth_method
    } else if a.authority is None || a.client_id is None || a.redirect_uri is None {
        r matches Err(AuthError::MissingOAuthConfig(id)) && id@ == a.id@
    } else {
        r matches Ok(c) && {
            &&& c.client_id@ == a.client_id.unwrap()@
            &&& c.auth_url@ == a.authority.unwrap()@ + "/oauth2/v2.0/authorize"@
            &&& c.token_url@ == a.authority.unwrap()@ + "/oauth2/v2.0/token"@
            &&& c.redirect_uri@ == a.redirect_uri.unwrap()@
            &&& texts(c.scopes@) == requested_scopes(texts(a.scopes@))
        }
    }
}

/// The OAuth endpoints and client of an account, or why it has none: only
/// `xoauth2-msal` accounts sign in with OAuth, and they need a client id, an
/// authority and a redirect URI.
pub fn oauth_config(account: &ResolvedAccount) -> (r: Result<OAuthConfig, AuthError>)
    ensures
        oauth_outcome(*account, r),
{
    proof {
        reveal_strlit("offline_access");
    }
    if account.auth_method != AuthMethod::Xoauth2Msal {
        return Err(AuthError::VendorNotImplemented { vendor: account.vendor.clone(), method: account.auth_method });
    }
    let authority = match &account.authority {
        Some(a) => a,
        None => return Err(AuthError::MissingOAuthConfig(account.id.clone())),
    };
    let client_id = match &account.client_id {
        Some(c) => c.clone(),
        None => return Err(AuthError::MissingOAuthConfig(account.id.clone())),
    };
    let redirect_uri = match &account.redirect_uri {
        Some(u) => u.clone(),
        None => return Err(AuthError::MissingOAuthConfig(account.id.clone())),
    };

    // `offline_access` is required to receive a refresh token for unattended runs.
    let mut scopes = account.scopes.clone();
    assert(scopes@ =~= account.scopes@);
    let mut found = false;
    let mut i: usize = 0;
    while i < scopes.len()
        invariant
            scopes@ == account.scopes@,
            i <= scopes.len(),
            found == texts(scopes@).take(i as int).contains("offline_access"@),
        decreases scopes.len() - i,
    {
        assert(texts(scopes@).take(i + 1) =~= texts(scopes@).take(i as int).push(scopes@[i as int]@));
        let hit = str_equal(scopes[i].as_str(), "offline_access");
        proof {
            let o = "offline_access"@;
            let p = texts(scopes@).take(i as int);
            let t = texts(scopes@).take(i + 1);
            assert(t[i as int] == scopes@[i as int]@);
            if p.contains(o) {
                let j = choose|j: int| 0 <= j < p.len() && p[j] == o;
                assert(t[j] == o);
            }
            if hit {
                assert(t.contains(o));
            }
            if t.contains(o) {
                let j = choose|j: int| 0 <= j < t.len() && t[j] == o;
                if j < i {
                    assert(p[j] == o);
                }
            }
        }
        if hit {
            found = true;
        }
        i += 1;
    }
    assert(texts(scopes@).take(scopes.len() as int) =~= texts(scopes@));
    if !found {
        scopes.push(owned("offline_access"));
        assert(texts(scopes@) =~= texts(account.scopes@).push("offline_access"@));
    }
    Ok(OAuthConfig {
        client_id,
        auth_url: authority.clone().concat("/oauth2/v2.0/authorize"),
        token_url: authority.clone().concat("/oauth2/v2.0/token"),
        redirect_uri,
        scopes,
    })
}

/// Where an account's tokens are cached: `<cache_dir>/oauth.json`.
pub fn cache_path(account: &ResolvedAccount) -> (r: String)
    ensures
        r@ == joined_path(account.cache_dir@, "oauth.json"@),
{
    join_path(account.cache_dir.as_str(), "oauth.json")
}

/// The `url` crate's parse error.
#[verifier::external_type_specification]
#[verifier::external_body]
pub struct ExUrlParseError(url::ParseError);

/// The `url` crate's parsed URL.
#[verifier::external_type_specification]
#[verifier::external_body]
pub struct ExUrl(url::Url);

/// Whether `url::Url::parse` accepts the text as an absolute URL.
pub uninterp spec fn url_parses(text: Seq<char>) -> bool;

/// The decoded `key=value` pairs of the query of the URL the text parses to, in
/// order (`url::Url::query_pairs`).
pub uninterp spec fn url_query_pairs(text: Seq<char>) -> Seq<(Seq<char>, Seq<char>)>;

/// A URL together with the text it was parsed from. A value is only made by
/// `ParsedUrl::parse`, so the URL is always that of `text`.
pub struct ParsedUrl {
    text: String,
    url: url::Url,
}

impl ParsedUrl {
    /// The text the URL was parsed from.
    pub closed spec fn text(&self) -> Seq<char> {
        self.text@
    }

    /// Parses an absolute URL with `url::Url::parse`. Claimed: it succeeds exactly
    /// when `url_parses(text)`, and the URL keeps `text`.
    #[verifier::external_body]
    pub fn parse(text: &str) -> (r: Result<ParsedUrl, url::ParseError>)
        ensures
            r is Ok <==> url_parses(text@),
            r matches Ok(u) ==> u.text() == text@,
    {
        match url::Url::parse(text) {
            Ok(url) => Ok(ParsedUrl { text: text.to_string(), url }),
            Err(e) => Err(e),
        }
    }

    /// The decoded query pairs, in order (`url::Url::query_pairs`, owned).
    /// Claimed: they are `url_query_pairs` of the text.
    #[verifier::external_body]
    pub fn query_pairs(&self) -> (r: Vec<(String, String)>)
        ensures
            r@.map_values(|p: (String, String)| (p.0@, p.1@)) == url_query_pairs(self.text()),
    {
        self.url.query_pairs().into_owned().collect()
    }
}

/// The value of the first `code` query pair, if any.
pub open spec fn first_code(pairs: Seq<(Seq<char>, Seq<char>)>) -> Option<Seq<char>>
    decreases pairs.len(),
{
    if pairs.len() == 0 {
        None
    } else if pairs[0].0 == "code"@ {
        Some(pairs[0].1)
    } else {
        first_code(pairs.drop_first())
    }
}

/// The authorization code a pasted redirect URL carries: the value of its first
/// `code` query parameter. A text that is no URL, or a URL without a code, is
/// refused.
pub fn auth_code(redirect_url: &str) -> (r: Result<String, AuthError>)
    ensures
        match r {
            Ok(code) => url_parses(redirect_url@) && first_code(url_query_pairs(redirect_url@)) == Some(code@),
            Err(AuthError::Url(_)) => !url_parses(redirect_url@),
            Err(AuthError::NoAuthCode) => url_parses(redirect_url@) && first_code(url_query_pairs(redirect_url@)) is None,
            Err(_) => false,
        },
{
    proof {
        reveal_strlit("code");
    }
    let url = match ParsedUrl::parse(redirect_url) {
        Ok(u) => u,
        Err(e) => return Err(AuthError::Url(e)),
    };
    let pairs = url.query_pairs();
    let ghost pv = pairs@.map_values(|p: (String, String)| (p.0@, p.1@));
    let mut i: usize = 0;
    assert(pv.skip(0) =~= pv);
    while i < pairs.len()
        invariant
            i <= pairs.len(),
            url_parses(redirect_url@),
            pv == url_query_pairs(redirect_url@),
            pv == pairs@.map_values(|p: (String, String)| (p.0@, p.1@)),
            first_code(pv) == first_code(pv.skip(i as int)),
        decreases pairs.len() - i,
    {
        assert(pv.skip(i as int)[0] == (pairs@[i as int].0@, pairs@[i as int].1@));
        assert(pv.skip(i as int).drop_first() =~= pv.skip(i + 1));
        if str_equal(pairs[i].0.as_str(), "code") {
            assert(first_code(pv.skip(i as int)) == Some(pairs@[i as int].1@));
            return Ok(pairs[i].1.clone());
        }
        i += 1;
    }
    assert(pv.skip(i as int) =~= Seq::<(Seq<char>, Seq<char>)>::empty());
    Err(AuthError::NoAuthCode)
}

/// A refresh response often omits a new refresh token: the old one is kept then.
pub fn keep_refresh_token(set: TokenSet, old_refresh_token: &str) -> (r: TokenSet)
    ensures
        r.access_token == set.access_token,
        r.expires_at == set.expires_at,
        match set.refresh_token {
            Some(t) => r.refresh_token == Some(t),
            None => r.refresh_token matches Some(t) && t@ == old_refresh_token@,
        },
{
    let mut set = set;
    if set.refresh_token.is_none() {
        set.refresh_token = Some(owned(old_refresh_token));
    }
    set
}

/// A lifetime in seconds as a signed number: beyond `i64::MAX` it wraps, as a
/// two's-complement reinterpretation does.
pub open spec fn signed_secs(secs: u64) -> int {
    if secs <= i64::MAX { secs as int } else { secs - 0x1_0000_0000_0000_0000int }
}

/// The token set of a token response: its access token and refresh token, and,
/// when the server gave a lifetime, the Unix time at which it expires (`now`
/// plus the lifetime).
pub fn token_set(access_token: String, refresh_token: Option<String>, expires_in_secs: Option<u64>, now: i64) -> (r: TokenSet)
    requires
        expires_in_secs matches Some(secs) ==> i64::MIN <= now + signed_secs(secs) <= i64::MAX,
    ensures
        r.access_token == access_token,
        r.refresh_token == refresh_token,
        r.expires_at == match expires_in_secs {
            Some(secs) => Some((now + signed_secs(secs)) as i64),
            None => None::<i64>,
        },
{
    let expires_at = match expires_in_secs {
        Some(secs) => {
            let signed: i64 = if secs <= 0x7fff_ffff_ffff_ffffu64 {
                secs as i64
            } else {
                let below: u64 = secs - 0x8000_0000_0000_0000u64;
                (below as i64) - 0x7fff_ffff_ffff_ffffi64 - 1
            };
            Some(now + signed)
        },
        None => None,
    };
    TokenSet { access_token, refresh_token, expires_at }
}

} // verus!
