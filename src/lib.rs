//! Authorization header values for OAuth 2.0 bearer tokens and for
//! OAuth 1.0a requests signed with HMAC-SHA1.
use vstd::prelude::*;
use vstd::string::*;

pub mod fresh;
pub mod oauth1;
pub mod params;
pub mod percent;
pub mod signing;

pub use oauth1::{calc_oauth_header, calc_oauth_header_with};
pub use percent::encode;

use fresh::{decimal, is_alnum_char, NONCE_LEN};
use oauth1::{header_value, pairs_view};

verus! {

/// `Bearer ` followed by the token as it is.
pub fn oauth2_authorization_header(bearer_token: &str) -> (r: String)
    ensures
        r@ == "Bearer "@ + bearer_token@,
{
    let mut r = String::from_str("Bearer ");
    r.append(bearer_token);
    r
}

/// `OAuth ` followed by the header value signed with the key
/// `consumer_secret&access_token_secret`, with `oauth_token` as the one
/// header-scoped option, a fresh nonce and the current time.
pub fn oauth1_authorization_header(
    consumer_key: &str,
    consumer_secret: &str,
    access_token: &str,
    access_token_secret: &str,
    method: &str,
    uri: &str,
    options: &Vec<(&str, &str)>,
) -> (r: String)
    ensures
        exists|n: Seq<char>, t: i64|
            n.len() == NONCE_LEN && (forall|i: int| 0 <= i < n.len() ==> is_alnum_char(#[trigger] n[i]))
                && r@ == "OAuth "@ + header_value(
                consumer_secret@ + seq!['&'] + access_token_secret@,
                consumer_key@,
                n,
                decimal(t as int),
                seq![("oauth_token"@, access_token@)],
                method@,
                uri@,
                pairs_view(options@),
            ),
{
    let mut key = String::from_str(consumer_secret);
    key.append("&");
    key.append(access_token_secret);
    proof {
        reveal_strlit("&");
    }
    let header_options: Vec<(&str, &str)> = vec![("oauth_token", access_token)];
    proof {
        assert(pairs_view(header_options@) =~= seq![("oauth_token"@, access_token@)]);
        assert(key@ =~= consumer_secret@ + seq!['&'] + access_token_secret@);
    }
    let res = calc_oauth_header(key.as_str(), consumer_key, &header_options, method, uri, options);
    let mut r = String::from_str("OAuth ");
    r.append(res.as_str());
    r
}

} // verus!
