//! OAuth 1.0a header values: the protocol parameters, the signature base
//! string, and the rendered `name=value, ...` list.
use vstd::prelude::*;
use vstd::string::*;

use crate::fresh::{decimal, is_alnum_char, nonce, timestamp, NONCE_LEN};
use crate::params::{joined, make_query, params_view, sort_params, sorted_params, ParamView};
use crate::percent::{encode, percent_text};
use crate::signing::{sign, signature};

verus! {

/// Caller-supplied pairs seen as texts.
pub open spec fn pairs_view<'a>(ps: Seq<(&'a str, &'a str)>) -> Seq<ParamView> {
    ps.map_values(|p: (&'a str, &'a str)| (p.0@, p.1@))
}

/// The pairs with each value percent-encoded; names are kept as given.
pub open spec fn encode_values(ps: Seq<ParamView>) -> Seq<ParamView> {
    ps.map_values(|p: ParamView| (p.0, percent_text(p.1)))
}

/// The protocol parameters, in this order: consumer key, nonce, signature
/// method, timestamp, version, then the header-scoped options; every value
/// percent-encoded.
pub open spec fn protocol_params(
    consumer_key: Seq<char>,
    nonce: Seq<char>,
    timestamp: Seq<char>,
    header_options: Seq<ParamView>,
) -> Seq<ParamView> {
    seq![
        ("oauth_consumer_key"@, percent_text(consumer_key)),
        ("oauth_nonce"@, percent_text(nonce)),
        ("oauth_signature_method"@, percent_text("HMAC-SHA1"@)),
        ("oauth_timestamp"@, percent_text(timestamp)),
        ("oauth_version"@, percent_text("1.0"@)),
    ] + encode_values(header_options)
}

/// `METHOD&encoded(uri)&encoded(parameters)`.
pub open spec fn base_string(method: Seq<char>, uri: Seq<char>, parameters: Seq<char>) -> Seq<
    char,
> {
    method + seq!['&'] + percent_text(uri) + seq!['&'] + percent_text(parameters)
}

/// The normalized parameter string: canonical order, joined by `&`.
pub open spec fn normalized(ps: Seq<ParamView>) -> Seq<char> {
    joined(sorted_params(ps), "&"@)
}

/// The header value for a given nonce and timestamp: the protocol parameters
/// followed by `oauth_signature`, joined by `, `.
pub open spec fn header_value(
    sign_key: Seq<char>,
    consumer_key: Seq<char>,
    nonce: Seq<char>,
    timestamp: Seq<char>,
    header_options: Seq<ParamView>,
    method: Seq<char>,
    uri: Seq<char>,
    options: Seq<ParamView>,
) -> Seq<char> {
    let protocol = protocol_params(consumer_key, nonce, timestamp, header_options);
    let base = base_string(method, uri, normalized(protocol + encode_values(options)));
    joined(
        protocol.push(("oauth_signature"@, percent_text(signature(base, sign_key)))),
        ", "@,
    )
}

/// Signing is deterministic once the nonce and timestamp are fixed: two
/// header values computed from the same inputs are the same text.
pub proof fn lemma_header_value_deterministic(
    sign_key: Seq<char>,
    consumer_key: Seq<char>,
    nonce: Seq<char>,
    timestamp: Seq<char>,
    header_options: Seq<ParamView>,
    method: Seq<char>,
    uri: Seq<char>,
    options: Seq<ParamView>,
    first: Seq<char>,
    second: Seq<char>,
)
    requires
        first == header_value(sign_key, consumer_key, nonce, timestamp, header_options, method, uri, options),
        second == header_value(sign_key, consumer_key, nonce, timestamp, header_options, method, uri, options),
    ensures
        first == second,
{
}

fn push_encoded(list: &mut Vec<(String, String)>, name: &str, value: &str)
    ensures
        params_view(final(list)@) == params_view(old(list)@).push((name@, percent_text(value@))),
{
    let ghost before = list@;
    list.push((String::from_str(name), encode(value)));
    proof {
        assert(params_view(list@) =~= params_view(before).push((name@, percent_text(value@))));
    }
}

fn push_all_encoded(list: &mut Vec<(String, String)>, pairs: &Vec<(&str, &str)>)
    ensures
        params_view(final(list)@) == params_view(old(list)@) + encode_values(pairs_view(pairs@)),
{
    let ghost start = params_view(list@);
    let ghost all = encode_values(pairs_view(pairs@));
    let mut i: usize = 0;
    proof {
        assert(start + all.subrange(0, 0) =~= start);
    }
    while i < pairs.len()
        invariant
            i <= pairs@.len(),
            all == encode_values(pairs_view(pairs@)),
            params_view(list@) == start + all.subrange(0, i as int),
        decreases pairs@.len() - i,
    {
        let pair = pairs[i];
        push_encoded(list, pair.0, pair.1);
        proof {
            assert(start + all.subrange(0, i + 1) =~= (start + all.subrange(0, i as int)).push(
                all[i as int],
            ));
        }
        i = i + 1;
    }
    proof {
        assert(all.subrange(0, i as int) =~= all);
    }
}

fn clone_params(list: &Vec<(String, String)>) -> (r: Vec<(String, String)>)
    ensures
        params_view(r@) == params_view(list@),
{
    let mut out: Vec<(String, String)> = Vec::new();
    let mut i: usize = 0;
    while i < list.len()
        invariant
            i <= list@.len(),
            params_view(out@) == params_view(list@).subrange(0, i as int),
        decreases list@.len() - i,
    {
        let ghost before = out@;
        out.push((list[i].0.clone(), list[i].1.clone()));
        proof {
            assert(params_view(out@) =~= params_view(before).push(params_view(list@)[i as int]));
            assert(params_view(list@).subrange(0, i + 1) =~= params_view(list@).subrange(
                0,
                i as int,
            ).push(params_view(list@)[i as int]));
        }
        i = i + 1;
    }
    proof {
        assert(params_view(list@).subrange(0, i as int) =~= params_view(list@));
    }
    out
}

/// The normalized parameter string of the already-encoded protocol
/// parameters and the caller's request parameters, whose values it encodes.
pub fn normalized_parameters(protocol: &Vec<(String, String)>, options: &Vec<(&str, &str)>) -> (r:
    String)
    ensures
        r@ == normalized(params_view(protocol@) + encode_values(pairs_view(options@))),
{
    let mut all = clone_params(protocol);
    push_all_encoded(&mut all, options);
    let all = sort_params(all);
    make_query(&all, "&")
}

/// The header value (without the `OAuth ` prefix) for the given nonce and
/// timestamp. The result depends on its arguments alone.
pub fn calc_oauth_header_with(
    sign_key: &str,
    consumer_key: &str,
    nonce: &str,
    timestamp: &str,
    header_options: &Vec<(&str, &str)>,
    method: &str,
    uri: &str,
    options: &Vec<(&str, &str)>,
) -> (r: String)
    ensures
        r@ == header_value(
            sign_key@,
            consumer_key@,
            nonce@,
            timestamp@,
            pairs_view(header_options@),
            method@,
            uri@,
            pairs_view(options@),
        ),
{
    let ghost protocol = protocol_params(consumer_key@, nonce@, timestamp@, pairs_view(header_options@));
    let mut param0: Vec<(String, String)> = Vec::new();
    push_encoded(&mut param0, "oauth_consumer_key", consumer_key);
    push_encoded(&mut param0, "oauth_nonce", nonce);
    push_encoded(&mut param0, "oauth_signature_method", "HMAC-SHA1");
    push_encoded(&mut param0, "oauth_timestamp", timestamp);
    push_encoded(&mut param0, "oauth_version", "1.0");
    push_all_encoded(&mut param0, header_options);
    proof {
        assert(params_view(param0@) =~= protocol);
    }
    let parameter = normalized_parameters(&param0, options);
    let mut base = String::from_str(method);
    base.append("&");
    base.append(encode(uri).as_str());
    base.append("&");
    base.append(encode(parameter.as_str()).as_str());
    proof {
        reveal_strlit("&");
        assert(base@ =~= base_string(
            method@,
            uri@,
            normalized(protocol + encode_values(pairs_view(options@))),
        ));
    }
    let signed = sign(base.as_str(), sign_key);
    let mut param2 = param0;
    push_encoded(&mut param2, "oauth_signature", signed.as_str());
    make_query(&param2, ", ")
}

/// The header value (without the `OAuth ` prefix), with a fresh nonce and the
/// current time: it is `header_value` for some 32-character alphanumeric
/// nonce and the decimal text of some Unix time.
pub fn calc_oauth_header(
    sign_key: &str,
    consumer_key: &str,
    header_options: &Vec<(&str, &str)>,
    method: &str,
    uri: &str,
    options: &Vec<(&str, &str)>,
) -> (r: String)
    ensures
        exists|n: Seq<char>, t: i64|
            n.len() == NONCE_LEN && (forall|i: int| 0 <= i < n.len() ==> is_alnum_char(#[trigger] n[i]))
                && r@ == header_value(
                sign_key@,
                consumer_key@,
                n,
                decimal(t as int),
                pairs_view(header_options@),
                method@,
                uri@,
                pairs_view(options@),
            ),
{
    let n = nonce();
    let t = timestamp();
    calc_oauth_header_with(sign_key, consumer_key, n.as_str(), t.as_str(), header_options, method, uri, options)
}

} // verus!
