use oauth_header::fresh::{nonce, timestamp, BASE_STR};
use oauth_header::oauth1::normalized_parameters;
use oauth_header::params::{make_query, sort_params};
use oauth_header::signing::sign;
use oauth_header::{
    calc_oauth_header, calc_oauth_header_with, encode, oauth1_authorization_header,
    oauth2_authorization_header,
};

fn owned(pairs: &[(&str, &str)]) -> Vec<(String, String)> {
    pairs.iter().map(|(a, b)| (a.to_string(), b.to_string())).collect()
}

#[test]
fn it_oauth2_authorization_header() {
    assert_eq!("Bearer abc", oauth2_authorization_header("abc"));
    println!(
        "{}",
        oauth1_authorization_header("a", "b", "c", "d", "GET", "http://localhost", &vec![])
    );
}

#[test]
fn bearer_header_keeps_token_verbatim() {
    assert_eq!(oauth2_authorization_header("a b&c=%"), "Bearer a b&c=%");
    assert_eq!(oauth2_authorization_header(""), "Bearer ");
}

#[test]
fn encode_reserved_characters() {
    assert_eq!(encode(" "), "%20");
    assert_eq!(encode("*"), "%2A");
    assert_eq!(encode("~"), "~");
    assert_eq!(encode("A"), "A");
    assert_eq!(encode(""), "");
    assert_eq!(encode("+"), "%2B");
    assert_eq!(encode("%7E"), "%257E");
    assert_eq!(encode("-._"), "-._");
    assert_eq!(encode(" *~A/é"), "%20%2A~A%2F%C3%A9");
    assert_eq!(encode("http://localhost"), "http%3A%2F%2Flocalhost");
}

#[test]
fn encode_output_alphabet() {
    let s = encode("x y*z~!@#$^&()[]{}<>?/\\|\"'`é€\u{1F600}\n\t");
    assert!(s.chars().all(|c| c.is_ascii_alphanumeric() || "-._~%".contains(c)));
}

#[test]
fn normalizer_sorts_by_name() {
    let r = normalized_parameters(&vec![], &vec![("b", "2"), ("a", "1")]);
    assert_eq!(r, "a=1&b=2");
    assert_eq!(normalized_parameters(&vec![], &vec![]), "");
    assert_eq!(normalized_parameters(&vec![], &vec![("k", "v w")]), "k=v%20w");
}

#[test]
fn normalizer_orders_equal_names_by_value() {
    let r = normalized_parameters(&vec![], &vec![("a", "2"), ("a", "1")]);
    assert_eq!(r, "a=1&a=2");
}

#[test]
fn normalizer_merges_protocol_and_request_parameters() {
    let protocol = owned(&[("oauth_nonce", "N"), ("c", "3")]);
    let r = normalized_parameters(&protocol, &vec![("b", "x y"), ("oauth_a", "1")]);
    assert_eq!(r, "b=x%20y&c=3&oauth_a=1&oauth_nonce=N");
}

#[test]
fn sort_and_query_rendering() {
    let sorted = sort_params(owned(&[("b", "1"), ("ab", "2"), ("a", "9"), ("a", "10")]));
    assert_eq!(sorted, owned(&[("a", "10"), ("a", "9"), ("ab", "2"), ("b", "1")]));
    assert_eq!(make_query(&sorted, ", "), "a=10, a=9, ab=2, b=1");
    assert_eq!(make_query(&owned(&[("x", "")]), "&"), "x=");
    assert_eq!(make_query(&vec![], "&"), "");
}

#[test]
fn signature_of_base_string() {
    let base = "GET&http%3A%2F%2Flocalhost&oauth_consumer_key%3Da%26oauth_nonce%3DN%26oauth_signature_method%3DHMAC-SHA1%26oauth_timestamp%3D1700000000%26oauth_version%3D1.0";
    assert_eq!(sign(base, "b&d"), "I8EPPhiRa059PRnLM4KGJoKuEXU=");
    assert_ne!(sign(base, "b&e"), sign(base, "b&d"));
}

#[test]
fn signature_with_fixed_nonce_and_timestamp() {
    let r = calc_oauth_header_with(
        "b&d",
        "a",
        "N",
        "1700000000",
        &vec![],
        "GET",
        "http://localhost",
        &vec![],
    );
    assert_eq!(
        r,
        "oauth_consumer_key=a, oauth_nonce=N, oauth_signature_method=HMAC-SHA1, oauth_timestamp=1700000000, oauth_version=1.0, oauth_signature=I8EPPhiRa059PRnLM4KGJoKuEXU%3D"
    );
}

#[test]
fn signature_with_token_and_request_parameters() {
    let r = calc_oauth_header_with(
        "b&d",
        "a",
        "N",
        "1700000000",
        &vec![("oauth_token", "c")],
        "GET",
        "http://localhost",
        &vec![("b", "2"), ("a", "1")],
    );
    assert_eq!(
        r,
        "oauth_consumer_key=a, oauth_nonce=N, oauth_signature_method=HMAC-SHA1, oauth_timestamp=1700000000, oauth_version=1.0, oauth_token=c, oauth_signature=IhazLSgfFW6XTxj7t0A472TAsU4%3D"
    );
}

#[test]
fn signing_twice_gives_same_output() {
    let opts = vec![("q", "a b"), ("p", "*")];
    let one = calc_oauth_header_with("k&s", "ck", "N", "1", &vec![], "POST", "https://h/x", &opts);
    let two = calc_oauth_header_with("k&s", "ck", "N", "1", &vec![], "POST", "https://h/x", &opts);
    assert_eq!(one, two);
}

#[test]
fn oauth1_header_shape() {
    let r = oauth1_authorization_header("a", "b", "c", "d", "GET", "http://localhost", &vec![]);
    assert!(r.starts_with("OAuth oauth_consumer_key=a, oauth_nonce="));
    assert!(r.contains("oauth_signature_method=HMAC-SHA1"));
    assert!(r.contains("oauth_version=1.0"));
    assert!(r.contains("oauth_token=c"));
    assert_eq!(r.matches("oauth_signature=").count(), 1);
    let last = r.rsplit(", ").next().unwrap();
    assert!(last.starts_with("oauth_signature="));
}

#[test]
fn calc_header_without_prefix() {
    let r = calc_oauth_header("b&d", "a", &vec![], "GET", "http://localhost", &vec![]);
    assert!(r.starts_with("oauth_consumer_key=a, oauth_nonce="));
    assert!(!r.starts_with("OAuth "));
}

#[test]
fn nonce_is_alphanumeric_without_repeats() {
    let n = nonce();
    assert_eq!(n.len(), 32);
    assert!(n.chars().all(|c| BASE_STR.contains(c)));
    let mut seen: Vec<char> = n.chars().collect();
    seen.sort();
    seen.dedup();
    assert_eq!(seen.len(), 32);
}

#[test]
fn timestamp_is_current_unix_seconds() {
    let t = timestamp();
    assert!(t.chars().all(|c| c.is_ascii_digit()));
    let v: i64 = t.parse().unwrap();
    assert!(v > 1_600_000_000);
}
