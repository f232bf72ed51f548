//! The values that make each signature fresh: a random nonce and the time.
use vstd::prelude::*;
use vstd::string::*;

verus! {

/// The alphabet that nonces are drawn from.
pub const BASE_STR: &'static str = "ABCDEFGHIJKLMNOPQRSTUVWXYZabcdefghijklmnopqrstuvwxyz0123456789";

/// The number of characters in a nonce.
pub const NONCE_LEN: usize = 32;

/// An ASCII letter or digit.
pub open spec fn is_alnum_char(c: char) -> bool {
    ('0' <= c <= '9') || ('A' <= c <= 'Z') || ('a' <= c <= 'z')
}

/// Decimal digits of a natural number, most significant first.
pub open spec fn decimal_digits(n: nat) -> Seq<char>
    decreases n,
{
    if n < 10 {
        seq![((0x30 + n) as u8) as char]
    } else {
        decimal_digits(n / 10) + seq![((0x30 + n % 10) as u8) as char]
    }
}

/// Decimal text of an integer, with a leading `-` when it is negative.
pub open spec fn decimal(n: int) -> Seq<char> {
    if n < 0 {
        seq!['-'] + decimal_digits((-n) as nat)
    } else {
        decimal_digits(n as nat)
    }
}

/// Relies on rand's SliceRandom::choose_multiple over thread_rng: `amount`
/// bytes of `alphabet` (all of them if it has fewer), at random positions,
/// no position twice.
#[verifier::external_body]
fn choose_chars(alphabet: &str, amount: usize) -> (r: String)
    requires
        alphabet.is_ascii(),
    ensures
        r@.len() == if amount < alphabet@.len() { amount as int } else { alphabet@.len() as int },
        r@.to_multiset().subset_of(alphabet@.to_multiset()),
{
    let mut rng = rand::thread_rng();
    let picked = rand::seq::SliceRandom::choose_multiple(alphabet.as_bytes(), &mut rng, amount);
    String::from_utf8(picked.cloned().collect()).unwrap()
}

/// Relies on chrono's `Utc::now().timestamp()`: the current Unix time in seconds.
#[verifier::external_body]
fn unix_seconds() -> (r: i64) {
    chrono::Utc::now().timestamp()
}

/// Relies on std's `Display` for `i64`: decimal digits, `-` before a negative value.
#[verifier::external_body]
fn decimal_text(n: i64) -> (r: String)
    ensures
        r@ == decimal(n as int),
{
    n.to_string()
}

/// A fresh nonce: letters and digits drawn at random from `BASE_STR`.
pub fn nonce() -> (r: String)
    ensures
        r@.len() == NONCE_LEN,
        forall|i: int| 0 <= i < r@.len() ==> is_alnum_char(#[trigger] r@[i]),
{
    proof {
        reveal_strlit("ABCDEFGHIJKLMNOPQRSTUVWXYZabcdefghijklmnopqrstuvwxyz0123456789");
    }
    assert(BASE_STR@.len() == 62);
    assert forall|k: int| 0 <= k < BASE_STR@.len() implies is_alnum_char(#[trigger] BASE_STR@[k])
        && BASE_STR@[k] <= '\u{7f}' by {}
    let r = choose_chars(BASE_STR, NONCE_LEN);
    proof {
        broadcast use vstd::seq_lib::group_to_multiset_ensures;
        assert forall|i: int| 0 <= i < r@.len() implies is_alnum_char(#[trigger] r@[i]) by {
            assert(r@.contains(r@[i]));
            assert(r@.to_multiset().count(r@[i]) > 0);
            assert(BASE_STR@.to_multiset().count(r@[i]) > 0);
            assert(BASE_STR@.contains(r@[i]));
        }
    }
    r
}

/// The current Unix time in seconds, as decimal text.
pub fn timestamp() -> (r: String)
    ensures
        exists|t: i64| r@ == decimal(t as int),
{
    let t = unix_seconds();
    decimal_text(t)
}

} // verus!
