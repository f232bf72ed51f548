//! Named parameters: their canonical order, sorting, and rendering as
//! `name=value` pairs joined by a separator.
use vstd::prelude::*;
use vstd::multiset::Multiset;
use vstd::string::*;
use vstd::utf8::*;

verus! {

broadcast use vstd::seq_lib::group_to_multiset_ensures;

/// A parameter seen as its name and value text.
pub type ParamView = (Seq<char>, Seq<char>);

pub open spec fn param_view(p: (String, String)) -> ParamView {
    (p.0@, p.1@)
}

pub open spec fn params_view(ps: Seq<(String, String)>) -> Seq<ParamView> {
    ps.map_values(|p: (String, String)| param_view(p))
}

/// Byte-wise lexicographic order: `a` is a proper prefix of `b`, or `a` is
/// smaller at the first byte where they differ.
pub open spec fn bytes_lt(a: Seq<u8>, b: Seq<u8>) -> bool
    decreases a.len(),
{
    if a.len() == 0 {
        b.len() > 0
    } else if b.len() == 0 {
        false
    } else if a[0] != b[0] {
        a[0] < b[0]
    } else {
        bytes_lt(a.drop_first(), b.drop_first())
    }
}

/// Texts ordered by their UTF-8 bytes.
pub open spec fn text_lt(a: Seq<char>, b: Seq<char>) -> bool {
    bytes_lt(encode_utf8(a), encode_utf8(b))
}

/// Parameters ordered by name, then by value, both by their UTF-8 bytes.
pub open spec fn param_lt(a: ParamView, b: ParamView) -> bool {
    text_lt(a.0, b.0) || (encode_utf8(a.0) == encode_utf8(b.0) && text_lt(a.1, b.1))
}

/// Where `x` goes in `s`: before the first entry that is greater than it.
pub open spec fn insert_position(s: Seq<ParamView>, x: ParamView) -> int
    decreases s.len(),
{
    if s.len() == 0 {
        0
    } else if param_lt(x, s[0]) {
        0
    } else {
        1 + insert_position(s.drop_first(), x)
    }
}

pub open spec fn insert_sorted(s: Seq<ParamView>, x: ParamView) -> Seq<ParamView> {
    s.insert(insert_position(s, x), x)
}

/// The parameters in canonical order.
pub open spec fn sorted_params(ps: Seq<ParamView>) -> Seq<ParamView>
    decreases ps.len(),
{
    if ps.len() == 0 {
        Seq::empty()
    } else {
        insert_sorted(sorted_params(ps.drop_first()), ps[0])
    }
}

/// No entry is smaller than the one before it.
pub open spec fn is_sorted(s: Seq<ParamView>) -> bool {
    forall|i: int| 0 <= i < s.len() - 1 ==> !param_lt(#[trigger] s[i + 1], s[i])
}

/// `name=value`.
pub open spec fn pair_text(p: ParamView) -> Seq<char> {
    p.0 + seq!['='] + p.1
}

/// The pairs rendered in order, with `sep` between two of them.
pub open spec fn joined(ps: Seq<ParamView>, sep: Seq<char>) -> Seq<char>
    decreases ps.len(),
{
    if ps.len() == 0 {
        Seq::empty()
    } else if ps.len() == 1 {
        pair_text(ps[0])
    } else {
        joined(ps.drop_last(), sep) + sep + pair_text(ps.last())
    }
}

fn bytes_less(a: &[u8], b: &[u8]) -> (r: bool)
    ensures
        r == bytes_lt(a@, b@),
{
    let mut i: usize = 0;
    assert(a@.skip(0) =~= a@);
    assert(b@.skip(0) =~= b@);
    while i < a.len() && i < b.len()
        invariant
            i <= a@.len(),
            i <= b@.len(),
            bytes_lt(a@, b@) == bytes_lt(a@.skip(i as int), b@.skip(i as int)),
        decreases a@.len() - i,
    {
        if a[i] != b[i] {
            return a[i] < b[i];
        }
        assert(a@.skip(i as int).drop_first() =~= a@.skip(i + 1));
        assert(b@.skip(i as int).drop_first() =~= b@.skip(i + 1));
        i = i + 1;
    }
    i < b.len()
}

fn bytes_equal(a: &[u8], b: &[u8]) -> (r: bool)
    ensures
        r == (a@ == b@),
{
    if a.len() != b.len() {
        return false;
    }
    let mut i: usize = 0;
    while i < a.len()
        invariant
            a@.len() == b@.len(),
            i <= a@.len(),
            a@.subrange(0, i as int) == b@.subrange(0, i as int),
        decreases a@.len() - i,
    {
        if a[i] != b[i] {
            assert(a@[i as int] != b@[i as int]);
            return false;
        }
        assert(a@.subrange(0, i + 1) =~= a@.subrange(0, i as int).push(a@[i as int]));
        assert(b@.subrange(0, i + 1) =~= b@.subrange(0, i as int).push(b@[i as int]));
        i = i + 1;
    }
    assert(a@ =~= a@.subrange(0, i as int));
    assert(b@ =~= b@.subrange(0, i as int));
    true
}

fn param_less(x: &(String, String), y: &(String, String)) -> (r: bool)
    ensures
        r == param_lt(param_view(*x), param_view(*y)),
{
    let xn = x.0.as_str().as_bytes();
    let yn = y.0.as_str().as_bytes();
    if bytes_less(xn, yn) {
        true
    } else if bytes_equal(xn, yn) {
        bytes_less(x.1.as_str().as_bytes(), y.1.as_str().as_bytes())
    } else {
        false
    }
}

proof fn lemma_insert_position(s: Seq<ParamView>, x: ParamView, k: int)
    requires
        0 <= k <= s.len(),
        forall|t: int| 0 <= t < k ==> !param_lt(x, #[trigger] s[t]),
        k == s.len() || param_lt(x, s[k]),
    ensures
        insert_position(s, x) == k,
    decreases s.len(),
{
    if s.len() > 0 && k > 0 {
        assert(!param_lt(x, s[0]));
        assert forall|t: int| 0 <= t < k - 1 implies !param_lt(x, #[trigger] s.drop_first()[t]) by {
            assert(s.drop_first()[t] == s[t + 1]);
        }
        lemma_insert_position(s.drop_first(), x, k - 1);
    }
}

/// Sorts the parameters into canonical order, by name and then by value.
pub fn sort_params(params: Vec<(String, String)>) -> (r: Vec<(String, String)>)
    ensures
        params_view(r@) == sorted_params(params_view(params@)),
{
    let ghost all = params_view(params@);
    let mut rest = params;
    let mut out: Vec<(String, String)> = Vec::new();
    proof {
        assert(all.subrange(all.len() as int, all.len() as int) =~= Seq::<ParamView>::empty());
        assert(params_view(out@) =~= Seq::<ParamView>::empty());
        assert(params_view(rest@) =~= all.subrange(0, rest@.len() as int));
    }
    while rest.len() > 0
        invariant
            rest@.len() <= all.len(),
            params_view(rest@) == all.subrange(0, rest@.len() as int),
            params_view(out@) == sorted_params(all.subrange(rest@.len() as int, all.len() as int)),
        decreases rest@.len(),
    {
        let ghost m = rest@.len() as int;
        let ghost whole = rest@;
        let x = rest.pop().unwrap();
        proof {
            assert(params_view(rest@) =~= all.subrange(0, m - 1));
            assert(param_view(x) == params_view(whole)[m - 1]);
            assert(param_view(x) == all[m - 1]);
        }
        let mut k: usize = 0;
        while k < out.len() && !param_less(&x, &out[k])
            invariant
                k <= out@.len(),
                forall|t: int| 0 <= t < k ==> !param_lt(param_view(x), #[trigger] params_view(out@)[t]),
            decreases out@.len() - k,
        {
            k = k + 1;
        }
        proof {
            lemma_insert_position(params_view(out@), param_view(x), k as int);
        }
        let ghost before = out@;
        out.insert(k, x);
        proof {
            assert(params_view(out@) =~= params_view(before).insert(k as int, param_view(x)));
            let tail = all.subrange(m - 1, all.len() as int);
            assert(tail.drop_first() =~= all.subrange(m, all.len() as int));
        }
    }
    out
}

/// Renders the parameters as `name=value` pairs, in order, with `separator`
/// between two of them.
pub fn make_query(list: &Vec<(String, String)>, separator: &str) -> (r: String)
    ensures
        r@ == joined(params_view(list@), separator@),
{
    let ghost all = params_view(list@);
    let mut result = String::new();
    let mut i: usize = 0;
    proof {
        assert(all.subrange(0, 0) =~= Seq::<ParamView>::empty());
    }
    while i < list.len()
        invariant
            all == params_view(list@),
            i <= list@.len(),
            result@ == joined(all.subrange(0, i as int), separator@),
        decreases list@.len() - i,
    {
        let item = &list[i];
        if i > 0 {
            result.append(separator);
        }
        result.append(item.0.as_str());
        result.append("=");
        result.append(item.1.as_str());
        proof {
            reveal_strlit("=");
            let front = all.subrange(0, i as int);
            let next = all.subrange(0, i + 1);
            assert(next.drop_last() =~= front);
            assert(next.last() == param_view(*item));
            if i == 0 {
                assert(front.len() == 0);
                assert(result@ =~= pair_text(next[0]));
            } else {
                assert(result@ =~= joined(front, separator@) + separator@ + pair_text(next.last()));
            }
        }
        i = i + 1;
    }
    proof {
        assert(all.subrange(0, i as int) =~= all);
    }
    result
}

proof fn lemma_bytes_lt_asymmetric(a: Seq<u8>, b: Seq<u8>)
    ensures
        bytes_lt(a, b) ==> !bytes_lt(b, a),
        !bytes_lt(a, a),
    decreases a.len(),
{
    if a.len() > 0 && b.len() > 0 {
        lemma_bytes_lt_asymmetric(a.drop_first(), b.drop_first());
    }
    if a.len() > 0 {
        lemma_bytes_lt_asymmetric(a.drop_first(), a.drop_first());
    }
}

proof fn lemma_param_lt_asymmetric(a: ParamView, b: ParamView)
    ensures
        param_lt(a, b) ==> !param_lt(b, a),
{
    lemma_bytes_lt_asymmetric(encode_utf8(a.0), encode_utf8(b.0));
    lemma_bytes_lt_asymmetric(encode_utf8(a.1), encode_utf8(b.1));
}

proof fn lemma_insert_sorted(s: Seq<ParamView>, x: ParamView)
    requires
        is_sorted(s),
    ensures
        is_sorted(insert_sorted(s, x)),
        insert_sorted(s, x).to_multiset() == s.to_multiset().insert(x),
        0 <= insert_position(s, x) <= s.len(),
        forall|t: int| 0 <= t < insert_position(s, x) ==> !param_lt(x, #[trigger] s[t]),
        insert_position(s, x) == s.len() || param_lt(x, s[insert_position(s, x)]),
    decreases s.len(),
{
    if s.len() > 0 && !param_lt(x, s[0]) {
        let rest = s.drop_first();
        assert forall|i: int| 0 <= i < rest.len() - 1 implies !param_lt(#[trigger] rest[i + 1], rest[i]) by {
            assert(rest[i + 1] == s[i + 2] && rest[i] == s[i + 1]);
        }
        lemma_insert_sorted(rest, x);
        assert forall|t: int| 0 <= t < insert_position(s, x) implies !param_lt(x, #[trigger] s[t]) by {
            if t > 0 {
                assert(s[t] == rest[t - 1]);
            }
        }
        let k = insert_position(s, x);
        assert(k == 1 + insert_position(rest, x));
        if k < s.len() {
            assert(s[k] == rest[k - 1]);
        }
    }
    let k = insert_position(s, x);
    let r = insert_sorted(s, x);
    assert(r.remove(k) =~= s);
    assert(r[k] == x);
    assert forall|i: int| 0 <= i < r.len() - 1 implies !param_lt(#[trigger] r[i + 1], r[i]) by {
        if i + 1 < k {
            assert(r[i + 1] == s[i + 1] && r[i] == s[i]);
        } else if i + 1 == k {
            assert(r[i] == s[i]);
            assert(!param_lt(x, s[i]));
            assert(r[i + 1] == x);
        } else if i == k {
            assert(r[i + 1] == s[k]);
            assert(r[i] == x);
            lemma_param_lt_asymmetric(x, s[k]);
        } else {
            assert(r[i + 1] == s[i] && r[i] == s[i - 1]);
        }
    }
    assert(r.to_multiset().count(x) > 0) by {
        assert(r.contains(x));
    }
    assert(r.to_multiset() =~= r.to_multiset().remove(x).insert(x));
}

/// Canonical order is a permutation of its input, and no entry in it is
/// smaller than the one before it: entries are ordered by name, and entries
/// with equal names by value.
pub proof fn lemma_sorted_params(ps: Seq<ParamView>)
    ensures
        is_sorted(sorted_params(ps)),
        sorted_params(ps).to_multiset() == ps.to_multiset(),
    decreases ps.len(),
{
    if ps.len() > 0 {
        lemma_sorted_params(ps.drop_first());
        lemma_insert_sorted(sorted_params(ps.drop_first()), ps[0]);
        assert(ps =~= seq![ps[0]] + ps.drop_first());
        assert(ps.drop_first().to_multiset() =~= ps.to_multiset().remove(ps[0])) by {
            assert(ps.remove(0) =~= ps.drop_first());
        }
        assert(ps.to_multiset().count(ps[0]) > 0) by {
            assert(ps.contains(ps[0]));
        }
        assert(ps.to_multiset() =~= ps.to_multiset().remove(ps[0]).insert(ps[0]));
    } else {
        assert(ps.to_multiset() =~= Multiset::empty());
        assert(sorted_params(ps).to_multiset() =~= Multiset::empty());
    }
}

} // verus!
