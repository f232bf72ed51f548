//! Percent-encoding of text as the OAuth 1.0a signing rules ask for it.
use vstd::prelude::*;
use vstd::string::*;
use vstd::utf8::*;

verus! {

/// An ASCII letter or digit.
pub open spec fn is_alnum(b: u8) -> bool {
    (0x30 <= b <= 0x39) || (0x41 <= b <= 0x5A) || (0x61 <= b <= 0x7A)
}

/// The unreserved bytes `A-Z a-z 0-9 - . _ ~`, which stay as they are.
pub open spec fn is_unreserved(b: u8) -> bool {
    is_alnum(b) || b == 0x2D || b == 0x2E || b == 0x5F || b == 0x7E
}

/// Upper-case hexadecimal digit of a value below 16.
pub open spec fn hex_upper(n: u8) -> char {
    if n < 10 {
        ((0x30 + n) as u8) as char
    } else {
        ((0x37 + n) as u8) as char
    }
}

/// `%XX`, with the byte in upper-case hexadecimal.
pub open spec fn escaped(b: u8) -> Seq<char> {
    seq!['%', hex_upper(b / 16), hex_upper(b % 16)]
}

/// The encoding of one byte.
pub open spec fn percent_byte(b: u8) -> Seq<char> {
    if is_unreserved(b) {
        seq![b as char]
    } else {
        escaped(b)
    }
}

/// Each byte encoded in turn.
pub open spec fn percent_encoded(bytes: Seq<u8>) -> Seq<char>
    decreases bytes.len(),
{
    if bytes.len() == 0 {
        Seq::empty()
    } else {
        percent_encoded(bytes.drop_last()) + percent_byte(bytes.last())
    }
}

/// The encoding of a text: its UTF-8 bytes, each encoded in turn.
pub open spec fn percent_text(s: Seq<char>) -> Seq<char> {
    percent_encoded(encode_utf8(s))
}

/// A character that encoded text may hold: `A-Z a-z 0-9 - . _ ~ %`.
pub open spec fn is_encoded_char(c: char) -> bool {
    ('0' <= c <= '9') || ('A' <= c <= 'Z') || ('a' <= c <= 'z') || c == '-' || c == '.' || c
        == '_' || c == '~' || c == '%'
}

proof fn lemma_percent_byte_chars(b: u8)
    ensures
        forall|i: int| 0 <= i < percent_byte(b).len() ==> is_encoded_char(#[trigger] percent_byte(b)[i]),
{
    let p = percent_byte(b);
    assert(b / 16 < 16 && b % 16 < 16);
    assert forall|i: int| 0 <= i < p.len() implies is_encoded_char(#[trigger] p[i]) by {
        if !is_unreserved(b) && i > 0 {
            let d: u8 = if i == 1 { b / 16 } else { b % 16 };
            assert(p[i] == hex_upper(d));
        }
    }
}

/// Encoded text holds only `A-Z a-z 0-9 - . _ ~ %`, whatever the input.
pub proof fn lemma_encoded_chars(s: Seq<char>)
    ensures
        forall|i: int| 0 <= i < percent_text(s).len() ==> is_encoded_char(#[trigger] percent_text(s)[i]),
{
    lemma_percent_encoded_chars(encode_utf8(s));
}

proof fn lemma_percent_encoded_chars(bytes: Seq<u8>)
    ensures
        forall|i: int| 0 <= i < percent_encoded(bytes).len() ==> is_encoded_char(#[trigger] percent_encoded(bytes)[i]),
    decreases bytes.len(),
{
    if bytes.len() > 0 {
        let front = percent_encoded(bytes.drop_last());
        let last = percent_byte(bytes.last());
        lemma_percent_encoded_chars(bytes.drop_last());
        lemma_percent_byte_chars(bytes.last());
        assert forall|i: int| 0 <= i < percent_encoded(bytes).len() implies is_encoded_char(#[trigger] percent_encoded(bytes)[i]) by {
            if i < front.len() {
                assert(percent_encoded(bytes)[i] == front[i]);
            } else {
                assert(percent_encoded(bytes)[i] == last[i - front.len()]);
            }
        }
    }
}

/// Bytes that `application/x-www-form-urlencoded` serialization leaves as they are.
pub open spec fn form_unchanged(b: u8) -> bool {
    is_alnum(b) || b == 0x2A || b == 0x2D || b == 0x2E || b == 0x5F
}

/// How form serialization writes one byte: unchanged, `+` for a space, else `%XX`.
pub open spec fn form_byte(b: u8) -> Seq<char> {
    if form_unchanged(b) {
        seq![b as char]
    } else if b == 0x20 {
        seq!['+']
    } else {
        escaped(b)
    }
}

/// Form serialization of a byte string.
pub open spec fn form_serialized(bytes: Seq<u8>) -> Seq<char>
    decreases bytes.len(),
{
    if bytes.len() == 0 {
        Seq::empty()
    } else {
        form_serialized(bytes.drop_last()) + form_byte(bytes.last())
    }
}

/// Relies on url::form_urlencoded::byte_serialize: bytes of `* - . _ 0-9 A-Z a-z`
/// unchanged, a space as `+`, every other byte as `%XX` in upper-case hex.
#[verifier::external_body]
fn form_serialize(bytes: &[u8]) -> (r: String)
    ensures
        r@ == form_serialized(bytes@),
{
    url::form_urlencoded::byte_serialize(bytes).collect::<String>()
}

proof fn lemma_form_prefix(bytes: Seq<u8>, k: int)
    requires
        0 <= k <= bytes.len(),
    ensures
        form_serialized(bytes.subrange(0, k)).len() <= form_serialized(bytes).len(),
        form_serialized(bytes).subrange(0, form_serialized(bytes.subrange(0, k)).len() as int)
            == form_serialized(bytes.subrange(0, k)),
    decreases bytes.len(),
{
    if k == bytes.len() {
        assert(bytes.subrange(0, k) =~= bytes);
        assert(form_serialized(bytes).subrange(0, form_serialized(bytes).len() as int)
            =~= form_serialized(bytes));
    } else {
        let front = bytes.drop_last();
        assert(front.subrange(0, k) =~= bytes.subrange(0, k));
        lemma_form_prefix(front, k);
        let whole = form_serialized(bytes);
        let m = form_serialized(bytes.subrange(0, k)).len() as int;
        assert(whole == form_serialized(front) + form_byte(bytes.last()));
        assert(whole.subrange(0, m) =~= form_serialized(front).subrange(0, m));
    }
}

proof fn lemma_form_byte_cases(b: u8)
    ensures
        form_byte(b).len() == 1 || form_byte(b).len() == 3,
        form_byte(b)[0] == '+' <==> b == 0x20,
        form_byte(b)[0] == '*' <==> b == 0x2A,
        form_byte(b)[0] == '%' <==> (form_byte(b).len() == 3),
        form_byte(b).len() == 3 ==> form_byte(b) == escaped(b),
        form_byte(b).len() == 3 && b != 0x7E ==> percent_byte(b) == escaped(b),
        form_byte(b).len() == 3 ==> (form_byte(b)[1] == '7' && form_byte(b)[2] == 'E' <==> b
            == 0x7E),
        form_byte(b).len() == 1 && b != 0x20 && b != 0x2A ==> percent_byte(b) == form_byte(b),
        b == 0x20 ==> percent_byte(b) == seq!['%', '2', '0'],
        b == 0x2A ==> percent_byte(b) == seq!['%', '2', 'A'],
        b == 0x7E ==> percent_byte(b) == seq!['~'],
{
    let e = escaped(b);
    assert(e[1] == '7' ==> b / 16 == 7);
    assert(e[2] == 'E' ==> b % 16 == 14);
    assert(b == 0x20 ==> e =~= seq!['%', '2', '0']);
    assert(b == 0x2A ==> e =~= seq!['%', '2', 'A']);
}

proof fn lemma_form_step(bytes: Seq<u8>, i: int)
    requires
        0 <= i < bytes.len(),
    ensures
        form_serialized(bytes.subrange(0, i + 1)) == form_serialized(bytes.subrange(0, i))
            + form_byte(bytes[i]),
        percent_encoded(bytes.subrange(0, i + 1)) == percent_encoded(bytes.subrange(0, i))
            + percent_byte(bytes[i]),
{
    assert(bytes.subrange(0, i + 1).drop_last() =~= bytes.subrange(0, i));
}

/// Percent-encodes `s`: every UTF-8 byte outside `A-Z a-z 0-9 - . _ ~` becomes
/// `%XX`; a space becomes `%20` and `*` becomes `%2A`.
pub fn encode(s: &str) -> (r: String)
    ensures
        r@ == percent_text(s@),
{
    let ghost bytes = s.spec_bytes();
    let serial = form_serialize(s.as_bytes());
    let text = serial.as_str();
    let n = text.unicode_len();
    let mut out = String::new();
    let mut j: usize = 0;
    let ghost mut i: int = 0;
    proof {
        assert(bytes.subrange(0, 0) =~= Seq::<u8>::empty());
    }
    while j < n
        invariant
            n == serial@.len(),
            text@ == serial@,
            serial@ == form_serialized(bytes),
            0 <= i <= bytes.len(),
            j == form_serialized(bytes.subrange(0, i)).len(),
            out@ == percent_encoded(bytes.subrange(0, i)),
        decreases n - j,
    {
        proof {
            if i == bytes.len() {
                assert(bytes.subrange(0, i) =~= bytes);
            }
            lemma_form_prefix(bytes, i + 1);
            lemma_form_step(bytes, i);
            let piece = form_byte(bytes[i]);
            assert forall|t: int| 0 <= t < piece.len() implies serial@[j + t] == piece[t] by {
                assert(serial@.subrange(0, j + piece.len()) == form_serialized(bytes.subrange(0, i)) + piece);
                assert(serial@.subrange(0, j + piece.len())[j + t] == serial@[j + t]);
            }
        }
        let ghost b = bytes[i];
        let c = text.get_char(j);
        proof {
            lemma_form_byte_cases(b);
            assert(c == form_byte(b)[0]);
        }
        if c == '+' {
            proof {
                assert(b == 0x20);
                assert(percent_byte(b) == seq!['%', '2', '0']);
                reveal_strlit("%20");
                assert("%20"@ =~= seq!['%', '2', '0']);
            }
            out.append("%20");
            j = j + 1;
        } else if c == '*' {
            proof {
                reveal_strlit("%2A");
                assert(percent_byte(b) =~= "%2A"@);
            }
            out.append("%2A");
            j = j + 1;
        } else if c == '%' {
            let c1 = text.get_char(j + 1);
            let c2 = text.get_char(j + 2);
            if c1 == '7' && c2 == 'E' {
                proof {
                    assert(c1 == form_byte(b)[1]);
                    assert(b == 0x7E);
                    reveal_strlit("~");
                    assert("~"@ =~= seq!['~']);
                }
                out.append("~");
            } else {
                let piece = text.substring_char(j, j + 3);
                proof {
                    assert(piece@ =~= escaped(b));
                    assert(percent_byte(b) == escaped(b));
                }
                out.append(piece);
            }
            j = j + 3;
        } else {
            let piece = text.substring_char(j, j + 1);
            proof {
                assert(piece@ =~= seq![b as char]);
            }
            out.append(piece);
            j = j + 1;
        }
        proof {
            assert(out@ =~= percent_encoded(bytes.subrange(0, i)) + percent_byte(b));
            i = i + 1;
        }
    }
    proof {
        if i < bytes.len() {
            lemma_form_prefix(bytes, i + 1);
            lemma_form_step(bytes, i);
        }
        assert(bytes.subrange(0, i) =~= bytes);
    }
    out
}

} // verus!
