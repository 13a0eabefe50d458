//! Hexadecimal encoding and operating-system randomness, through the `hex`
//! and `getrandom` crates.

use vstd::prelude::*;
use crate::text::{hex_digit, hex_lower, lemma_hex_lower_len};
use vstd::utf8::{encode_utf8, is_ascii_chars, is_ascii_chars_encode_utf8};
use vstd::string::StringSliceAdditionalSpecFns;

verus! {

/// Value of one hexadecimal digit byte, either case.
pub open spec fn hex_val(b: u8) -> Option<u8> {
    if 48 <= b <= 57 {
        Some((b - 48) as u8)
    } else if 97 <= b <= 102 {
        Some((b - 87) as u8)
    } else if 65 <= b <= 70 {
        Some((b - 55) as u8)
    } else {
        None
    }
}

/// `hex::decode` of the bytes `s`: an even number of hexadecimal digits,
/// two per byte, high digit first.
pub open spec fn hex_decode(s: Seq<u8>) -> Option<Seq<u8>> {
    if s.len() % 2 == 0 && forall|i: int| 0 <= i < s.len() ==> (#[trigger] hex_val(s[i])) is Some {
        Some(
            Seq::new(
                (s.len() / 2) as nat,
                |i: int| (hex_val(s[2 * i]).unwrap() * 16 + hex_val(s[2 * i + 1]).unwrap()) as u8,
            ),
        )
    } else {
        None
    }
}

/// `hex::encode`: lower-case hexadecimal, two digits per byte.
#[verifier::external_body]
pub(crate) fn hex_encode(data: &[u8]) -> (r: String)
    ensures
        r@ == hex_lower(data@),
{
    hex::encode(data)
}

/// `hex::decode`: the bytes written by an even number of hexadecimal digits
/// of either case; any other input is an error, whose text is not stated.
#[verifier::external_body]
pub(crate) fn hex_decode_str(s: &str) -> (r: Result<Vec<u8>, String>)
    ensures
        match r {
            Ok(v) => hex_decode(s.spec_bytes()) == Some(v@),
            Err(_) => hex_decode(s.spec_bytes()) is None,
        },
{
    hex::decode(s).map_err(|e| e.to_string())
}

/// `getrandom::fill` on a fresh buffer of `n` bytes. The content is chance;
/// only its length is stated. The system source can fail.
#[verifier::external_body]
pub(crate) fn random_bytes(n: usize) -> (r: Result<Vec<u8>, String>)
    ensures
        r matches Ok(v) ==> v@.len() == n,
{
    let mut v = vec![0u8; n];
    getrandom::fill(&mut v).map(|_| v).map_err(|e| e.to_string())
}

/// Lower-case hexadecimal text of `data`.
pub fn to_hex(data: &[u8]) -> (r: String)
    ensures
        r@ == hex_lower(data@),
        r@.len() == 2 * data@.len(),
{
    proof {
        lemma_hex_lower_len(data@);
    }
    hex_encode(data)
}

proof fn lemma_hex_digit_value(n: u8)
    requires
        n < 16,
    ensures
        hex_val(hex_digit(n) as u8) == Some(n),
        '\0' <= hex_digit(n) <= '\u{7f}',
{
    if n < 10 {
        assert(hex_digit(n) as u32 == n + 48);
    } else {
        assert(hex_digit(n) as u32 == n + 87);
    }
}

proof fn lemma_hex_lower_at(b: Seq<u8>)
    ensures
        hex_lower(b).len() == 2 * b.len(),
        forall|k: int|
            0 <= k < b.len() ==> hex_lower(b)[2 * k] == hex_digit(#[trigger] b[k] / 16)
                && hex_lower(b)[2 * k + 1] == hex_digit(b[k] % 16),
    decreases b.len(),
{
    lemma_hex_lower_len(b);
    if b.len() > 0 {
        lemma_hex_lower_at(b.drop_last());
        let p = hex_lower(b.drop_last());
        assert forall|k: int| 0 <= k < b.len() implies hex_lower(b)[2 * k] == hex_digit(
            #[trigger] b[k] / 16,
        ) && hex_lower(b)[2 * k + 1] == hex_digit(b[k] % 16) by {
            if k < b.len() - 1 {
                assert(b.drop_last()[k] == b[k]);
                assert(hex_lower(b)[2 * k] == p[2 * k]);
                assert(hex_lower(b)[2 * k + 1] == p[2 * k + 1]);
            }
        }
    }
}

/// Hexadecimal text is ASCII: its UTF-8 bytes are its characters.
pub proof fn lemma_hex_is_ascii(b: Seq<u8>)
    ensures
        is_ascii_chars(hex_lower(b)),
        encode_utf8(hex_lower(b)).len() == hex_lower(b).len(),
{
    let h = hex_lower(b);
    lemma_hex_lower_at(b);
    assert forall|i: int| 0 <= i < h.len() implies '\0' <= #[trigger] h[i] <= '\u{7f}' by {
        let k = i / 2;
        assert(0 <= k < b.len());
        lemma_hex_digit_value(b[k] / 16);
        lemma_hex_digit_value(b[k] % 16);
        if i % 2 == 0 {
            assert(i == 2 * k);
        } else {
            assert(i == 2 * k + 1);
        }
    }
    assert(is_ascii_chars(h));
    is_ascii_chars_encode_utf8(h);
}

/// Decoding the hexadecimal text of some bytes gives the bytes back.
pub proof fn law_hex_round_trips(b: Seq<u8>)
    ensures
        hex_decode(encode_utf8(hex_lower(b))) == Some(b),
{
    let h = hex_lower(b);
    lemma_hex_lower_at(b);
    lemma_hex_is_ascii(b);
    is_ascii_chars_encode_utf8(h);
    let s = encode_utf8(h);
    assert forall|i: int| 0 <= i < s.len() implies (#[trigger] hex_val(s[i])) is Some by {
        let k = i / 2;
        lemma_hex_digit_value(b[k] / 16);
        lemma_hex_digit_value(b[k] % 16);
        if i % 2 == 0 {
            assert(i == 2 * k);
            assert(s[i] == h[i] as u8);
        } else {
            assert(i == 2 * k + 1);
            assert(s[i] == h[i] as u8);
        }
    }
    let d = Seq::new(
        (s.len() / 2) as nat,
        |i: int| (hex_val(s[2 * i]).unwrap() * 16 + hex_val(s[2 * i + 1]).unwrap()) as u8,
    );
    assert forall|k: int| 0 <= k < b.len() implies d[k] == b[k] by {
        lemma_hex_digit_value(b[k] / 16);
        lemma_hex_digit_value(b[k] % 16);
        assert(s[2 * k] == h[2 * k] as u8);
        assert(s[2 * k + 1] == h[2 * k + 1] as u8);
        assert((b[k] / 16) * 16 + b[k] % 16 == b[k]);
    }
    assert(d =~= b);
}

} // verus!
