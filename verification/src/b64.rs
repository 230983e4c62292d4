//! URL-safe base64 without padding, used for the framing of signed tokens.
//!
//! Encoding and decoding are verified against each other: decoding an encoded
//! byte string always gives the original bytes back.

use vstd::prelude::*;

verus! {

/// The URL-safe base64 character (as a byte) for a six-bit value.
pub open spec fn b64_char(v: u8) -> u8 {
    if v < 26 {
        (v + 65) as u8  // 'A'..='Z'
    } else if v < 52 {
        (v + 71) as u8  // 'a'..='z'
    } else if v < 62 {
        (v - 4) as u8  // '0'..='9'
    } else if v == 62 {
        45u8  // '-'
    } else {
        95u8  // '_'
    }
}

/// Whether a byte is in the URL-safe base64 alphabet.
pub open spec fn is_b64_char(c: u8) -> bool {
    (65 <= c <= 90) || (97 <= c <= 122) || (48 <= c <= 57) || c == 45 || c == 95
}

/// The six-bit value of a URL-safe base64 character.
pub open spec fn b64_val(c: u8) -> u8 {
    if 65 <= c <= 90 {
        (c - 65) as u8
    } else if 97 <= c <= 122 {
        (c - 71) as u8
    } else if 48 <= c <= 57 {
        (c + 4) as u8
    } else if c == 45 {
        62u8
    } else {
        63u8
    }
}

/// Encoding and decoding the alphabet are inverse on six-bit values.
pub proof fn lemma_b64_char_val(v: u8)
    requires
        v < 64,
    ensures
        is_b64_char(b64_char(v)),
        b64_val(b64_char(v)) == v,
        b64_char(v) < 128,
        b64_char(v) != 46,
{
}

/// URL-safe base64 encoding without padding, front-recursively over groups of
/// three input bytes.
pub open spec fn b64url_encode_spec(s: Seq<u8>) -> Seq<u8>
    decreases s.len(),
{
    if s.len() == 0 {
        Seq::empty()
    } else if s.len() == 1 {
        seq![b64_char(s[0] >> 2), b64_char((s[0] & 3) << 4)]
    } else if s.len() == 2 {
        seq![
            b64_char(s[0] >> 2),
            b64_char(((s[0] & 3) << 4) | (s[1] >> 4)),
            b64_char((s[1] & 15) << 2),
        ]
    } else {
        seq![
            b64_char(s[0] >> 2),
            b64_char(((s[0] & 3) << 4) | (s[1] >> 4)),
            b64_char(((s[1] & 15) << 2) | (s[2] >> 6)),
            b64_char(s[2] & 63),
        ] + b64url_encode_spec(s.skip(3))
    }
}

/// The inverse of [`b64url_encode_spec`]: `None` on any byte string that is
/// not the canonical unpadded encoding of some byte string.
pub open spec fn b64url_decode_spec(s: Seq<u8>) -> Option<Seq<u8>>
    decreases s.len(),
{
    if s.len() == 0 {
        Some(Seq::empty())
    } else if s.len() == 1 {
        None
    } else if s.len() == 2 {
        if is_b64_char(s[0]) && is_b64_char(s[1]) && b64_val(s[1]) & 15 == 0 {
            Some(seq![(b64_val(s[0]) << 2) | (b64_val(s[1]) >> 4)])
        } else {
            None
        }
    } else if s.len() == 3 {
        if is_b64_char(s[0]) && is_b64_char(s[1]) && is_b64_char(s[2]) && b64_val(s[2]) & 3 == 0 {
            Some(
                seq![
                    (b64_val(s[0]) << 2) | (b64_val(s[1]) >> 4),
                    ((b64_val(s[1]) & 15) << 4) | (b64_val(s[2]) >> 2),
                ],
            )
        } else {
            None
        }
    } else {
        if is_b64_char(s[0]) && is_b64_char(s[1]) && is_b64_char(s[2]) && is_b64_char(s[3]) {
            match b64url_decode_spec(s.skip(4)) {
                Some(rest) => Some(
                    seq![
                        (b64_val(s[0]) << 2) | (b64_val(s[1]) >> 4),
                        ((b64_val(s[1]) & 15) << 4) | (b64_val(s[2]) >> 2),
                        ((b64_val(s[2]) & 3) << 6) | b64_val(s[3]),
                    ] + rest,
                ),
                None => None,
            }
        } else {
            None
        }
    }
}

proof fn lemma_six_bit_pieces(a: u8, b: u8, c: u8)
    ensures
        a >> 2 < 64,
        ((a & 3) << 4) | (b >> 4) < 64,
        ((b & 15) << 2) | (c >> 6) < 64,
        a & 63 < 64,
        (a & 3) << 4 < 64,
        (b & 15) << 2 < 64,
        c & 63 < 64,
{
    assert(a >> 2 < 64 && ((a & 3) << 4) | (b >> 4) < 64 && ((b & 15) << 2) | (c >> 6) < 64
        && a & 63 < 64 && (a & 3) << 4 < 64 && (b & 15) << 2 < 64 && c & 63 < 64) by (bit_vector);
}

proof fn lemma_recompose(a: u8, b: u8, c: u8)
    ensures
        ((a >> 2) << 2) | ((((a & 3) << 4) | (b >> 4)) >> 4) == a,
        (((((a & 3) << 4) | (b >> 4)) & 15) << 4) | ((((b & 15) << 2) | (c >> 6)) >> 2) == b,
        (((((b & 15) << 2) | (c >> 6)) & 3) << 6) | (c & 63) == c,
{
    assert(((a >> 2) << 2) | ((((a & 3) << 4) | (b >> 4)) >> 4) == a) by (bit_vector);
    assert((((((a & 3) << 4) | (b >> 4)) & 15) << 4) | ((((b & 15) << 2) | (c >> 6)) >> 2) == b)
        by (bit_vector);
    assert((((((b & 15) << 2) | (c >> 6)) & 3) << 6) | (c & 63) == c) by (bit_vector);
}

proof fn lemma_recompose_tail(a: u8, b: u8)
    ensures
        ((a >> 2) << 2) | (((a & 3) << 4) >> 4) == a,
        ((a & 3) << 4) & 15 == 0,
        ((a >> 2) << 2) | ((((a & 3) << 4) | (b >> 4)) >> 4) == a,
        (((((a & 3) << 4) | (b >> 4)) & 15) << 4) | (((b & 15) << 2) >> 2) == b,
        ((b & 15) << 2) & 3 == 0,
{
    assert(((a >> 2) << 2) | (((a & 3) << 4) >> 4) == a) by (bit_vector);
    assert(((a & 3) << 4) & 15 == 0) by (bit_vector);
    assert(((a >> 2) << 2) | ((((a & 3) << 4) | (b >> 4)) >> 4) == a) by (bit_vector);
    assert((((((a & 3) << 4) | (b >> 4)) & 15) << 4) | (((b & 15) << 2) >> 2) == b)
        by (bit_vector);
    assert(((b & 15) << 2) & 3 == 0) by (bit_vector);
}

/// Decoding inverts encoding: the central law of this module.
pub proof fn lemma_b64_round_trip(s: Seq<u8>)
    ensures
        b64url_decode_spec(b64url_encode_spec(s)) == Some(s),
    decreases s.len(),
{
    let e = b64url_encode_spec(s);
    if s.len() == 0 {
        assert(e =~= Seq::<u8>::empty());
        assert(b64url_decode_spec(e) == Some(Seq::<u8>::empty()));
        assert(Seq::<u8>::empty() =~= s);
    } else if s.len() == 1 {
        let a = s[0];
        lemma_six_bit_pieces(a, 0, 0);
        lemma_b64_char_val(a >> 2);
        lemma_b64_char_val((a & 3) << 4);
        lemma_recompose_tail(a, 0);
        assert(b64url_decode_spec(e) == Some(seq![(b64_val(e[0]) << 2) | (b64_val(e[1]) >> 4)]));
        assert(seq![(b64_val(e[0]) << 2) | (b64_val(e[1]) >> 4)] =~= s);
    } else if s.len() == 2 {
        let a = s[0];
        let b = s[1];
        lemma_six_bit_pieces(a, b, 0);
        lemma_b64_char_val(a >> 2);
        lemma_b64_char_val(((a & 3) << 4) | (b >> 4));
        lemma_b64_char_val((b & 15) << 2);
        lemma_recompose_tail(a, b);
        assert(b64url_decode_spec(e) matches Some(d) && d =~= s);
    } else {
        let a = s[0];
        let b = s[1];
        let c = s[2];
        lemma_six_bit_pieces(a, b, c);
        lemma_b64_char_val(a >> 2);
        lemma_b64_char_val(((a & 3) << 4) | (b >> 4));
        lemma_b64_char_val(((b & 15) << 2) | (c >> 6));
        lemma_b64_char_val(c & 63);
        lemma_recompose(a, b, c);
        lemma_b64_round_trip(s.skip(3));
        assert(e.skip(4) =~= b64url_encode_spec(s.skip(3)));
        let d = b64url_decode_spec(e);
        assert(d matches Some(dd) && dd =~= s);
    }
}

/// Every byte of an encoding lies in the URL-safe alphabet; in particular it
/// is ASCII and is not a dot, so a token framed with dots splits back
/// unambiguously.
pub proof fn lemma_b64_alphabet(s: Seq<u8>)
    ensures
        forall|i: int|
            0 <= i < b64url_encode_spec(s).len() ==> is_b64_char(
                #[trigger] b64url_encode_spec(s)[i],
            ),
    decreases s.len(),
{
    let e = b64url_encode_spec(s);
    if s.len() == 0 {
    } else if s.len() == 1 {
        lemma_six_bit_pieces(s[0], 0, 0);
        lemma_b64_char_val(s[0] >> 2);
        lemma_b64_char_val((s[0] & 3) << 4);
    } else if s.len() == 2 {
        lemma_six_bit_pieces(s[0], s[1], 0);
        lemma_b64_char_val(s[0] >> 2);
        lemma_b64_char_val(((s[0] & 3) << 4) | (s[1] >> 4));
        lemma_b64_char_val((s[1] & 15) << 2);
    } else {
        lemma_six_bit_pieces(s[0], s[1], s[2]);
        lemma_b64_char_val(s[0] >> 2);
        lemma_b64_char_val(((s[0] & 3) << 4) | (s[1] >> 4));
        lemma_b64_char_val(((s[1] & 15) << 2) | (s[2] >> 6));
        lemma_b64_char_val(s[2] & 63);
        lemma_b64_alphabet(s.skip(3));
        assert forall|i: int| 0 <= i < e.len() implies is_b64_char(#[trigger] e[i]) by {
            if i >= 4 {
                assert(e[i] == b64url_encode_spec(s.skip(3))[i - 4]);
            }
        }
    }
}

/// Alphabet bytes are ASCII and never a dot.
pub proof fn lemma_b64_char_ascii(c: u8)
    ensures
        is_b64_char(c) ==> c < 128 && c != 46,
{
}

/// The base64 character for a six-bit value.
fn enc_char(v: u8) -> (c: u8)
    requires
        v < 64,
    ensures
        c == b64_char(v),
{
    if v < 26 {
        v + 65
    } else if v < 52 {
        v + 71
    } else if v < 62 {
        v - 4
    } else if v == 62 {
        45
    } else {
        95
    }
}

/// The six-bit value of a base64 character, or `None` outside the alphabet.
fn dec_char(c: u8) -> (r: Option<u8>)
    ensures
        r is Some <==> is_b64_char(c),
        r matches Some(v) ==> v == b64_val(c) && v < 64,
{
    if 65 <= c && c <= 90 {
        Some(c - 65)
    } else if 97 <= c && c <= 122 {
        Some(c - 71)
    } else if 48 <= c && c <= 57 {
        Some(c + 4)
    } else if c == 45 {
        Some(62)
    } else if c == 95 {
        Some(63)
    } else {
        None
    }
}

/// Encode bytes as unpadded URL-safe base64.
pub fn b64url_encode(input: &[u8]) -> (r: Vec<u8>)
    ensures
        r@ == b64url_encode_spec(input@),
{
    let n = input.len();
    let mut r: Vec<u8> = Vec::new();
    let mut i: usize = 0;
    proof {
        assert(input@.skip(0) =~= input@);
    }
    while n - i >= 3
        invariant
            i <= n,
            n == input@.len(),
            b64url_encode_spec(input@) == r@ + b64url_encode_spec(input@.skip(i as int)),
        decreases n - i,
    {
        let a = input[i];
        let b = input[i + 1];
        let c = input[i + 2];
        proof {
            lemma_six_bit_pieces(a, b, c);
        }
        r.push(enc_char(a >> 2));
        r.push(enc_char(((a & 3) << 4) | (b >> 4)));
        r.push(enc_char(((b & 15) << 2) | (c >> 6)));
        r.push(enc_char(c & 63));
        proof {
            assert(input@.skip(i as int).skip(3) =~= input@.skip(i + 3));
            assert(input@.skip(i as int)[0] == a);
            assert(input@.skip(i as int)[1] == b);
            assert(input@.skip(i as int)[2] == c);
        }
        i = i + 3;
    }
    if n - i == 1 {
        let a = input[i];
        proof {
            lemma_six_bit_pieces(a, 0, 0);
            assert(input@.skip(i as int) =~= seq![a]);
        }
        r.push(enc_char(a >> 2));
        r.push(enc_char((a & 3) << 4));
    } else if n - i == 2 {
        let a = input[i];
        let b = input[i + 1];
        proof {
            lemma_six_bit_pieces(a, b, 0);
            assert(input@.skip(i as int) =~= seq![a, b]);
        }
        r.push(enc_char(a >> 2));
        r.push(enc_char(((a & 3) << 4) | (b >> 4)));
        r.push(enc_char((b & 15) << 2));
    } else {
        proof {
            assert(input@.skip(i as int) =~= Seq::<u8>::empty());
        }
    }
    proof {
        assert(b64url_encode_spec(input@) =~= r@);
    }
    r
}

/// Decode unpadded URL-safe base64; `None` on any input that is not a
/// canonical encoding.
pub fn b64url_decode(input: &[u8]) -> (r: Option<Vec<u8>>)
    ensures
        r is Some <==> b64url_decode_spec(input@) is Some,
        r matches Some(v) ==> b64url_decode_spec(input@) == Some(v@),
{
    let n = input.len();
    let mut out: Vec<u8> = Vec::new();
    let mut i: usize = 0;
    proof {
        assert(input@.skip(0) =~= input@);
    }
    while n - i >= 4
        invariant
            i <= n,
            n == input@.len(),
            b64url_decode_spec(input@) == match b64url_decode_spec(input@.skip(i as int)) {
                Some(t) => Some(out@ + t),
                None => None::<Seq<u8>>,
            },
        decreases n - i,
    {
        let v0 = dec_char(input[i]);
        let v1 = dec_char(input[i + 1]);
        let v2 = dec_char(input[i + 2]);
        let v3 = dec_char(input[i + 3]);
        proof {
            assert(input@.skip(i as int)[0] == input@[i as int]);
            assert(input@.skip(i as int)[1] == input@[i + 1]);
            assert(input@.skip(i as int)[2] == input@[i + 2]);
            assert(input@.skip(i as int)[3] == input@[i + 3]);
        }
        match (v0, v1, v2, v3) {
            (Some(x0), Some(x1), Some(x2), Some(x3)) => {
                out.push((x0 << 2) | (x1 >> 4));
                out.push(((x1 & 15) << 4) | (x2 >> 2));
                out.push(((x2 & 3) << 6) | x3);
                proof {
                    assert(input@.skip(i as int).skip(4) =~= input@.skip(i + 4));
                }
                i = i + 4;
            },
            _ => {
                return None;
            },
        }
    }
    if i == n {
        proof {
            assert(input@.skip(i as int) =~= Seq::<u8>::empty());
        }
        Some(out)
    } else if n - i == 2 {
        let v0 = dec_char(input[i]);
        let v1 = dec_char(input[i + 1]);
        proof {
            assert(input@.skip(i as int) =~= seq![input@[i as int], input@[i + 1]]);
        }
        match (v0, v1) {
            (Some(x0), Some(x1)) => {
                if x1 & 15 == 0 {
                    out.push((x0 << 2) | (x1 >> 4));
                    Some(out)
                } else {
                    None
                }
            },
            _ => None,
        }
    } else if n - i == 3 {
        let v0 = dec_char(input[i]);
        let v1 = dec_char(input[i + 1]);
        let v2 = dec_char(input[i + 2]);
        proof {
            assert(input@.skip(i as int) =~= seq![
                input@[i as int],
                input@[i + 1],
                input@[i + 2],
            ]);
        }
        match (v0, v1, v2) {
            (Some(x0), Some(x1), Some(x2)) => {
                if x2 & 3 == 0 {
                    out.push((x0 << 2) | (x1 >> 4));
                    out.push(((x1 & 15) << 4) | (x2 >> 2));
                    Some(out)
                } else {
                    None
                }
            },
            _ => None,
        }
    } else {
        None
    }
}

} // verus!
