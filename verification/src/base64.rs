//! Standard base64 (RFC 4648, padded, no line breaks), as the header codec
//! uses it for the `mac` and `hash` attributes.
//!
//! Encoding is delegated to an outside implementation behind a trusted
//! wrapper whose contract states the exact output, `spec_b64_encode`.
//! Decoding is implemented and verified here against `spec_b64_decode`,
//! and `lemma_b64_round_trip` proves that decoding inverts encoding.

use vstd::prelude::*;
use rustc_serialize::base64::ToBase64;

verus! {

/// The standard-alphabet byte for a 6-bit value (meaningful for `v < 64`).
pub open spec fn b64_byte_of(v: u8) -> u8 {
    if v < 26 {
        (65 + v) as u8  // 'A'..='Z'
    } else if v < 52 {
        (97 + (v - 26)) as u8  // 'a'..='z'
    } else if v < 62 {
        (48 + (v - 52)) as u8  // '0'..='9'
    } else if v == 62 {
        43u8  // '+'
    } else {
        47u8  // '/'
    }
}

/// Whether a byte belongs to the standard alphabet (excluding padding).
pub open spec fn is_b64_digit(c: u8) -> bool {
    (65 <= c && c <= 90) || (97 <= c && c <= 122) || (48 <= c && c <= 57) || c == 43 || c == 47
}

/// The 6-bit value of a standard-alphabet byte (meaningful when `is_b64_digit(c)`).
pub open spec fn b64_val_of(c: u8) -> u8 {
    if 65 <= c && c <= 90 {
        (c - 65) as u8
    } else if 97 <= c && c <= 122 {
        (c - 97 + 26) as u8
    } else if 48 <= c && c <= 57 {
        (c - 48 + 52) as u8
    } else if c == 43 {
        62u8
    } else {
        63u8
    }
}

/// Standard padded base64 encoding: groups of three bytes become four
/// alphabet bytes; a final group of one or two bytes is padded with `=` (61).
pub open spec fn spec_b64_encode(s: Seq<u8>) -> Seq<u8>
    decreases s.len(),
{
    if s.len() == 0 {
        Seq::<u8>::empty()
    } else if s.len() == 1 {
        let b0 = s[0];
        seq![b64_byte_of(b0 >> 2), b64_byte_of((b0 & 3) << 4), 61u8, 61u8]
    } else if s.len() == 2 {
        let b0 = s[0];
        let b1 = s[1];
        seq![
            b64_byte_of(b0 >> 2),
            b64_byte_of(((b0 & 3) << 4) | (b1 >> 4)),
            b64_byte_of((b1 & 15) << 2),
            61u8,
        ]
    } else {
        let b0 = s[0];
        let b1 = s[1];
        let b2 = s[2];
        seq![
            b64_byte_of(b0 >> 2),
            b64_byte_of(((b0 & 3) << 4) | (b1 >> 4)),
            b64_byte_of(((b1 & 15) << 2) | (b2 >> 6)),
            b64_byte_of(b2 & 63),
        ] + spec_b64_encode(s.skip(3))
    }
}

/// Standard padded base64 decoding: `None` on anything that is not a
/// well-formed encoding (wrong length, byte outside the alphabet, or
/// padding anywhere but at the very end).
pub open spec fn spec_b64_decode(s: Seq<u8>) -> Option<Seq<u8>>
    decreases s.len(),
{
    if s.len() == 0 {
        Some(Seq::<u8>::empty())
    } else if s.len() < 4 {
        None
    } else {
        let c0 = s[0];
        let c1 = s[1];
        let c2 = s[2];
        let c3 = s[3];
        if !is_b64_digit(c0) || !is_b64_digit(c1) {
            None
        } else {
            let v0 = b64_val_of(c0);
            let v1 = b64_val_of(c1);
            if c2 == 61 && c3 == 61 {
                if s.len() == 4 {
                    Some(seq![(v0 << 2) | (v1 >> 4)])
                } else {
                    None
                }
            } else if c3 == 61 {
                if is_b64_digit(c2) && s.len() == 4 {
                    let v2 = b64_val_of(c2);
                    Some(seq![(v0 << 2) | (v1 >> 4), (v1 << 4) | (v2 >> 2)])
                } else {
                    None
                }
            } else if is_b64_digit(c2) && is_b64_digit(c3) {
                let v2 = b64_val_of(c2);
                let v3 = b64_val_of(c3);
                match spec_b64_decode(s.skip(4)) {
                    Some(rest) => Some(
                        seq![(v0 << 2) | (v1 >> 4), (v1 << 4) | (v2 >> 2), (v2 << 6) | v3] + rest,
                    ),
                    None => None,
                }
            } else {
                None
            }
        }
    }
}

/// The sequence of bytes an `Option<Vec<u8>>` holds, if any.
pub open spec fn opt_bytes_view(o: Option<Vec<u8>>) -> Option<Seq<u8>> {
    match o {
        Some(v) => Some(v@),
        None => None,
    }
}

/// Relies on rustc_serialize's `ToBase64` for byte slices, configured with
/// the standard character set, padding on and no line wrapping: the output
/// is the standard padded base64 encoding of the input.
#[verifier::external_body]
pub fn b64_encode(data: &[u8]) -> (r: Vec<u8>)
    ensures
        r@ == spec_b64_encode(data@),
{
    let cfg = rustc_serialize::base64::Config {
        char_set: rustc_serialize::base64::CharacterSet::Standard,
        newline: rustc_serialize::base64::Newline::LF,
        pad: true,
        line_length: None,
    };
    data.to_base64(cfg).into_bytes()
}

fn is_digit_x(c: u8) -> (r: bool)
    ensures
        r == is_b64_digit(c),
{
    (65 <= c && c <= 90) || (97 <= c && c <= 122) || (48 <= c && c <= 57) || c == 43 || c == 47
}

fn val_x(c: u8) -> (r: u8)
    ensures
        r == b64_val_of(c),
{
    if 65 <= c && c <= 90 {
        c - 65
    } else if 97 <= c && c <= 122 {
        c - 97 + 26
    } else if 48 <= c && c <= 57 {
        c - 48 + 52
    } else if c == 43 {
        62
    } else {
        63
    }
}

/// Decode standard padded base64; `None` exactly on inputs that
/// `spec_b64_decode` rejects.
pub fn b64_decode(s: &[u8]) -> (r: Option<Vec<u8>>)
    ensures
        opt_bytes_view(r) == spec_b64_decode(s@),
    decreases s@.len(),
{
    let n = s.len();
    if n == 0 {
        let out: Vec<u8> = Vec::new();
        assert(out@ =~= Seq::<u8>::empty());
        return Some(out);
    }
    if n < 4 {
        return None;
    }
    let c0 = s[0];
    let c1 = s[1];
    let c2 = s[2];
    let c3 = s[3];
    if !is_digit_x(c0) || !is_digit_x(c1) {
        return None;
    }
    let v0 = val_x(c0);
    let v1 = val_x(c1);
    if c2 == 61 && c3 == 61 {
        if n == 4 {
            return Some(vec![(v0 << 2) | (v1 >> 4)]);
        } else {
            return None;
        }
    }
    if c3 == 61 {
        if is_digit_x(c2) && n == 4 {
            let v2 = val_x(c2);
            return Some(vec![(v0 << 2) | (v1 >> 4), (v1 << 4) | (v2 >> 2)]);
        } else {
            return None;
        }
    }
    if is_digit_x(c2) && is_digit_x(c3) {
        let v2 = val_x(c2);
        let v3 = val_x(c3);
        assert(s@.skip(4) =~= s@.subrange(4, n as int));
        match b64_decode(vstd::slice::slice_subrange(s, 4, n)) {
            Some(mut rest) => {
                let mut out: Vec<u8> = vec![
                    (v0 << 2) | (v1 >> 4),
                    (v1 << 4) | (v2 >> 2),
                    (v2 << 6) | v3,
                ];
                out.append(&mut rest);
                return Some(out);
            },
            None => {
                return None;
            },
        }
    }
    None
}

/// For every 6-bit value, the alphabet byte is in the alphabet, is not the
/// padding byte, and maps back to the value.
proof fn lemma_b64_byte_of(v: u8)
    requires
        v < 64,
    ensures
        is_b64_digit(b64_byte_of(v)),
        b64_byte_of(v) != 61,
        b64_val_of(b64_byte_of(v)) == v,
{
}

/// Every byte of an encoding is an alphabet byte or the padding byte; in
/// particular no encoding contains a quote character.
pub proof fn lemma_b64_encode_chars(b: Seq<u8>)
    ensures
        forall|i: int|
            0 <= i < spec_b64_encode(b).len() ==> (is_b64_digit(#[trigger] spec_b64_encode(b)[i])
                || spec_b64_encode(b)[i] == 61),
    decreases b.len(),
{
    if b.len() == 0 {
    } else if b.len() == 1 {
        let b0 = b[0];
        assert(b0 >> 2 < 64 && (b0 & 3) << 4 < 64) by (bit_vector);
        lemma_b64_byte_of(b0 >> 2);
        lemma_b64_byte_of((b0 & 3) << 4);
    } else if b.len() == 2 {
        let b0 = b[0];
        let b1 = b[1];
        assert(b0 >> 2 < 64 && (((b0 & 3) << 4) | (b1 >> 4)) < 64 && (b1 & 15) << 2 < 64)
            by (bit_vector);
        lemma_b64_byte_of(b0 >> 2);
        lemma_b64_byte_of(((b0 & 3) << 4) | (b1 >> 4));
        lemma_b64_byte_of((b1 & 15) << 2);
    } else {
        let b0 = b[0];
        let b1 = b[1];
        let b2 = b[2];
        assert(b0 >> 2 < 64 && (((b0 & 3) << 4) | (b1 >> 4)) < 64 && (((b1 & 15) << 2) | (b2
            >> 6)) < 64 && (b2 & 63) < 64) by (bit_vector);
        lemma_b64_byte_of(b0 >> 2);
        lemma_b64_byte_of(((b0 & 3) << 4) | (b1 >> 4));
        lemma_b64_byte_of(((b1 & 15) << 2) | (b2 >> 6));
        lemma_b64_byte_of(b2 & 63);
        lemma_b64_encode_chars(b.skip(3));
        assert(spec_b64_encode(b).skip(4) =~= spec_b64_encode(b.skip(3)));
        assert forall|i: int| 0 <= i < spec_b64_encode(b).len() implies (is_b64_digit(
            #[trigger] spec_b64_encode(b)[i],
        ) || spec_b64_encode(b)[i] == 61) by {
            if i >= 4 {
                assert(spec_b64_encode(b)[i] == spec_b64_encode(b.skip(3))[i - 4]);
            }
        }
    }
}

/// Decoding inverts encoding: the codec loses nothing on any byte sequence.
pub proof fn lemma_b64_round_trip(b: Seq<u8>)
    ensures
        spec_b64_decode(spec_b64_encode(b)) == Some(b),
    decreases b.len(),
{
    if b.len() == 0 {
        assert(spec_b64_encode(b) =~= Seq::<u8>::empty());
        assert(spec_b64_decode(spec_b64_encode(b)) == Some(Seq::<u8>::empty()));
        assert(Seq::<u8>::empty() =~= b);
    } else if b.len() == 1 {
        let b0 = b[0];
        assert(b0 >> 2 < 64 && (b0 & 3) << 4 < 64) by (bit_vector);
        lemma_b64_byte_of(b0 >> 2);
        lemma_b64_byte_of((b0 & 3) << 4);
        let v0 = b64_val_of(b64_byte_of(b0 >> 2));
        let v1 = b64_val_of(b64_byte_of((b0 & 3) << 4));
        assert((((b0 >> 2) << 2) | (((b0 & 3) << 4) >> 4)) == b0) by (bit_vector);
        assert(seq![(v0 << 2) | (v1 >> 4)] =~= b);
    } else if b.len() == 2 {
        let b0 = b[0];
        let b1 = b[1];
        assert(b0 >> 2 < 64 && (((b0 & 3) << 4) | (b1 >> 4)) < 64 && (b1 & 15) << 2 < 64)
            by (bit_vector);
        lemma_b64_byte_of(b0 >> 2);
        lemma_b64_byte_of(((b0 & 3) << 4) | (b1 >> 4));
        lemma_b64_byte_of((b1 & 15) << 2);
        let v0 = b64_val_of(b64_byte_of(b0 >> 2));
        let v1 = b64_val_of(b64_byte_of(((b0 & 3) << 4) | (b1 >> 4)));
        let v2 = b64_val_of(b64_byte_of((b1 & 15) << 2));
        assert((((b0 >> 2) << 2) | ((((b0 & 3) << 4) | (b1 >> 4)) >> 4)) == b0) by (bit_vector);
        assert((((((b0 & 3) << 4) | (b1 >> 4)) << 4) | (((b1 & 15) << 2) >> 2)) == b1)
            by (bit_vector);
        assert(seq![(v0 << 2) | (v1 >> 4), (v1 << 4) | (v2 >> 2)] =~= b);
    } else {
        let b0 = b[0];
        let b1 = b[1];
        let b2 = b[2];
        assert(b0 >> 2 < 64 && (((b0 & 3) << 4) | (b1 >> 4)) < 64 && (((b1 & 15) << 2) | (b2
            >> 6)) < 64 && (b2 & 63) < 64) by (bit_vector);
        lemma_b64_byte_of(b0 >> 2);
        lemma_b64_byte_of(((b0 & 3) << 4) | (b1 >> 4));
        lemma_b64_byte_of(((b1 & 15) << 2) | (b2 >> 6));
        lemma_b64_byte_of(b2 & 63);
        let e = spec_b64_encode(b);
        assert(e.skip(4) =~= spec_b64_encode(b.skip(3)));
        lemma_b64_round_trip(b.skip(3));
        let v0 = b64_val_of(b64_byte_of(b0 >> 2));
        let v1 = b64_val_of(b64_byte_of(((b0 & 3) << 4) | (b1 >> 4)));
        let v2 = b64_val_of(b64_byte_of(((b1 & 15) << 2) | (b2 >> 6)));
        let v3 = b64_val_of(b64_byte_of(b2 & 63));
        assert((((b0 >> 2) << 2) | ((((b0 & 3) << 4) | (b1 >> 4)) >> 4)) == b0) by (bit_vector);
        assert((((((b0 & 3) << 4) | (b1 >> 4)) << 4) | (((((b1 & 15) << 2) | (b2 >> 6))) >> 2))
            == b1) by (bit_vector);
        assert((((((b1 & 15) << 2) | (b2 >> 6)) << 6) | (b2 & 63)) == b2) by (bit_vector);
        assert(seq![(v0 << 2) | (v1 >> 4), (v1 << 4) | (v2 >> 2), (v2 << 6) | v3] + b.skip(3)
            =~= b);
    }
}

} // verus!
