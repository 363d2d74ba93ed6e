//! Decimal rendering and parsing of integers, as the `ts` attribute and the
//! canonical string's timestamp and port lines use them.

use vstd::prelude::*;
use vstd::arithmetic::div_mod::lemma_fundamental_div_mod;

verus! {

/// Decimal digit bytes of a non-negative integer, most significant first.
pub open spec fn spec_dec_digits(n: int) -> Seq<u8>
    decreases n,
{
    if n < 10 {
        seq![(48 + n) as u8]
    } else {
        spec_dec_digits(n / 10) + seq![(48 + n % 10) as u8]
    }
}

/// Decimal rendering of an integer: a leading `-` (45) for negatives.
pub open spec fn spec_i64_dec(v: int) -> Seq<u8> {
    if v < 0 {
        seq![45u8] + spec_dec_digits(-v)
    } else {
        spec_dec_digits(v)
    }
}

pub open spec fn is_dec_digit(c: u8) -> bool {
    48 <= c && c <= 57
}

pub open spec fn all_dec_digits(s: Seq<u8>) -> bool {
    forall|i: int| 0 <= i < s.len() ==> is_dec_digit(#[trigger] s[i])
}

/// The integer a digit string denotes.
pub open spec fn dec_val(s: Seq<u8>) -> int
    decreases s.len(),
{
    if s.len() == 0 {
        0
    } else {
        dec_val(s.take(s.len() - 1)) * 10 + (s[s.len() - 1] - 48)
    }
}

/// What timestamp parsing accepts: an optional `+`/`-` sign followed by one
/// or more decimal digits, denoting a value that fits in an `i64`.
pub open spec fn spec_parse_i64(s: Seq<u8>) -> Option<int> {
    let neg = s.len() > 0 && s[0] == 45;
    let digs = if s.len() > 0 && (s[0] == 45 || s[0] == 43) {
        s.skip(1)
    } else {
        s
    };
    if digs.len() == 0 || !all_dec_digits(digs) {
        None
    } else {
        let v = if neg {
            -dec_val(digs)
        } else {
            dec_val(digs)
        };
        if i64::MIN <= v <= i64::MAX {
            Some(v)
        } else {
            None
        }
    }
}

/// Render a `u64` in decimal.
pub fn u64_dec(n: u64) -> (r: Vec<u8>)
    ensures
        r@ == spec_dec_digits(n as int),
    decreases n,
{
    if n < 10 {
        vec![48 + (n as u8)]
    } else {
        let mut v = u64_dec(n / 10);
        v.push(48 + ((n % 10) as u8));
        v
    }
}

/// Render an `i64` in decimal, with a leading `-` for negatives.
pub fn i64_dec(v: i64) -> (r: Vec<u8>)
    ensures
        r@ == spec_i64_dec(v as int),
{
    if v >= 0 {
        u64_dec(v as u64)
    } else {
        let m: u64 = ((-(v + 1)) as u64) + 1;
        assert(m as int == -(v as int));
        let mut out: Vec<u8> = vec![45];
        let mut d = u64_dec(m);
        out.append(&mut d);
        assert(out@ =~= spec_i64_dec(v as int));
        out
    }
}

/// Parse an optionally signed decimal `i64`, exactly as `spec_parse_i64`
/// describes: `None` on an empty digit string, a non-digit, or overflow.
pub fn parse_i64(s: &[u8]) -> (r: Option<i64>)
    ensures
        match r {
            Some(v) => spec_parse_i64(s@) == Some(v as int),
            None => spec_parse_i64(s@) is None,
        },
{
    let n = s.len();
    let mut i: usize = 0;
    let mut neg = false;
    if n > 0 && (s[0] == 45 || s[0] == 43) {
        neg = s[0] == 45;
        i = 1;
    }
    let start = i;
    let ghost digs = if s@.len() > 0 && (s@[0] == 45 || s@[0] == 43) {
        s@.skip(1)
    } else {
        s@
    };
    proof {
        assert(digs =~= s@.subrange(start as int, n as int));
    }
    if i >= n {
        return None;
    }
    let mut mag: u64 = 0;
    let mut too_big = false;
    while i < n
        invariant
            start <= i <= n,
            n == s@.len(),
            digs =~= s@.subrange(start as int, n as int),
            digs == (if s@.len() > 0 && (s@[0] == 45 || s@[0] == 43) {
                s@.skip(1)
            } else {
                s@
            }),
            neg == (s@.len() > 0 && s@[0] == 45),
            all_dec_digits(s@.subrange(start as int, i as int)),
            !too_big ==> mag as int == dec_val(s@.subrange(start as int, i as int)) && mag
                <= 0x8000_0000_0000_0000u64,
            too_big ==> dec_val(s@.subrange(start as int, i as int)) > 0x8000_0000_0000_0000u64,
        decreases n - i,
    {
        let c = s[i];
        if c < 48 || c > 57 {
            proof {
                assert(digs[i - start] == c);
                assert(!all_dec_digits(digs));
            }
            return None;
        }
        let d = c - 48;
        proof {
            let pre = s@.subrange(start as int, i as int);
            let post = s@.subrange(start as int, i + 1);
            assert(post.take(post.len() - 1) =~= pre);
            assert(post[post.len() - 1] == c);
            assert(dec_val(post) == dec_val(pre) * 10 + d);
        }
        if too_big {
            // the denoted value only grows as digits are appended
        } else {
            if mag > (u64::MAX - 9) / 10 {
                too_big = true;
            } else {
                mag = mag * 10 + (d as u64);
                if mag > 0x8000_0000_0000_0000u64 {
                    too_big = true;
                }
            }
        }
        i += 1;
    }
    proof {
        assert(s@.subrange(start as int, n as int) =~= digs);
    }
    if too_big {
        return None;
    }
    if neg {
        if mag == 0x8000_0000_0000_0000u64 {
            Some(i64::MIN)
        } else {
            Some(-(mag as i64))
        }
    } else {
        if mag >= 0x8000_0000_0000_0000u64 {
            None
        } else {
            Some(mag as i64)
        }
    }
}

/// The decimal digits of a non-negative integer are digits, begin with no
/// sign, and denote the integer itself.
pub proof fn lemma_dec_digits(n: int)
    requires
        n >= 0,
    ensures
        all_dec_digits(spec_dec_digits(n)),
        dec_val(spec_dec_digits(n)) == n,
        spec_dec_digits(n).len() >= 1,
    decreases n,
{
    if n < 10 {
        let s = spec_dec_digits(n);
        assert(s.take(s.len() - 1) =~= Seq::<u8>::empty());
        assert(s[0] == (48 + n) as u8);
        assert(s[s.len() - 1] - 48 == n);
        assert(dec_val(s) == dec_val(s.take(s.len() - 1)) * 10 + (s[s.len() - 1] - 48));
    } else {
        lemma_dec_digits(n / 10);
        lemma_fundamental_div_mod(n, 10);
        let s = spec_dec_digits(n);
        assert(s.take(s.len() - 1) =~= spec_dec_digits(n / 10));
        assert(dec_val(s) == (n / 10) * 10 + n % 10);
    }
}

/// Parsing inverts rendering for every `i64`, and a rendering consists of
/// decimal digits with at most a leading `-`.
pub proof fn lemma_i64_dec_round_trip(v: int)
    requires
        i64::MIN <= v <= i64::MAX,
    ensures
        spec_parse_i64(spec_i64_dec(v)) == Some(v),
        forall|i: int|
            0 <= i < spec_i64_dec(v).len() ==> (#[trigger] spec_i64_dec(v)[i] == 45
                || is_dec_digit(spec_i64_dec(v)[i])),
{
    if v >= 0 {
        lemma_dec_digits(v);
        let s = spec_i64_dec(v);
        assert(is_dec_digit(s[0]));
        assert(s[0] != 45 && s[0] != 43);
    } else {
        lemma_dec_digits(-v);
        let s = spec_i64_dec(v);
        assert(s[0] == 45);
        assert(s.skip(1) =~= spec_dec_digits(-v));
    }
}

} // verus!
