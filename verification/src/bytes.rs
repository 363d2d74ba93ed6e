//! Small byte-sequence helpers shared by the codec: quote-freedom (the
//! invariant of header components) and verified slice comparison.

use vstd::prelude::*;

verus! {

/// The view of an optional byte vector.
pub open spec fn opt_view(o: Option<Vec<u8>>) -> Option<Seq<u8>> {
    match o {
        Some(v) => Some(v@),
        None => None,
    }
}

/// No quote character (byte 34) anywhere: the invariant every textual header
/// component must satisfy, since values are wrapped in quotes unescaped.
pub open spec fn quote_free(s: Seq<u8>) -> bool {
    forall|i: int| 0 <= i < s.len() ==> #[trigger] s[i] != 34
}

/// Quote-freedom of an optional component: absent components are fine.
pub open spec fn opt_quote_free(o: Option<Seq<u8>>) -> bool {
    match o {
        Some(s) => quote_free(s),
        None => true,
    }
}

/// Whether a byte slice contains no quote character.
pub fn is_quote_free(s: &[u8]) -> (r: bool)
    ensures
        r == quote_free(s@),
{
    let mut i: usize = 0;
    while i < s.len()
        invariant
            0 <= i <= s@.len(),
            forall|k: int| 0 <= k < i ==> #[trigger] s@[k] != 34,
        decreases s@.len() - i,
    {
        if s[i] == 34 {
            return false;
        }
        i += 1;
    }
    true
}

/// Byte-slice equality, byte for byte.
pub fn bytes_eq(a: &[u8], b: &[u8]) -> (r: bool)
    ensures
        r == (a@ == b@),
{
    if a.len() != b.len() {
        return false;
    }
    let mut i: usize = 0;
    while i < a.len()
        invariant
            0 <= i <= a@.len(),
            a@.len() == b@.len(),
            forall|k: int| 0 <= k < i ==> a@[k] == b@[k],
        decreases a@.len() - i,
    {
        if a[i] != b[i] {
            return false;
        }
        i += 1;
    }
    proof {
        assert(a@ =~= b@);
    }
    true
}

} // verus!
