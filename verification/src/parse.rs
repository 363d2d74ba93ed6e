//! The header parser: wire text back into a structured header value,
//! following the attribute grammar exactly.
//!
//! The grammar: a case-insensitive `hawk` keyword and one space, then
//! attributes `name="value"` separated by runs of whitespace and commas,
//! with insignificant whitespace around the name and the `=`, values
//! quoted with no escaping, names from a closed set, `ts` a decimal
//! integer, `mac` and `hash` standard base64.

use vstd::prelude::*;
use vstd::slice::{slice_subrange, slice_to_vec};
use crate::base64::{b64_decode, spec_b64_decode};
use crate::bytes::{bytes_eq, opt_quote_free, opt_view, quote_free};
use crate::num::{parse_i64, spec_parse_i64};
use crate::scheme::{
    app_name, attr_chunk, dlg_name, ext_name, hash_name, hawk_prefix, id_name, mac_name,
    nonce_name, opt_b64, opt_chunk, spec_header_value, ts_name, view_wf, Error, HawkScheme,
    SchemeView,
};

verus! {

/// ASCII whitespace, as the separator grammar counts it.
pub open spec fn is_ws(b: u8) -> bool {
    b == 32 || b == 9 || b == 10 || b == 11 || b == 12 || b == 13
}

/// A separator byte between attributes: a comma or whitespace.
pub open spec fn is_sep(b: u8) -> bool {
    b == 44 || is_ws(b)
}

/// ASCII lower-casing of one byte.
pub open spec fn lower(b: u8) -> u8 {
    if 65 <= b && b <= 90 {
        (b + 32) as u8
    } else {
        b
    }
}

/// The index of the first non-separator at or after `i`.
pub open spec fn seps_end(s: Seq<u8>, i: int) -> int
    decreases s.len() - i,
{
    if i < s.len() && is_sep(s[i]) {
        seps_end(s, i + 1)
    } else {
        i
    }
}

/// The index of the first non-whitespace at or after `i`.
pub open spec fn ws_end(s: Seq<u8>, i: int) -> int
    decreases s.len() - i,
{
    if i < s.len() && is_ws(s[i]) {
        ws_end(s, i + 1)
    } else {
        i
    }
}

/// The end of `[i, j)` with trailing whitespace removed.
pub open spec fn rtrim(s: Seq<u8>, i: int, j: int) -> int
    decreases j - i,
{
    if j > i && is_ws(s[j - 1]) {
        rtrim(s, i, j - 1)
    } else {
        j
    }
}

/// The index of the first occurrence of `b` at or after `i`, or the length.
pub open spec fn find_at(s: Seq<u8>, i: int, b: u8) -> int
    decreases s.len() - i,
{
    if i >= s.len() {
        s.len() as int
    } else if s[i] == b {
        i
    } else {
        find_at(s, i + 1, b)
    }
}

pub proof fn lemma_seps_end_props(s: Seq<u8>, i: int)
    requires
        0 <= i <= s.len(),
    ensures
        i <= seps_end(s, i) <= s.len(),
        forall|k: int| i <= k < seps_end(s, i) ==> is_sep(#[trigger] s[k]),
        seps_end(s, i) < s.len() ==> !is_sep(s[seps_end(s, i)]),
    decreases s.len() - i,
{
    if i < s.len() && is_sep(s[i]) {
        lemma_seps_end_props(s, i + 1);
    }
}

pub proof fn lemma_ws_end_props(s: Seq<u8>, i: int)
    requires
        0 <= i <= s.len(),
    ensures
        i <= ws_end(s, i) <= s.len(),
        forall|k: int| i <= k < ws_end(s, i) ==> is_ws(#[trigger] s[k]),
        ws_end(s, i) < s.len() ==> !is_ws(s[ws_end(s, i)]),
    decreases s.len() - i,
{
    if i < s.len() && is_ws(s[i]) {
        lemma_ws_end_props(s, i + 1);
    }
}

pub proof fn lemma_find_at_props(s: Seq<u8>, i: int, b: u8)
    requires
        0 <= i <= s.len(),
    ensures
        i <= find_at(s, i, b) <= s.len(),
        forall|k: int| i <= k < find_at(s, i, b) ==> #[trigger] s[k] != b,
        find_at(s, i, b) < s.len() ==> s[find_at(s, i, b)] == b,
    decreases s.len() - i,
{
    if i < s.len() && s[i] != b {
        lemma_find_at_props(s, i + 1, b);
    }
}

/// A run of separators over `[i, k)` followed by a non-separator ends there.
pub proof fn lemma_seps_end_run(s: Seq<u8>, i: int, k: int)
    requires
        0 <= i <= k <= s.len(),
        forall|j: int| i <= j < k ==> is_sep(#[trigger] s[j]),
        k == s.len() || !is_sep(s[k]),
    ensures
        seps_end(s, i) == k,
    decreases k - i,
{
    if i < k {
        lemma_seps_end_run(s, i + 1, k);
    }
}

/// If `b` does not occur in `[i, k)` and occurs at `k`, the find stops at `k`.
pub proof fn lemma_find_at_run(s: Seq<u8>, i: int, k: int, b: u8)
    requires
        0 <= i <= k <= s.len(),
        forall|j: int| i <= j < k ==> #[trigger] s[j] != b,
        k == s.len() || s[k] == b,
    ensures
        find_at(s, i, b) == k,
    decreases k - i,
{
    if i < k {
        lemma_find_at_run(s, i + 1, k, b);
    }
}

fn is_ws_x(b: u8) -> (r: bool)
    ensures
        r == is_ws(b),
{
    b == 32 || b == 9 || b == 10 || b == 11 || b == 12 || b == 13
}

fn is_sep_x(b: u8) -> (r: bool)
    ensures
        r == is_sep(b),
{
    b == 44 || is_ws_x(b)
}

fn lower_x(b: u8) -> (r: u8)
    ensures
        r == lower(b),
{
    if 65 <= b && b <= 90 {
        b + 32
    } else {
        b
    }
}

fn seps_end_x(s: &[u8], i: usize) -> (r: usize)
    requires
        i <= s@.len(),
    ensures
        r as int == seps_end(s@, i as int),
        i <= r <= s@.len(),
    decreases s@.len() - i,
{
    if i < s.len() && is_sep_x(s[i]) {
        seps_end_x(s, i + 1)
    } else {
        i
    }
}

fn ws_end_x(s: &[u8], i: usize) -> (r: usize)
    requires
        i <= s@.len(),
    ensures
        r as int == ws_end(s@, i as int),
        i <= r <= s@.len(),
    decreases s@.len() - i,
{
    if i < s.len() && is_ws_x(s[i]) {
        ws_end_x(s, i + 1)
    } else {
        i
    }
}

fn rtrim_x(s: &[u8], i: usize, j: usize) -> (r: usize)
    requires
        i <= j <= s@.len(),
    ensures
        r as int == rtrim(s@, i as int, j as int),
        i <= r <= j,
    decreases j - i,
{
    if j > i && is_ws_x(s[j - 1]) {
        rtrim_x(s, i, j - 1)
    } else {
        j
    }
}

fn find_at_x(s: &[u8], i: usize, b: u8) -> (r: usize)
    requires
        i <= s@.len(),
    ensures
        r as int == find_at(s@, i as int, b),
        i <= r <= s@.len(),
    decreases s@.len() - i,
{
    if i >= s.len() {
        s.len()
    } else if s[i] == b {
        i
    } else {
        find_at_x(s, i + 1, b)
    }
}

/// The attributes collected so far during a scan.
pub struct AttrsV {
    pub id: Option<Seq<u8>>,
    pub ts: Option<int>,
    pub nonce: Option<Seq<u8>>,
    pub mac: Option<Seq<u8>>,
    pub ext: Option<Seq<u8>>,
    pub hash: Option<Seq<u8>>,
    pub app: Option<Seq<u8>>,
    pub dlg: Option<Seq<u8>>,
}

struct Attrs {
    id: Option<Vec<u8>>,
    ts: Option<i64>,
    nonce: Option<Vec<u8>>,
    mac: Option<Vec<u8>>,
    ext: Option<Vec<u8>>,
    hash: Option<Vec<u8>>,
    app: Option<Vec<u8>>,
    dlg: Option<Vec<u8>>,
}

impl View for Attrs {
    type V = AttrsV;

    closed spec fn view(&self) -> AttrsV {
        AttrsV {
            id: opt_view(self.id),
            ts: match self.ts {
                Some(t) => Some(t as int),
                None => None,
            },
            nonce: opt_view(self.nonce),
            mac: opt_view(self.mac),
            ext: opt_view(self.ext),
            hash: opt_view(self.hash),
            app: opt_view(self.app),
            dlg: opt_view(self.dlg),
        }
    }
}

/// No attribute collected yet.
pub open spec fn empty_attrs() -> AttrsV {
    AttrsV {
        id: None,
        ts: None,
        nonce: None,
        mac: None,
        ext: None,
        hash: None,
        app: None,
        dlg: None,
    }
}

/// Quote-freedom of the textual attributes collected so far.
pub open spec fn attrs_quote_free(a: AttrsV) -> bool {
    &&& opt_quote_free(a.id)
    &&& opt_quote_free(a.nonce)
    &&& opt_quote_free(a.ext)
    &&& opt_quote_free(a.app)
    &&& opt_quote_free(a.dlg)
}

/// Record one parsed attribute: a later occurrence replaces an earlier one;
/// `ts` must be a decimal integer, `mac` and `hash` standard base64, and the
/// name must belong to the closed set.
pub open spec fn apply_attr(acc: AttrsV, name: Seq<u8>, val: Seq<u8>) -> Result<AttrsV, Error> {
    if name == id_name() {
        Ok(AttrsV { id: Some(val), ..acc })
    } else if name == ts_name() {
        match spec_parse_i64(val) {
            Some(t) => Ok(AttrsV { ts: Some(t), ..acc }),
            None => Err(Error::InvalidTimestamp),
        }
    } else if name == nonce_name() {
        Ok(AttrsV { nonce: Some(val), ..acc })
    } else if name == mac_name() {
        match spec_b64_decode(val) {
            Some(m) => Ok(AttrsV { mac: Some(m), ..acc }),
            None => Err(Error::Base64DecodeError),
        }
    } else if name == ext_name() {
        Ok(AttrsV { ext: Some(val), ..acc })
    } else if name == hash_name() {
        match spec_b64_decode(val) {
            Some(h) => Ok(AttrsV { hash: Some(h), ..acc }),
            None => Err(Error::Base64DecodeError),
        }
    } else if name == app_name() {
        Ok(AttrsV { app: Some(val), ..acc })
    } else if name == dlg_name() {
        Ok(AttrsV { dlg: Some(val), ..acc })
    } else {
        Err(Error::UnknownAttribute)
    }
}

#[via_fn]
proof fn spec_scan_decreases(s: Seq<u8>, i: int, acc: AttrsV) {
    if 0 <= i <= s.len() {
        lemma_seps_end_props(s, i);
        let j = seps_end(s, i);
        if j < s.len() {
            lemma_find_at_props(s, j, 61);
            let eq = find_at(s, j, 61);
            if eq < s.len() {
                lemma_ws_end_props(s, eq + 1);
                let vs = ws_end(s, eq + 1);
                if vs < s.len() && s[vs] == 34 {
                    lemma_find_at_props(s, vs + 1, 34);
                }
            }
        }
    }
}

/// One pass over the attribute list from index `i`: skip separators, read
/// `name="value"`, record it, continue after the closing quote.
pub open spec fn spec_scan(s: Seq<u8>, i: int, acc: AttrsV) -> Result<AttrsV, Error>
    decreases s.len() - i,
    when 0 <= i <= s.len()
    via spec_scan_decreases
{
    let j = seps_end(s, i);
    if j >= s.len() {
        Ok(acc)
    } else {
        let eq = find_at(s, j, 61);
        if eq >= s.len() {
            Err(Error::SchemeParseError)
        } else {
            let name = s.subrange(j, rtrim(s, j, eq));
            let vs = ws_end(s, eq + 1);
            if vs >= s.len() || s[vs] != 34 {
                Err(Error::SchemeParseError)
            } else {
                let q = find_at(s, vs + 1, 34);
                if q >= s.len() {
                    Err(Error::SchemeParseError)
                } else {
                    let val = s.subrange(vs + 1, q);
                    match apply_attr(acc, name, val) {
                        Ok(acc2) => spec_scan(s, q + 1, acc2),
                        Err(e) => Err(e),
                    }
                }
            }
        }
    }
}

/// Separator runs before an attribute are insignificant: scanning from a
/// position and from the end of the separator run it starts with give the
/// same result, so extra commas and whitespace between attributes change
/// nothing.
pub proof fn lemma_scan_separator_insensitive(s: Seq<u8>, i: int, acc: AttrsV)
    requires
        0 <= i <= s.len(),
    ensures
        spec_scan(s, i, acc) == spec_scan(s, seps_end(s, i), acc),
{
    lemma_seps_end_props(s, i);
    let j = seps_end(s, i);
    assert(seps_end(s, j) == j);
}

/// An attribute list that ends in separators ends the scan: trailing
/// commas and whitespace are accepted, not errors.
pub proof fn lemma_scan_trailing_separators(s: Seq<u8>, i: int, acc: AttrsV)
    requires
        0 <= i <= s.len(),
        forall|j: int| i <= j < s.len() ==> is_sep(#[trigger] s[j]),
    ensures
        spec_scan(s, i, acc) == Ok::<AttrsV, Error>(acc),
{
    lemma_seps_end_run(s, i, s.len() as int);
}

proof fn lemma_seps_end_agree(s: Seq<u8>, t: Seq<u8>, i: int)
    requires
        s.len() == t.len(),
        0 <= i <= s.len(),
        forall|k: int| i <= k < s.len() ==> s[k] == #[trigger] t[k],
    ensures
        seps_end(s, i) == seps_end(t, i),
    decreases s.len() - i,
{
    if i < s.len() && is_sep(s[i]) {
        lemma_seps_end_agree(s, t, i + 1);
    }
}

proof fn lemma_ws_end_agree(s: Seq<u8>, t: Seq<u8>, i: int)
    requires
        s.len() == t.len(),
        0 <= i <= s.len(),
        forall|k: int| i <= k < s.len() ==> s[k] == #[trigger] t[k],
    ensures
        ws_end(s, i) == ws_end(t, i),
    decreases s.len() - i,
{
    if i < s.len() && is_ws(s[i]) {
        lemma_ws_end_agree(s, t, i + 1);
    }
}

proof fn lemma_find_at_agree(s: Seq<u8>, t: Seq<u8>, i: int, b: u8)
    requires
        s.len() == t.len(),
        0 <= i <= s.len(),
        forall|k: int| i <= k < s.len() ==> s[k] == #[trigger] t[k],
    ensures
        find_at(s, i, b) == find_at(t, i, b),
    decreases s.len() - i,
{
    if i < s.len() && s[i] != b {
        lemma_find_at_agree(s, t, i + 1, b);
    }
}

proof fn lemma_rtrim_agree(s: Seq<u8>, t: Seq<u8>, i: int, j: int)
    requires
        s.len() == t.len(),
        0 <= i <= j <= s.len(),
        forall|k: int| i <= k < s.len() ==> s[k] == #[trigger] t[k],
    ensures
        rtrim(s, i, j) == rtrim(t, i, j),
        i <= rtrim(s, i, j) <= j,
    decreases j - i,
{
    if j > i && is_ws(s[j - 1]) {
        lemma_rtrim_agree(s, t, i, j - 1);
    }
}

/// The scan never looks at anything before its starting position: on two
/// texts of one length that agree from that position on, it agrees too.
proof fn lemma_scan_agree(s: Seq<u8>, t: Seq<u8>, i: int, acc: AttrsV)
    requires
        s.len() == t.len(),
        0 <= i <= s.len(),
        forall|k: int| i <= k < s.len() ==> s[k] == #[trigger] t[k],
    ensures
        spec_scan(s, i, acc) == spec_scan(t, i, acc),
    decreases s.len() - i,
{
    lemma_seps_end_props(s, i);
    lemma_seps_end_agree(s, t, i);
    let j = seps_end(s, i);
    if j < s.len() {
        lemma_find_at_props(s, j, 61);
        lemma_find_at_agree(s, t, j, 61);
        let eq = find_at(s, j, 61);
        if eq < s.len() {
            lemma_rtrim_agree(s, t, j, eq);
            let ne = rtrim(s, j, eq);
            lemma_ws_end_props(s, eq + 1);
            lemma_ws_end_agree(s, t, eq + 1);
            let vs = ws_end(s, eq + 1);
            if vs < s.len() && s[vs] == 34 {
                lemma_find_at_props(s, vs + 1, 34);
                lemma_find_at_agree(s, t, vs + 1, 34);
                let q = find_at(s, vs + 1, 34);
                if q < s.len() {
                    assert(s.subrange(j, ne) =~= t.subrange(j, ne));
                    assert(s.subrange(vs + 1, q) =~= t.subrange(vs + 1, q));
                    match apply_attr(acc, s.subrange(j, ne), s.subrange(vs + 1, q)) {
                        Ok(acc2) => {
                            lemma_scan_agree(s, t, q + 1, acc2);
                        },
                        Err(_) => {},
                    }
                }
            }
        }
    }
}

/// The scheme keyword is matched case-insensitively and nothing else is:
/// two header texts that differ only in the case of the four keyword bytes
/// parse to the same result, while attribute names and values keep their
/// case because the rest of the text is the same.
pub proof fn lemma_keyword_case_insensitive(s: Seq<u8>, t: Seq<u8>)
    requires
        s.len() == t.len(),
        forall|k: int| 0 <= k < 4 && k < s.len() ==> lower(#[trigger] s[k]) == lower(t[k]),
        forall|k: int| 4 <= k < s.len() ==> s[k] == #[trigger] t[k],
    ensures
        spec_parse(s) == spec_parse(t),
{
    assert(scheme_ok(s) == scheme_ok(t));
    if scheme_ok(s) {
        lemma_scan_agree(s, t, 5, empty_attrs());
    }
}

/// Whether the input begins with the case-insensitive scheme keyword and
/// the single separating space.
pub open spec fn scheme_ok(s: Seq<u8>) -> bool {
    s.len() >= 5 && lower(s[0]) == 104 && lower(s[1]) == 97 && lower(s[2]) == 119 && lower(s[3])
        == 107 && s[4] == 32
}

/// The parse of a full header text.
pub open spec fn spec_parse(s: Seq<u8>) -> Result<SchemeView, Error> {
    if !scheme_ok(s) {
        Err(Error::UnsupportedScheme)
    } else {
        match spec_scan(s, 5, empty_attrs()) {
            Err(e) => Err(e),
            Ok(a) => match (a.id, a.ts, a.nonce, a.mac) {
                (Some(id), Some(ts), Some(nonce), Some(mac)) => Ok(
                    SchemeView {
                        id,
                        ts,
                        nonce,
                        mac,
                        ext: a.ext,
                        hash: a.hash,
                        app: a.app,
                        dlg: a.dlg,
                    },
                ),
                _ => Err(Error::MissingAttributes),
            },
        }
    }
}

fn apply_x(acc: Attrs, name: &[u8], val: Vec<u8>) -> (r: Result<Attrs, Error>)
    requires
        quote_free(val@),
        attrs_quote_free(acc@),
    ensures
        match r {
            Ok(a) => apply_attr(acc@, name@, val@) == Ok::<AttrsV, Error>(a@) && attrs_quote_free(
                a@,
            ),
            Err(e) => apply_attr(acc@, name@, val@) == Err::<AttrsV, Error>(e),
        },
{
    let n_id: Vec<u8> = vec![105, 100];
    let n_ts: Vec<u8> = vec![116, 115];
    let n_nonce: Vec<u8> = vec![110, 111, 110, 99, 101];
    let n_mac: Vec<u8> = vec![109, 97, 99];
    let n_ext: Vec<u8> = vec![101, 120, 116];
    let n_hash: Vec<u8> = vec![104, 97, 115, 104];
    let n_app: Vec<u8> = vec![97, 112, 112];
    let n_dlg: Vec<u8> = vec![100, 108, 103];
    if bytes_eq(name, n_id.as_slice()) {
        Ok(Attrs { id: Some(val), ..acc })
    } else if bytes_eq(name, n_ts.as_slice()) {
        match parse_i64(val.as_slice()) {
            Some(t) => Ok(Attrs { ts: Some(t), ..acc }),
            None => Err(Error::InvalidTimestamp),
        }
    } else if bytes_eq(name, n_nonce.as_slice()) {
        Ok(Attrs { nonce: Some(val), ..acc })
    } else if bytes_eq(name, n_mac.as_slice()) {
        match b64_decode(val.as_slice()) {
            Some(m) => Ok(Attrs { mac: Some(m), ..acc }),
            None => Err(Error::Base64DecodeError),
        }
    } else if bytes_eq(name, n_ext.as_slice()) {
        Ok(Attrs { ext: Some(val), ..acc })
    } else if bytes_eq(name, n_hash.as_slice()) {
        match b64_decode(val.as_slice()) {
            Some(h) => Ok(Attrs { hash: Some(h), ..acc }),
            None => Err(Error::Base64DecodeError),
        }
    } else if bytes_eq(name, n_app.as_slice()) {
        Ok(Attrs { app: Some(val), ..acc })
    } else if bytes_eq(name, n_dlg.as_slice()) {
        Ok(Attrs { dlg: Some(val), ..acc })
    } else {
        Err(Error::UnknownAttribute)
    }
}

fn scan(s: &[u8], i: usize, acc: Attrs) -> (r: Result<Attrs, Error>)
    requires
        i <= s@.len(),
        attrs_quote_free(acc@),
    ensures
        match r {
            Ok(a) => spec_scan(s@, i as int, acc@) == Ok::<AttrsV, Error>(a@) && attrs_quote_free(
                a@,
            ),
            Err(e) => spec_scan(s@, i as int, acc@) == Err::<AttrsV, Error>(e),
        },
    decreases s@.len() - i,
{
    let j = seps_end_x(s, i);
    if j >= s.len() {
        return Ok(acc);
    }
    let eq = find_at_x(s, j, 61);
    if eq >= s.len() {
        return Err(Error::SchemeParseError);
    }
    let ne = rtrim_x(s, j, eq);
    let vs = ws_end_x(s, eq + 1);
    if vs >= s.len() {
        return Err(Error::SchemeParseError);
    }
    if s[vs] != 34 {
        return Err(Error::SchemeParseError);
    }
    let q = find_at_x(s, vs + 1, 34);
    if q >= s.len() {
        return Err(Error::SchemeParseError);
    }
    let name = slice_subrange(s, j, ne);
    let val = slice_to_vec(slice_subrange(s, vs + 1, q));
    proof {
        lemma_find_at_props(s@, vs + 1, 34);
    }
    match apply_x(acc, name, val) {
        Ok(acc2) => scan(s, q + 1, acc2),
        Err(e) => Err(e),
    }
}

/// A run of whitespace over `[i, k)` followed by a non-whitespace ends there.
proof fn lemma_ws_end_run(s: Seq<u8>, i: int, k: int)
    requires
        0 <= i <= k <= s.len(),
        forall|j: int| i <= j < k ==> is_ws(#[trigger] s[j]),
        k == s.len() || !is_ws(s[k]),
    ensures
        ws_end(s, i) == k,
    decreases k - i,
{
    if i < k {
        lemma_ws_end_run(s, i + 1, k);
    }
}

/// Trimming `[a, e)` of trailing whitespace stops at `m` when everything in
/// `[m, e)` is whitespace and the byte before `m` is not.
proof fn lemma_rtrim_run(s: Seq<u8>, a: int, m: int, e: int)
    requires
        0 <= a < m <= e <= s.len(),
        forall|j: int| m <= j < e ==> is_ws(#[trigger] s[j]),
        !is_ws(s[m - 1]),
    ensures
        rtrim(s, a, e) == m,
    decreases e - m,
{
    if e > m {
        lemma_rtrim_run(s, a, m, e - 1);
    }
}

/// Whitespace around an attribute is insignificant: scanning at a position
/// that holds a run of separators, then one attribute with whitespace runs
/// after the name and after the `=`, records the attribute exactly as the
/// tightly packed form does, whatever stands before or after it in the
/// list and whatever was already collected.
pub proof fn lemma_scan_attr_ws(
    s: Seq<u8>,
    i: int,
    acc: AttrsV,
    nsep: int,
    name: Seq<u8>,
    ws1: Seq<u8>,
    ws2: Seq<u8>,
    val: Seq<u8>,
)
    requires
        0 <= i,
        0 <= nsep,
        i + nsep + name.len() + ws1.len() + ws2.len() + val.len() + 3 <= s.len(),
        forall|k: int| i <= k < i + nsep ==> is_sep(#[trigger] s[k]),
        s.subrange(
            i + nsep,
            i + nsep + name.len() + ws1.len() + ws2.len() + val.len() + 3,
        ) == name + ws1 + seq![61u8] + ws2 + seq![34u8] + val + seq![34u8],
        name.len() > 0,
        forall|k: int|
            0 <= k < name.len() ==> (!is_sep(#[trigger] name[k]) && name[k] != 61 && name[k]
                != 34),
        forall|k: int| 0 <= k < ws1.len() ==> is_ws(#[trigger] ws1[k]),
        forall|k: int| 0 <= k < ws2.len() ==> is_ws(#[trigger] ws2[k]),
        quote_free(val),
    ensures
        spec_scan(s, i, acc) == (match apply_attr(acc, name, val) {
            Ok(a2) => spec_scan(
                s,
                i + nsep + name.len() + ws1.len() + ws2.len() + val.len() + 3,
                a2,
            ),
            Err(e) => Err::<AttrsV, Error>(e),
        }),
{
    let a = i + nsep;
    let nl = name.len() as int;
    let w1 = ws1.len() as int;
    let w2 = ws2.len() as int;
    let vl = val.len() as int;
    let e = a + nl + w1;
    let qo = e + 1 + w2;
    let end = qo + 1 + vl + 1;
    let chunk = name + ws1 + seq![61u8] + ws2 + seq![34u8] + val + seq![34u8];
    assert(chunk.len() == nl + w1 + 1 + w2 + 1 + vl + 1);
    assert forall|t: int| 0 <= t < chunk.len() implies s[a + t] == chunk[t] by {
        assert(s.subrange(a, end)[t] == s[a + t]);
    }
    assert forall|t: int| 0 <= t < nl implies chunk[t] == name[t] by {}
    assert forall|t: int| 0 <= t < w1 implies chunk[nl + t] == ws1[t] by {}
    assert(chunk[nl + w1] == 61);
    assert forall|t: int| 0 <= t < w2 implies chunk[nl + w1 + 1 + t] == ws2[t] by {}
    assert(chunk[nl + w1 + 1 + w2] == 34);
    assert forall|t: int| 0 <= t < vl implies chunk[nl + w1 + 2 + w2 + t] == val[t] by {}
    assert(chunk[nl + w1 + 2 + w2 + vl] == 34);
    // the separator run ends at the attribute name
    assert(s[a] == name[0]);
    lemma_seps_end_run(s, i, a);
    // the first `=` delimits the name and its trailing whitespace
    assert forall|j: int| a <= j < e implies #[trigger] s[j] != 61 by {
        assert(s[j] == chunk[j - a]);
        if j - a < nl {
            assert(chunk[j - a] == name[j - a]);
        } else {
            assert(chunk[j - a] == ws1[j - a - nl]);
            assert(is_ws(s[j]));
        }
    }
    assert(s[e] == 61);
    lemma_find_at_run(s, a, e, 61);
    // trailing whitespace is trimmed from the name
    assert(s[a + nl - 1] == name[nl - 1]);
    assert(!is_ws(s[a + nl - 1]));
    if w1 > 0 {
        assert forall|j: int| a + nl <= j < e implies is_ws(#[trigger] s[j]) by {
            assert(s[j] == chunk[j - a]);
            assert(chunk[j - a] == ws1[j - a - nl]);
        }
        lemma_rtrim_run(s, a, a + nl, e);
    } else {
        assert(rtrim(s, a, e) == e);
    }
    assert(rtrim(s, a, e) == a + nl);
    assert(s.subrange(a, a + nl) =~= name);
    // whitespace after the `=` ends at the opening quote
    assert(s[qo] == 34);
    if w2 > 0 {
        assert forall|j: int| e + 1 <= j < qo implies is_ws(#[trigger] s[j]) by {
            assert(s[j] == chunk[j - a]);
            assert(chunk[j - a] == ws2[j - a - nl - w1 - 1]);
        }
    }
    assert(!is_ws(s[qo]));
    lemma_ws_end_run(s, e + 1, qo);
    // the closing quote is the first quote after the value
    assert forall|j: int| qo + 1 <= j < qo + 1 + vl implies #[trigger] s[j] != 34 by {
        assert(s[j] == chunk[j - a]);
        assert(chunk[j - a] == val[j - a - nl - w1 - 2 - w2]);
    }
    assert(s[qo + 1 + vl] == 34);
    lemma_find_at_run(s, qo + 1, qo + 1 + vl, 34);
    assert(s.subrange(qo + 1, qo + 1 + vl) =~= val);
    assert(seps_end(s, i) == a);
    assert(find_at(s, a, 61) == e);
    assert(ws_end(s, e + 1) == qo);
    assert(find_at(s, qo + 1, 34) == qo + 1 + vl);
}

/// Scanning at a position that holds a run of separators and then one
/// tightly packed attribute records that attribute and continues after it.
proof fn lemma_scan_attr(s: Seq<u8>, i: int, acc: AttrsV, nsep: int, name: Seq<u8>, val: Seq<u8>)
    requires
        0 <= i,
        0 <= nsep,
        i + nsep + name.len() + val.len() + 3 <= s.len(),
        forall|k: int| i <= k < i + nsep ==> is_sep(#[trigger] s[k]),
        s.subrange(i + nsep, i + nsep + name.len() + val.len() + 3) == attr_chunk(name, val),
        name.len() > 0,
        forall|k: int|
            0 <= k < name.len() ==> (!is_sep(#[trigger] name[k]) && name[k] != 61 && name[k]
                != 34),
        quote_free(val),
    ensures
        spec_scan(s, i, acc) == (match apply_attr(acc, name, val) {
            Ok(a2) => spec_scan(s, i + nsep + name.len() + val.len() + 3, a2),
            Err(e) => Err::<AttrsV, Error>(e),
        }),
{
    assert(attr_chunk(name, val) =~= name + Seq::<u8>::empty() + seq![61u8] + Seq::<u8>::empty()
        + seq![34u8] + val + seq![34u8]);
    lemma_scan_attr_ws(s, i, acc, nsep, name, Seq::<u8>::empty(), Seq::<u8>::empty(), val);
}

/// An attribute whose whitespace-trimmed name is outside the closed set is
/// rejected with `UnknownAttribute`, wherever it stands in the attribute
/// list and whatever was already collected before it.
pub proof fn lemma_unknown_attribute_rejected(
    s: Seq<u8>,
    i: int,
    acc: AttrsV,
    nsep: int,
    name: Seq<u8>,
    val: Seq<u8>,
)
    requires
        0 <= i,
        0 <= nsep,
        i + nsep + name.len() + val.len() + 3 <= s.len(),
        forall|k: int| i <= k < i + nsep ==> is_sep(#[trigger] s[k]),
        s.subrange(i + nsep, i + nsep + name.len() + val.len() + 3) == attr_chunk(name, val),
        name.len() > 0,
        forall|k: int|
            0 <= k < name.len() ==> (!is_sep(#[trigger] name[k]) && name[k] != 61 && name[k]
                != 34),
        quote_free(val),
        name != id_name(),
        name != ts_name(),
        name != nonce_name(),
        name != mac_name(),
        name != ext_name(),
        name != hash_name(),
        name != app_name(),
        name != dlg_name(),
    ensures
        spec_scan(s, i, acc) == Err::<AttrsV, Error>(Error::UnknownAttribute),
{
    lemma_scan_attr(s, i, acc, nsep, name, val);
    assert(apply_attr(acc, name, val) == Err::<AttrsV, Error>(Error::UnknownAttribute));
}

// Plumbing for the round-trip law: the serialized text and the positions of
// its attributes.
spec fn serialized_text(v: SchemeView) -> Seq<u8> {
    hawk_prefix() + spec_header_value(v)
}

spec fn pos_after_id(v: SchemeView) -> int {
    5 + attr_chunk(id_name(), v.id).len() as int
}

spec fn pos_after_ts(v: SchemeView) -> int {
    pos_after_id(v) + 2 + attr_chunk(ts_name(), crate::num::spec_i64_dec(v.ts)).len() as int
}

spec fn pos_after_nonce(v: SchemeView) -> int {
    pos_after_ts(v) + 2 + attr_chunk(nonce_name(), v.nonce).len() as int
}

spec fn pos_after_mac(v: SchemeView) -> int {
    pos_after_nonce(v) + 2 + attr_chunk(mac_name(), crate::base64::spec_b64_encode(v.mac)).len() as int
}

spec fn pos_after_ext(v: SchemeView) -> int {
    pos_after_mac(v) + opt_chunk(ext_name(), v.ext).len() as int
}

spec fn pos_after_hash(v: SchemeView) -> int {
    pos_after_ext(v) + opt_chunk(hash_name(), opt_b64(v.hash)).len() as int
}

spec fn pos_after_app(v: SchemeView) -> int {
    pos_after_hash(v) + opt_chunk(app_name(), v.app).len() as int
}

spec fn pos_end(v: SchemeView) -> int {
    pos_after_app(v) + opt_chunk(dlg_name(), v.dlg).len() as int
}

/// An attribute name as the grammar needs it: non-empty, free of
/// separators, `=` and quotes.
spec fn name_ok(n: Seq<u8>) -> bool {
    n.len() > 0 && forall|k: int|
        0 <= k < n.len() ==> (!is_sep(#[trigger] n[k]) && n[k] != 61 && n[k] != 34)
}

proof fn lemma_names()
    ensures
        name_ok(id_name()),
        name_ok(ts_name()),
        name_ok(nonce_name()),
        name_ok(mac_name()),
        name_ok(ext_name()),
        name_ok(hash_name()),
        name_ok(app_name()),
        name_ok(dlg_name()),
        ts_name() != id_name(),
        nonce_name() != id_name() && nonce_name() != ts_name(),
        mac_name() != id_name() && mac_name() != ts_name() && mac_name() != nonce_name(),
        ext_name() != id_name() && ext_name() != ts_name() && ext_name() != nonce_name()
            && ext_name() != mac_name(),
        hash_name() != id_name() && hash_name() != ts_name() && hash_name() != nonce_name()
            && hash_name() != mac_name() && hash_name() != ext_name(),
        app_name() != id_name() && app_name() != ts_name() && app_name() != nonce_name()
            && app_name() != mac_name() && app_name() != ext_name() && app_name() != hash_name(),
        dlg_name() != id_name() && dlg_name() != ts_name() && dlg_name() != nonce_name()
            && dlg_name() != mac_name() && dlg_name() != ext_name() && dlg_name() != hash_name()
            && dlg_name() != app_name(),
{
    assert(id_name()[0] == 105 && id_name()[1] == 100);
    assert(ts_name()[0] == 116 && ts_name()[1] == 115);
    assert(nonce_name()[0] == 110 && nonce_name()[1] == 111 && nonce_name()[2] == 110
        && nonce_name()[3] == 99 && nonce_name()[4] == 101);
    assert(mac_name()[0] == 109 && mac_name()[1] == 97 && mac_name()[2] == 99);
    assert(ext_name()[0] == 101 && ext_name()[1] == 120 && ext_name()[2] == 116);
    assert(hash_name()[0] == 104 && hash_name()[1] == 97 && hash_name()[2] == 115
        && hash_name()[3] == 104);
    assert(app_name()[0] == 97 && app_name()[1] == 112 && app_name()[2] == 112);
    assert(dlg_name()[0] == 100 && dlg_name()[1] == 108 && dlg_name()[2] == 103);
    assert forall|k: int|
        0 <= k < id_name().len() implies (!is_sep(#[trigger] id_name()[k]) && id_name()[k] != 61
        && id_name()[k] != 34) by {
        assert(id_name()[k] == 105 || id_name()[k] == 100);
    }
    assert forall|k: int|
        0 <= k < ts_name().len() implies (!is_sep(#[trigger] ts_name()[k]) && ts_name()[k] != 61
        && ts_name()[k] != 34) by {
        assert(ts_name()[k] == 116 || ts_name()[k] == 115);
    }
    assert forall|k: int|
        0 <= k < nonce_name().len() implies (!is_sep(#[trigger] nonce_name()[k])
        && nonce_name()[k] != 61 && nonce_name()[k] != 34) by {
        assert(nonce_name()[k] == 110 || nonce_name()[k] == 111 || nonce_name()[k] == 99
            || nonce_name()[k] == 101);
    }
    assert forall|k: int|
        0 <= k < mac_name().len() implies (!is_sep(#[trigger] mac_name()[k]) && mac_name()[k]
        != 61 && mac_name()[k] != 34) by {
        assert(mac_name()[k] == 109 || mac_name()[k] == 97 || mac_name()[k] == 99);
    }
    assert forall|k: int|
        0 <= k < ext_name().len() implies (!is_sep(#[trigger] ext_name()[k]) && ext_name()[k]
        != 61 && ext_name()[k] != 34) by {
        assert(ext_name()[k] == 101 || ext_name()[k] == 120 || ext_name()[k] == 116);
    }
    assert forall|k: int|
        0 <= k < hash_name().len() implies (!is_sep(#[trigger] hash_name()[k]) && hash_name()[k]
        != 61 && hash_name()[k] != 34) by {
        assert(hash_name()[k] == 104 || hash_name()[k] == 97 || hash_name()[k] == 115);
    }
    assert forall|k: int|
        0 <= k < app_name().len() implies (!is_sep(#[trigger] app_name()[k]) && app_name()[k]
        != 61 && app_name()[k] != 34) by {
        assert(app_name()[k] == 97 || app_name()[k] == 112);
    }
    assert forall|k: int|
        0 <= k < dlg_name().len() implies (!is_sep(#[trigger] dlg_name()[k]) && dlg_name()[k]
        != 61 && dlg_name()[k] != 34) by {
        assert(dlg_name()[k] == 100 || dlg_name()[k] == 108 || dlg_name()[k] == 103);
    }
}

#[verifier::rlimit(100)]
proof fn scan_step_id(v: SchemeView, acc: AttrsV)
    requires
        view_wf(v),
    ensures
        spec_scan(serialized_text(v), 5, acc) == spec_scan(serialized_text(v), pos_after_id(v), (AttrsV { id: Some(v.id), ..acc })),
{
    let s = serialized_text(v);
    lemma_names();
    assert(s.subrange(5, pos_after_id(v)) =~= attr_chunk(id_name(), v.id));
    lemma_scan_attr(s, 5, acc, 0, id_name(), v.id);
    assert(apply_attr(acc, id_name(), v.id) == Ok::<AttrsV, Error>(AttrsV { id: Some(v.id), ..acc }));
}

#[verifier::rlimit(100)]
proof fn scan_step_ts(v: SchemeView, acc: AttrsV)
    requires
        view_wf(v),
    ensures
        spec_scan(serialized_text(v), pos_after_id(v), acc) == spec_scan(serialized_text(v), pos_after_ts(v), (AttrsV { ts: Some(v.ts), ..acc })),
{
    let s = serialized_text(v);
    lemma_names();
    crate::num::lemma_i64_dec_round_trip(v.ts);
    let tsd = crate::num::spec_i64_dec(v.ts);
    assert(quote_free(tsd));
    let p = pos_after_id(v);
    assert(s[p] == 44 && s[p + 1] == 32);
    assert forall|k: int| p <= k < p + 2 implies is_sep(#[trigger] s[k]) by {
        assert(s[k] == 44 || s[k] == 32);
    }
    assert(s.subrange(p + 2, pos_after_ts(v)) =~= attr_chunk(ts_name(), tsd));
    lemma_scan_attr(s, p, acc, 2, ts_name(), tsd);
    assert(apply_attr(acc, ts_name(), tsd) == Ok::<AttrsV, Error>(AttrsV { ts: Some(v.ts), ..acc }));
}

#[verifier::rlimit(100)]
proof fn scan_step_nonce(v: SchemeView, acc: AttrsV)
    requires
        view_wf(v),
    ensures
        spec_scan(serialized_text(v), pos_after_ts(v), acc) == spec_scan(serialized_text(v), pos_after_nonce(v), (AttrsV { nonce: Some(v.nonce), ..acc })),
{
    let s = serialized_text(v);
    lemma_names();
    let p = pos_after_ts(v);
    assert(s[p] == 44 && s[p + 1] == 32);
    assert forall|k: int| p <= k < p + 2 implies is_sep(#[trigger] s[k]) by {
        assert(s[k] == 44 || s[k] == 32);
    }
    assert(s.subrange(p + 2, pos_after_nonce(v)) =~= attr_chunk(nonce_name(), v.nonce));
    lemma_scan_attr(s, p, acc, 2, nonce_name(), v.nonce);
    assert(apply_attr(acc, nonce_name(), v.nonce) == Ok::<AttrsV, Error>(AttrsV { nonce: Some(v.nonce), ..acc }));
}

#[verifier::rlimit(100)]
proof fn scan_step_mac(v: SchemeView, acc: AttrsV)
    requires
        view_wf(v),
    ensures
        spec_scan(serialized_text(v), pos_after_nonce(v), acc) == spec_scan(serialized_text(v), pos_after_mac(v), (AttrsV { mac: Some(v.mac), ..acc })),
{
    let s = serialized_text(v);
    lemma_names();
    crate::base64::lemma_b64_round_trip(v.mac);
    crate::base64::lemma_b64_encode_chars(v.mac);
    let macd = crate::base64::spec_b64_encode(v.mac);
    assert(quote_free(macd));
    let p = pos_after_nonce(v);
    assert(s[p] == 44 && s[p + 1] == 32);
    assert forall|k: int| p <= k < p + 2 implies is_sep(#[trigger] s[k]) by {
        assert(s[k] == 44 || s[k] == 32);
    }
    assert(s.subrange(p + 2, pos_after_mac(v)) =~= attr_chunk(mac_name(), macd));
    lemma_scan_attr(s, p, acc, 2, mac_name(), macd);
    assert(apply_attr(acc, mac_name(), macd) == Ok::<AttrsV, Error>(AttrsV { mac: Some(v.mac), ..acc }));
}

#[verifier::rlimit(100)]
proof fn scan_step_ext(v: SchemeView, acc: AttrsV)
    requires
        view_wf(v),
    ensures
        spec_scan(serialized_text(v), pos_after_mac(v), acc) == spec_scan(serialized_text(v), pos_after_ext(v), (match v.ext {
            Some(e) => AttrsV { ext: Some(e), ..acc },
            None => acc,
        }),
),
{
    let s = serialized_text(v);
    lemma_names();
    let p = pos_after_mac(v);
    match v.ext {
        Some(e) => {
            assert(s[p] == 44 && s[p + 1] == 32);
            assert forall|k: int| p <= k < p + 2 implies is_sep(#[trigger] s[k]) by {
                assert(s[k] == 44 || s[k] == 32);
            }
            assert(s.subrange(p + 2, pos_after_ext(v)) =~= attr_chunk(ext_name(), e));
            lemma_scan_attr(s, p, acc, 2, ext_name(), e);
            assert(apply_attr(acc, ext_name(), e) == Ok::<AttrsV, Error>(AttrsV { ext: Some(e), ..acc }));
        },
        None => {
            assert(pos_after_ext(v) == p);
        },
    }
}

#[verifier::rlimit(100)]
proof fn scan_step_hash(v: SchemeView, acc: AttrsV)
    requires
        view_wf(v),
    ensures
        spec_scan(serialized_text(v), pos_after_ext(v), acc) == spec_scan(serialized_text(v), pos_after_hash(v), (match v.hash {
            Some(h) => AttrsV { hash: Some(h), ..acc },
            None => acc,
        }),
),
{
    let s = serialized_text(v);
    lemma_names();
    let p = pos_after_ext(v);
    match v.hash {
        Some(h) => {
            crate::base64::lemma_b64_round_trip(h);
            crate::base64::lemma_b64_encode_chars(h);
            let hd = crate::base64::spec_b64_encode(h);
            assert(quote_free(hd));
            assert(s[p] == 44 && s[p + 1] == 32);
            assert forall|k: int| p <= k < p + 2 implies is_sep(#[trigger] s[k]) by {
                assert(s[k] == 44 || s[k] == 32);
            }
            assert(s.subrange(p + 2, pos_after_hash(v)) =~= attr_chunk(hash_name(), hd));
            lemma_scan_attr(s, p, acc, 2, hash_name(), hd);
            assert(apply_attr(acc, hash_name(), hd) == Ok::<AttrsV, Error>(AttrsV { hash: Some(h), ..acc }));
        },
        None => {
            assert(pos_after_hash(v) == p);
        },
    }
}

#[verifier::rlimit(100)]
proof fn scan_step_app(v: SchemeView, acc: AttrsV)
    requires
        view_wf(v),
    ensures
        spec_scan(serialized_text(v), pos_after_hash(v), acc) == spec_scan(serialized_text(v), pos_after_app(v), (match v.app {
            Some(a) => AttrsV { app: Some(a), ..acc },
            None => acc,
        }),
),
{
    let s = serialized_text(v);
    lemma_names();
    let p = pos_after_hash(v);
    match v.app {
        Some(a) => {
            assert(s[p] == 44 && s[p + 1] == 32);
            assert forall|k: int| p <= k < p + 2 implies is_sep(#[trigger] s[k]) by {
                assert(s[k] == 44 || s[k] == 32);
            }
            assert(s.subrange(p + 2, pos_after_app(v)) =~= attr_chunk(app_name(), a));
            lemma_scan_attr(s, p, acc, 2, app_name(), a);
            assert(apply_attr(acc, app_name(), a) == Ok::<AttrsV, Error>(AttrsV { app: Some(a), ..acc }));
        },
        None => {
            assert(pos_after_app(v) == p);
        },
    }
}

#[verifier::rlimit(100)]
proof fn scan_step_dlg(v: SchemeView, acc: AttrsV)
    requires
        view_wf(v),
    ensures
        spec_scan(serialized_text(v), pos_after_app(v), acc) == spec_scan(serialized_text(v), pos_end(v), (match v.dlg {
            Some(d) => AttrsV { dlg: Some(d), ..acc },
            None => acc,
        }),
),
{
    let s = serialized_text(v);
    lemma_names();
    let p = pos_after_app(v);
    match v.dlg {
        Some(d) => {
            assert(s[p] == 44 && s[p + 1] == 32);
            assert forall|k: int| p <= k < p + 2 implies is_sep(#[trigger] s[k]) by {
                assert(s[k] == 44 || s[k] == 32);
            }
            assert(s.subrange(p + 2, pos_end(v)) =~= attr_chunk(dlg_name(), d));
            lemma_scan_attr(s, p, acc, 2, dlg_name(), d);
            assert(apply_attr(acc, dlg_name(), d) == Ok::<AttrsV, Error>(AttrsV { dlg: Some(d), ..acc }));
        },
        None => {
            assert(pos_end(v) == p);
        },
    }
}

/// Round trip: parsing the serialized form of any well-formed header value
/// (quote-free components, timestamp within `i64`) yields that value back.
/// The serialized text is the scheme keyword followed by the header value,
/// exactly what `HawkScheme::to_header` produces and `HawkScheme::parse`
/// consumes.
#[verifier::rlimit(100)]
pub proof fn lemma_round_trip(v: SchemeView)
    requires
        view_wf(v),
    ensures
        spec_parse(hawk_prefix() + spec_header_value(v)) == Ok::<SchemeView, Error>(v),
{
    let s = serialized_text(v);
    assert(s[0] == 72 && s[1] == 97 && s[2] == 119 && s[3] == 107 && s[4] == 32);
    assert(scheme_ok(s));
    let acc0 = empty_attrs();
    scan_step_id(v, acc0);
    let acc1 = AttrsV { id: Some(v.id), ..acc0 };
    scan_step_ts(v, acc1);
    let acc2 = AttrsV { ts: Some(v.ts), ..acc1 };
    scan_step_nonce(v, acc2);
    let acc3 = AttrsV { nonce: Some(v.nonce), ..acc2 };
    scan_step_mac(v, acc3);
    let acc4 = AttrsV { mac: Some(v.mac), ..acc3 };
    scan_step_ext(v, acc4);
    let acc5 = match v.ext {
        Some(e) => AttrsV { ext: Some(e), ..acc4 },
        None => acc4,
    };
    scan_step_hash(v, acc5);
    let acc6 = match v.hash {
        Some(h) => AttrsV { hash: Some(h), ..acc5 },
        None => acc5,
    };
    scan_step_app(v, acc6);
    let acc7 = match v.app {
        Some(a) => AttrsV { app: Some(a), ..acc6 },
        None => acc6,
    };
    scan_step_dlg(v, acc7);
    let acc8 = match v.dlg {
        Some(d) => AttrsV { dlg: Some(d), ..acc7 },
        None => acc7,
    };
    assert(spec_scan(s, 5, acc0) == spec_scan(s, pos_end(v), acc8));
    assert(pos_end(v) == s.len());
    assert(seps_end(s, pos_end(v)) == pos_end(v));
    assert(spec_scan(s, pos_end(v), acc8) == Ok::<AttrsV, Error>(acc8));
    assert(acc8.id == Some(v.id) && acc8.ts == Some(v.ts) && acc8.nonce == Some(v.nonce)
        && acc8.mac == Some(v.mac) && acc8.ext == v.ext && acc8.hash == v.hash && acc8.app == v.app
        && acc8.dlg == v.dlg);
    let built = SchemeView {
        id: v.id,
        ts: v.ts,
        nonce: v.nonce,
        mac: v.mac,
        ext: v.ext,
        hash: v.hash,
        app: v.app,
        dlg: v.dlg,
    };
    assert(built =~= v);
}


impl HawkScheme {
    /// Parse a full header text (scheme keyword included) into a structured
    /// header value, exactly as `spec_parse` describes: the scheme keyword
    /// is matched case-insensitively, attribute syntax errors and unknown,
    /// invalid or missing attributes each yield their error kind.
    pub fn parse(s: &[u8]) -> (r: Result<HawkScheme, Error>)
        ensures
            match r {
                Ok(h) => spec_parse(s@) == Ok::<SchemeView, Error>(h@) && crate::scheme::view_wf(
                    h@,
                ),
                Err(e) => spec_parse(s@) == Err::<SchemeView, Error>(e),
            },
    {
        if s.len() < 5 {
            return Err(Error::UnsupportedScheme);
        }
        if !(lower_x(s[0]) == 104 && lower_x(s[1]) == 97 && lower_x(s[2]) == 119 && lower_x(s[3])
            == 107 && s[4] == 32) {
            return Err(Error::UnsupportedScheme);
        }
        let empty = Attrs {
            id: None,
            ts: None,
            nonce: None,
            mac: None,
            ext: None,
            hash: None,
            app: None,
            dlg: None,
        };
        match scan(s, 5, empty) {
            Err(e) => Err(e),
            Ok(a) => match (a.id, a.ts, a.nonce, a.mac) {
                (Some(id), Some(ts), Some(nonce), Some(mac)) => Ok(
                    HawkScheme {
                        id,
                        ts,
                        nonce,
                        mac,
                        ext: a.ext,
                        hash: a.hash,
                        app: a.app,
                        dlg: a.dlg,
                    },
                ),
                _ => Err(Error::MissingAttributes),
            },
        }
    }
}

} // verus!
