//! The Hawk scheme engine: credentials, the structured header value, the
//! canonical signing string, and the serializer for the wire text form.

use vstd::prelude::*;
use crate::base64::{b64_encode, spec_b64_encode};
use crate::bytes::{bytes_eq, is_quote_free, opt_quote_free, opt_view, quote_free};
use crate::mac::{constant_time_eq, hmac_sha256, hmac_sha256_of};
use crate::num::{i64_dec, spec_dec_digits, spec_i64_dec, u64_dec};

verus! {

/// The failure kinds of header parsing and header construction.
#[derive(Debug, Clone, Copy, PartialEq, Eq, Structural)]
pub enum Error {
    /// The input does not begin with the `Hawk` scheme keyword.
    UnsupportedScheme,
    /// Malformed attribute syntax: missing `=`, missing or unterminated quotes.
    SchemeParseError,
    /// A mandatory attribute (`id`, `ts`, `nonce`, `mac`) is absent.
    MissingAttributes,
    /// An attribute name outside the closed attribute set.
    UnknownAttribute,
    /// The `ts` value is not a valid decimal integer.
    InvalidTimestamp,
    /// A `mac` or `hash` value is not valid standard base64.
    Base64DecodeError,
    /// A header component contains the quote character.
    InvalidComponent,
    /// An algorithm name outside the supported MAC algorithm set.
    UnsupportedAlgorithm,
}

/// A supported MAC algorithm; HMAC over SHA-256 is the only one.
#[derive(Debug, Clone, Copy, PartialEq, Eq, Structural)]
pub enum Algorithm {
    Sha256,
}

impl Algorithm {
    /// The algorithm a tag names; only `sha256` names one.
    pub fn from_name(name: &[u8]) -> (r: Result<Algorithm, Error>)
        ensures
            name@ == seq![115u8, 104u8, 97u8, 50u8, 53u8, 54u8] ==> r == Ok::<Algorithm, Error>(
                Algorithm::Sha256,
            ),
            name@ != seq![115u8, 104u8, 97u8, 50u8, 53u8, 54u8] ==> r == Err::<Algorithm, Error>(
                Error::UnsupportedAlgorithm,
            ),
    {
        let tag: Vec<u8> = vec![115, 104, 97, 50, 53, 54];  // "sha256"
        if bytes_eq(name, tag.as_slice()) {
            Ok(Algorithm::Sha256)
        } else {
            Err(Error::UnsupportedAlgorithm)
        }
    }
}

/// A caller-supplied identifier, shared key and MAC algorithm.
#[derive(Debug, Clone)]
pub struct Credentials {
    pub id: Vec<u8>,
    pub key: Vec<u8>,
    pub algorithm: Algorithm,
}

impl Credentials {
    pub fn new(id: Vec<u8>, key: Vec<u8>, algorithm: Algorithm) -> (r: Credentials)
        ensures
            r.id@ == id@,
            r.key@ == key@,
            r.algorithm == algorithm,
    {
        Credentials { id, key, algorithm }
    }

    /// Compute the MAC of a message under these credentials.
    pub fn sign(&self, message: &[u8]) -> (r: Vec<u8>)
        ensures
            r@ == hmac_sha256_of(self.key@, message@),
            r@.len() == 32,
    {
        match self.algorithm {
            Algorithm::Sha256 => hmac_sha256(self.key.as_slice(), message),
        }
    }

    /// Recompute the MAC of a message and compare it with a candidate,
    /// in constant time with respect to the candidate.
    pub fn verify(&self, message: &[u8], candidate: &[u8]) -> (r: bool)
        ensures
            r == (hmac_sha256_of(self.key@, message@) == candidate@),
    {
        let expected = self.sign(message);
        constant_time_eq(expected.as_slice(), candidate)
    }
}

/// The mathematical content of a header value: each component as a byte
/// sequence, the timestamp as an integer.
#[verifier::ext_equal]
pub struct SchemeView {
    pub id: Seq<u8>,
    pub ts: int,
    pub nonce: Seq<u8>,
    pub mac: Seq<u8>,
    pub ext: Option<Seq<u8>>,
    pub hash: Option<Seq<u8>>,
    pub app: Option<Seq<u8>>,
    pub dlg: Option<Seq<u8>>,
}

/// Well-formedness of a header value: textual components are quote-free and
/// the timestamp fits in an `i64`.
pub open spec fn view_wf(v: SchemeView) -> bool {
    &&& quote_free(v.id)
    &&& quote_free(v.nonce)
    &&& opt_quote_free(v.ext)
    &&& opt_quote_free(v.app)
    &&& opt_quote_free(v.dlg)
    &&& i64::MIN <= v.ts <= i64::MAX
}

/// The structured value of a `Hawk` authorization header.
#[derive(Debug, Clone)]
pub struct HawkScheme {
    pub id: Vec<u8>,
    pub ts: i64,
    pub nonce: Vec<u8>,
    pub mac: Vec<u8>,
    pub ext: Option<Vec<u8>>,
    pub hash: Option<Vec<u8>>,
    pub app: Option<Vec<u8>>,
    pub dlg: Option<Vec<u8>>,
}

impl View for HawkScheme {
    type V = SchemeView;

    open spec fn view(&self) -> SchemeView {
        SchemeView {
            id: self.id@,
            ts: self.ts as int,
            nonce: self.nonce@,
            mac: self.mac@,
            ext: opt_view(self.ext),
            hash: opt_view(self.hash),
            app: opt_view(self.app),
            dlg: opt_view(self.dlg),
        }
    }
}

/// Quote-freedom of an optional component vector.
pub open spec fn opt_vec_quote_free(o: Option<Vec<u8>>) -> bool {
    opt_quote_free(opt_view(o))
}

fn check_opt(o: &Option<Vec<u8>>) -> (r: bool)
    ensures
        r == opt_vec_quote_free(*o),
{
    match o {
        Some(v) => is_quote_free(v.as_slice()),
        None => true,
    }
}

// Attribute names and wire-format pieces, as byte sequences.
pub open spec fn id_name() -> Seq<u8> {
    seq![105u8, 100u8]  // "id"
}

pub open spec fn ts_name() -> Seq<u8> {
    seq![116u8, 115u8]  // "ts"
}

pub open spec fn nonce_name() -> Seq<u8> {
    seq![110u8, 111u8, 110u8, 99u8, 101u8]  // "nonce"
}

pub open spec fn mac_name() -> Seq<u8> {
    seq![109u8, 97u8, 99u8]  // "mac"
}

pub open spec fn ext_name() -> Seq<u8> {
    seq![101u8, 120u8, 116u8]  // "ext"
}

pub open spec fn hash_name() -> Seq<u8> {
    seq![104u8, 97u8, 115u8, 104u8]  // "hash"
}

pub open spec fn app_name() -> Seq<u8> {
    seq![97u8, 112u8, 112u8]  // "app"
}

pub open spec fn dlg_name() -> Seq<u8> {
    seq![100u8, 108u8, 103u8]  // "dlg"
}

/// One serialized attribute: `name="value"`.
pub open spec fn attr_chunk(name: Seq<u8>, val: Seq<u8>) -> Seq<u8> {
    name + seq![61u8, 34u8] + val + seq![34u8]
}

/// The separator between serialized attributes: `, `.
pub open spec fn attr_sep() -> Seq<u8> {
    seq![44u8, 32u8]
}

/// An optional serialized attribute, preceded by the separator; empty when absent.
pub open spec fn opt_chunk(name: Seq<u8>, o: Option<Seq<u8>>) -> Seq<u8> {
    match o {
        Some(x) => attr_sep() + attr_chunk(name, x),
        None => Seq::<u8>::empty(),
    }
}

/// The base64 encoding of an optional byte sequence.
pub open spec fn opt_b64(o: Option<Seq<u8>>) -> Option<Seq<u8>> {
    match o {
        Some(h) => Some(spec_b64_encode(h)),
        None => None,
    }
}

/// The wire text of a header value: mandatory attributes in fixed order,
/// then each optional attribute exactly when present.
pub open spec fn spec_header_value(v: SchemeView) -> Seq<u8> {
    attr_chunk(id_name(), v.id) + attr_sep() + attr_chunk(ts_name(), spec_i64_dec(v.ts))
        + attr_sep() + attr_chunk(nonce_name(), v.nonce) + attr_sep() + attr_chunk(
        mac_name(),
        spec_b64_encode(v.mac),
    ) + opt_chunk(ext_name(), v.ext) + opt_chunk(hash_name(), opt_b64(v.hash)) + opt_chunk(
        app_name(),
        v.app,
    ) + opt_chunk(dlg_name(), v.dlg)
}

/// The scheme keyword and the single separating space: `Hawk `.
pub open spec fn hawk_prefix() -> Seq<u8> {
    seq![72u8, 97u8, 119u8, 107u8, 32u8]
}

/// The first line of the canonical string: `hawk.1.header` and a line feed.
pub open spec fn canonical_tag() -> Seq<u8> {
    seq![104u8, 97u8, 119u8, 107u8, 46u8, 49u8, 46u8, 104u8, 101u8, 97u8, 100u8, 101u8, 114u8,
        10u8]
}

/// The canonical byte string a signature covers: the tag line, then the
/// timestamp, nonce, method, path, host, port, optional payload hash in
/// base64, and optional extension data, each line ending in a line feed.
pub open spec fn spec_canonical(
    ts: int,
    nonce: Seq<u8>,
    method: Seq<u8>,
    path: Seq<u8>,
    host: Seq<u8>,
    port: int,
    hash: Option<Seq<u8>>,
    ext: Option<Seq<u8>>,
) -> Seq<u8> {
    canonical_tag() + spec_i64_dec(ts) + seq![10u8] + nonce + seq![10u8] + method + seq![10u8]
        + path + seq![10u8] + host + seq![10u8] + spec_dec_digits(port) + seq![10u8] + (match hash {
        Some(h) => spec_b64_encode(h),
        None => Seq::<u8>::empty(),
    }) + seq![10u8] + (match ext {
        Some(e) => e,
        None => Seq::<u8>::empty(),
    }) + seq![10u8]
}

/// Build the canonical signing string for the given request description.
pub fn canonical_string(
    ts: i64,
    nonce: &[u8],
    method: &[u8],
    path: &[u8],
    host: &[u8],
    port: u16,
    hash: &Option<Vec<u8>>,
    ext: &Option<Vec<u8>>,
) -> (r: Vec<u8>)
    ensures
        r@ == spec_canonical(
            ts as int,
            nonce@,
            method@,
            path@,
            host@,
            port as int,
            opt_view(*hash),
            opt_view(*ext),
        ),
{
    let mut out: Vec<u8> = vec![104, 97, 119, 107, 46, 49, 46, 104, 101, 97, 100, 101, 114, 10];
    let mut t = i64_dec(ts);
    out.append(&mut t);
    out.push(10);
    let mut t = vstd::slice::slice_to_vec(nonce);
    out.append(&mut t);
    out.push(10);
    let mut t = vstd::slice::slice_to_vec(method);
    out.append(&mut t);
    out.push(10);
    let mut t = vstd::slice::slice_to_vec(path);
    out.append(&mut t);
    out.push(10);
    let mut t = vstd::slice::slice_to_vec(host);
    out.append(&mut t);
    out.push(10);
    let mut t = u64_dec(port as u64);
    out.append(&mut t);
    out.push(10);
    match hash {
        Some(h) => {
            let mut t = b64_encode(h.as_slice());
            out.append(&mut t);
        },
        None => {},
    }
    out.push(10);
    match ext {
        Some(e) => {
            let mut t = vstd::slice::slice_to_vec(e.as_slice());
            out.append(&mut t);
        },
        None => {},
    }
    out.push(10);
    proof {
        assert(out@ =~= spec_canonical(
            ts as int,
            nonce@,
            method@,
            path@,
            host@,
            port as int,
            opt_view(*hash),
            opt_view(*ext),
        ));
    }
    out
}

fn push_chunk(out: &mut Vec<u8>, name: &Vec<u8>, val: &[u8])
    ensures
        final(out)@ == old(out)@ + attr_chunk(name@, val@),
{
    let mut t = vstd::slice::slice_to_vec(name.as_slice());
    out.append(&mut t);
    out.push(61);
    out.push(34);
    let mut t = vstd::slice::slice_to_vec(val);
    out.append(&mut t);
    out.push(34);
    proof {
        assert(out@ =~= old(out)@ + attr_chunk(name@, val@));
    }
}

fn push_sep(out: &mut Vec<u8>)
    ensures
        final(out)@ == old(out)@ + attr_sep(),
{
    out.push(44);
    out.push(32);
    proof {
        assert(out@ =~= old(out)@ + attr_sep());
    }
}

impl HawkScheme {
    /// Create a header value with the basic fields; rejects any component
    /// that contains a quote character.
    pub fn new(id: Vec<u8>, ts: i64, nonce: Vec<u8>, mac: Vec<u8>) -> (r: Result<
        HawkScheme,
        Error,
    >)
        ensures
            (r is Ok) == (quote_free(id@) && quote_free(nonce@)),
            r is Ok ==> r->Ok_0@ == (SchemeView {
                id: id@,
                ts: ts as int,
                nonce: nonce@,
                mac: mac@,
                ext: None,
                hash: None,
                app: None,
                dlg: None,
            }),
            r is Err ==> r->Err_0 == Error::InvalidComponent,
    {
        HawkScheme::new_extended(id, ts, nonce, mac, None, None, None, None)
    }

    /// Create a header value with the full set of fields; rejects any
    /// textual component that contains a quote character.
    pub fn new_extended(
        id: Vec<u8>,
        ts: i64,
        nonce: Vec<u8>,
        mac: Vec<u8>,
        ext: Option<Vec<u8>>,
        hash: Option<Vec<u8>>,
        app: Option<Vec<u8>>,
        dlg: Option<Vec<u8>>,
    ) -> (r: Result<HawkScheme, Error>)
        ensures
            (r is Ok) == (quote_free(id@) && quote_free(nonce@) && opt_vec_quote_free(ext)
                && opt_vec_quote_free(app) && opt_vec_quote_free(dlg)),
            r is Ok ==> r->Ok_0@ == (SchemeView {
                id: id@,
                ts: ts as int,
                nonce: nonce@,
                mac: mac@,
                ext: opt_view(ext),
                hash: opt_view(hash),
                app: opt_view(app),
                dlg: opt_view(dlg),
            }),
            r is Err ==> r->Err_0 == Error::InvalidComponent,
    {
        if !is_quote_free(id.as_slice()) || !is_quote_free(nonce.as_slice()) || !check_opt(&ext)
            || !check_opt(&app) || !check_opt(&dlg) {
            return Err(Error::InvalidComponent);
        }
        Ok(HawkScheme { id, ts, nonce, mac, ext, hash, app, dlg })
    }

    /// Sign a request: build the canonical string from the request
    /// description, compute its MAC under the credentials, and assemble the
    /// header value carrying the caller-chosen identifier and nonce.
    pub fn for_request(
        credentials: &Credentials,
        id: Vec<u8>,
        ts: i64,
        nonce: Vec<u8>,
        method: &[u8],
        path: &[u8],
        host: &[u8],
        port: u16,
        hash: Option<Vec<u8>>,
        ext: Option<Vec<u8>>,
    ) -> (r: Result<HawkScheme, Error>)
        ensures
            (r is Ok) == (quote_free(id@) && quote_free(nonce@) && opt_vec_quote_free(ext)),
            r is Ok ==> r->Ok_0@ == (SchemeView {
                id: id@,
                ts: ts as int,
                nonce: nonce@,
                mac: hmac_sha256_of(
                    credentials.key@,
                    spec_canonical(
                        ts as int,
                        nonce@,
                        method@,
                        path@,
                        host@,
                        port as int,
                        opt_view(hash),
                        opt_view(ext),
                    ),
                ),
                ext: opt_view(ext),
                hash: opt_view(hash),
                app: None,
                dlg: None,
            }),
            r is Err ==> r->Err_0 == Error::InvalidComponent,
    {
        if !is_quote_free(id.as_slice()) || !is_quote_free(nonce.as_slice()) || !check_opt(&ext) {
            return Err(Error::InvalidComponent);
        }
        let canonical = canonical_string(ts, nonce.as_slice(), method, path, host, port, &hash,
            &ext);
        let mac = credentials.sign(canonical.as_slice());
        Ok(HawkScheme { id, ts, nonce, mac, ext, hash, app: None, dlg: None })
    }

    /// Recompute the canonical string from this header's fields and the
    /// request or response context, and compare the MAC it claims, in
    /// constant time. Parsing never checks MACs; this is the separate,
    /// caller-driven verification step.
    pub fn verify_mac(
        &self,
        credentials: &Credentials,
        method: &[u8],
        path: &[u8],
        host: &[u8],
        port: u16,
    ) -> (r: bool)
        ensures
            r == (hmac_sha256_of(
                credentials.key@,
                spec_canonical(
                    self@.ts,
                    self@.nonce,
                    method@,
                    path@,
                    host@,
                    port as int,
                    self@.hash,
                    self@.ext,
                ),
            ) == self@.mac),
    {
        let canonical = canonical_string(self.ts, self.nonce.as_slice(), method, path, host, port,
            &self.hash, &self.ext);
        credentials.verify(canonical.as_slice(), self.mac.as_slice())
    }

    /// Serialize to the wire text of the header value (what follows the
    /// scheme keyword).
    pub fn serialize(&self) -> (r: Vec<u8>)
        ensures
            r@ == spec_header_value(self@),
    {
        let mut out: Vec<u8> = Vec::new();
        let n_id: Vec<u8> = vec![105, 100];
        let n_ts: Vec<u8> = vec![116, 115];
        let n_nonce: Vec<u8> = vec![110, 111, 110, 99, 101];
        let n_mac: Vec<u8> = vec![109, 97, 99];
        let n_ext: Vec<u8> = vec![101, 120, 116];
        let n_hash: Vec<u8> = vec![104, 97, 115, 104];
        let n_app: Vec<u8> = vec![97, 112, 112];
        let n_dlg: Vec<u8> = vec![100, 108, 103];
        push_chunk(&mut out, &n_id, self.id.as_slice());
        push_sep(&mut out);
        let ts = i64_dec(self.ts);
        push_chunk(&mut out, &n_ts, ts.as_slice());
        push_sep(&mut out);
        push_chunk(&mut out, &n_nonce, self.nonce.as_slice());
        push_sep(&mut out);
        let mac64 = b64_encode(self.mac.as_slice());
        push_chunk(&mut out, &n_mac, mac64.as_slice());
        match &self.ext {
            Some(e) => {
                push_sep(&mut out);
                push_chunk(&mut out, &n_ext, e.as_slice());
            },
            None => {},
        }
        match &self.hash {
            Some(h) => {
                push_sep(&mut out);
                let h64 = b64_encode(h.as_slice());
                push_chunk(&mut out, &n_hash, h64.as_slice());
            },
            None => {},
        }
        match &self.app {
            Some(a) => {
                push_sep(&mut out);
                push_chunk(&mut out, &n_app, a.as_slice());
            },
            None => {},
        }
        match &self.dlg {
            Some(d) => {
                push_sep(&mut out);
                push_chunk(&mut out, &n_dlg, d.as_slice());
            },
            None => {},
        }
        proof {
            assert(out@ =~= spec_header_value(self@));
        }
        out
    }

    /// Serialize to the full header text, scheme keyword included.
    pub fn to_header(&self) -> (r: Vec<u8>)
        ensures
            r@ == hawk_prefix() + spec_header_value(self@),
    {
        let mut out: Vec<u8> = vec![72, 97, 119, 107, 32];
        let mut v = self.serialize();
        out.append(&mut v);
        out
    }

}

fn opt_eq(a: &Option<Vec<u8>>, b: &Option<Vec<u8>>) -> (r: bool)
    ensures
        r == (opt_view(*a) == opt_view(*b)),
{
    match (a, b) {
        (Some(x), Some(y)) => bytes_eq(x.as_slice(), y.as_slice()),
        (None, None) => true,
        _ => false,
    }
}

impl PartialEq for HawkScheme {
    fn eq(&self, other: &HawkScheme) -> (r: bool) {
        let r = bytes_eq(self.id.as_slice(), other.id.as_slice()) && self.ts == other.ts
            && bytes_eq(self.nonce.as_slice(), other.nonce.as_slice()) && bytes_eq(
            self.mac.as_slice(),
            other.mac.as_slice(),
        ) && opt_eq(&self.ext, &other.ext) && opt_eq(&self.hash, &other.hash) && opt_eq(
            &self.app,
            &other.app,
        ) && opt_eq(&self.dlg, &other.dlg);
        proof {
            if r {
                assert(self@ =~= other@);
            }
        }
        r
    }
}

impl vstd::std_specs::cmp::PartialEqSpecImpl for HawkScheme {
    open spec fn obeys_eq_spec() -> bool {
        true
    }

    open spec fn eq_spec(&self, other: &HawkScheme) -> bool {
        self@ == other@
    }
}

} // verus!
