use hawk_scheme::scheme::{canonical_string, Algorithm, Credentials, Error, HawkScheme};

fn reference_credentials() -> Credentials {
    Credentials::new(
        b"dh37fgj492je".to_vec(),
        b"werxhqb98rpaxn39848xrunpaw3489ruxnpa98w4rxn".to_vec(),
        Algorithm::Sha256,
    )
}

fn reference_mac() -> Vec<u8> {
    vec![
        233, 30, 43, 87, 152, 132, 248, 211, 232, 202, 111, 150, 194, 55, 135, 206, 48, 6, 93, 75,
        75, 52, 140, 102, 163, 91, 233, 50, 135, 233, 44, 1,
    ]
}

#[test]
fn grammar_tolerance() {
    let messy = HawkScheme::parse(
        b"Hawk , id = \"a\", ts=\"1\",   nonce=\"n\" ,, mac=\"AAAA\"  , ",
    )
    .unwrap();
    let tight = HawkScheme::parse(b"Hawk id=\"a\", ts=\"1\", nonce=\"n\", mac=\"AAAA\"").unwrap();
    assert!(messy == tight);
}

#[test]
fn keyword_case_insensitive() {
    let lower = HawkScheme::parse(b"hawk id=\"a\", ts=\"1\", nonce=\"n\", mac=\"AAAA\"").unwrap();
    let upper = HawkScheme::parse(b"HAWK id=\"a\", ts=\"1\", nonce=\"n\", mac=\"AAAA\"").unwrap();
    assert!(lower == upper);
    assert!(lower.id == b"a".to_vec());
}

#[test]
fn attribute_names_case_sensitive() {
    let r = HawkScheme::parse(b"Hawk ID=\"a\", ts=\"1\", nonce=\"n\", mac=\"AAAA\"");
    assert!(matches!(r, Err(Error::UnknownAttribute)));
}

#[test]
fn values_keep_case() {
    let s = HawkScheme::parse(b"Hawk id=\"AbC\", ts=\"1\", nonce=\"N\", mac=\"AAAA\"").unwrap();
    assert!(s.id == b"AbC".to_vec());
    assert!(s.nonce == b"N".to_vec());
}

#[test]
fn canonical_string_exact() {
    let c = canonical_string(
        1353832234,
        b"j4h3g2",
        b"POST",
        b"/resource",
        b"localhost",
        65280,
        &None,
        &None,
    );
    assert_eq!(
        c,
        b"hawk.1.header\n1353832234\nj4h3g2\nPOST\n/resource\nlocalhost\n65280\n\n\n".to_vec()
    );
}

#[test]
fn mac_deterministic_and_key_dependent() {
    let creds = reference_credentials();
    let other = Credentials::new(
        b"dh37fgj492je".to_vec(),
        b"another-key-another-key-another-key".to_vec(),
        Algorithm::Sha256,
    );
    let msg = b"hawk.1.header\n1\nn\nGET\n/\nhost\n80\n\n\n";
    let m1 = creds.sign(msg);
    let m2 = creds.sign(msg);
    assert_eq!(m1, m2);
    let m3 = other.sign(msg);
    assert!(m1 != m3);
    assert!(creds.verify(msg, &m1));
    assert!(!creds.verify(msg, &m3));
}

#[test]
fn rejects_missing_mac() {
    let r = HawkScheme::parse(b"Hawk id=\"a\", ts=\"1\", nonce=\"n\"");
    assert!(matches!(r, Err(Error::MissingAttributes)));
}

#[test]
fn rejects_bad_timestamp() {
    let r = HawkScheme::parse(b"Hawk id=\"a\", ts=\"x\", nonce=\"n\", mac=\"AAAA\"");
    assert!(matches!(r, Err(Error::InvalidTimestamp)));
}

#[test]
fn rejects_bad_base64() {
    let r = HawkScheme::parse(b"Hawk id=\"a\", ts=\"1\", nonce=\"n\", mac=\"not-base64!\"");
    assert!(matches!(r, Err(Error::Base64DecodeError)));
}

#[test]
fn rejects_other_scheme() {
    let r = HawkScheme::parse(b"Basic id=\"a\"");
    assert!(matches!(r, Err(Error::UnsupportedScheme)));
    let glued = HawkScheme::parse(b"Hawkid=\"a\", ts=\"1\", nonce=\"n\", mac=\"AAAA\"");
    assert!(matches!(glued, Err(Error::UnsupportedScheme)));
}

#[test]
fn rejects_syntax_errors() {
    assert!(matches!(
        HawkScheme::parse(b"Hawk id"),
        Err(Error::SchemeParseError)
    ));
    assert!(matches!(
        HawkScheme::parse(b"Hawk id=a\""),
        Err(Error::SchemeParseError)
    ));
    assert!(matches!(
        HawkScheme::parse(b"Hawk id=\"a"),
        Err(Error::SchemeParseError)
    ));
}

#[test]
fn rejects_empty_attribute_list() {
    let r = HawkScheme::parse(b"Hawk ");
    assert!(matches!(r, Err(Error::MissingAttributes)));
}

#[test]
fn quote_in_ext_is_recoverable() {
    let r = HawkScheme::new_extended(
        b"id".to_vec(),
        1,
        b"n".to_vec(),
        vec![],
        Some(b"a\"b".to_vec()),
        None,
        None,
        None,
    );
    assert!(matches!(r, Err(Error::InvalidComponent)));
}

#[test]
fn timestamp_edges() {
    let max = HawkScheme::parse(
        b"Hawk id=\"a\", ts=\"9223372036854775807\", nonce=\"n\", mac=\"AAAA\"",
    )
    .unwrap();
    assert!(max.ts == i64::MAX);
    let min = HawkScheme::parse(
        b"Hawk id=\"a\", ts=\"-9223372036854775808\", nonce=\"n\", mac=\"AAAA\"",
    )
    .unwrap();
    assert!(min.ts == i64::MIN);
    let plus = HawkScheme::parse(b"Hawk id=\"a\", ts=\"+5\", nonce=\"n\", mac=\"AAAA\"").unwrap();
    assert!(plus.ts == 5);
    let over = HawkScheme::parse(
        b"Hawk id=\"a\", ts=\"9223372036854775808\", nonce=\"n\", mac=\"AAAA\"",
    );
    assert!(matches!(over, Err(Error::InvalidTimestamp)));
    let empty = HawkScheme::parse(b"Hawk id=\"a\", ts=\"\", nonce=\"n\", mac=\"AAAA\"");
    assert!(matches!(empty, Err(Error::InvalidTimestamp)));
}

#[test]
fn duplicate_attribute_last_wins() {
    let s = HawkScheme::parse(b"Hawk id=\"a\", id=\"b\", ts=\"1\", nonce=\"n\", mac=\"AAAA\"")
        .unwrap();
    assert!(s.id == b"b".to_vec());
}

#[test]
fn mac_decodes_through_parse() {
    // three base64 bytes decode to [0, 0, 0]; a wrapper that handed its
    // argument back unchanged could not produce this value
    let s = HawkScheme::parse(b"Hawk id=\"a\", ts=\"1\", nonce=\"n\", mac=\"AAAA\"").unwrap();
    assert_eq!(s.mac, vec![0, 0, 0]);
}

#[test]
fn hash_decodes_through_parse() {
    let s = HawkScheme::parse(
        b"Hawk id=\"a\", ts=\"1\", nonce=\"n\", mac=\"AAAA\", hash=\"AQIDBA==\"",
    )
    .unwrap();
    assert_eq!(s.hash, Some(vec![1, 2, 3, 4]));
}

#[test]
fn algorithm_names() {
    assert!(matches!(Algorithm::from_name(b"sha256"), Ok(Algorithm::Sha256)));
    assert!(matches!(
        Algorithm::from_name(b"md5"),
        Err(Error::UnsupportedAlgorithm)
    ));
}

#[test]
fn interoperability_request_vector() {
    // the reference Hawk example: signing this request with these
    // credentials must yield the MAC an independent implementation computed
    let creds = reference_credentials();
    let s = HawkScheme::for_request(
        &creds,
        b"dh37fgj492je".to_vec(),
        1353832234,
        b"j4h3g2".to_vec(),
        b"GET",
        b"/resource/1?b=1&a=2",
        b"example.com",
        8000,
        None,
        Some(b"some-app-ext-data".to_vec()),
    )
    .unwrap();
    println!("got: {}", String::from_utf8(s.serialize()).unwrap());
    assert_eq!(s.mac, reference_mac());
    // and the header it serializes to parses back and verifies
    let parsed = HawkScheme::parse(&s.to_header()).unwrap();
    assert!(parsed.verify_mac(&creds, b"GET", b"/resource/1?b=1&a=2", b"example.com", 8000));
    let wrong_key = Credentials::new(
        b"dh37fgj492je".to_vec(),
        b"not-the-key".to_vec(),
        Algorithm::Sha256,
    );
    assert!(!parsed.verify_mac(&wrong_key, b"GET", b"/resource/1?b=1&a=2", b"example.com", 8000));
}

#[test]
fn response_header_verifies() {
    // the server signs its response over response-specific inputs and the
    // echoed nonce; the client verifies it with the same credentials
    let creds = reference_credentials();
    let response = HawkScheme::for_request(
        &creds,
        b"dh37fgj492je".to_vec(),
        1353832234,
        b"j4h3g2".to_vec(),
        b"GET",
        b"/resource/1?b=1&a=2",
        b"example.com",
        8000,
        Some(b"response-body-hash".to_vec()),
        None,
    )
    .unwrap();
    let wire = response.to_header();
    let parsed = HawkScheme::parse(&wire).unwrap();
    assert!(parsed.verify_mac(&creds, b"GET", b"/resource/1?b=1&a=2", b"example.com", 8000));
}
