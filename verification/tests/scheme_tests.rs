use hawk_scheme::scheme::{Algorithm, Credentials, Error, HawkScheme};

fn reference_mac() -> Vec<u8> {
    vec![
        233, 30, 43, 87, 152, 132, 248, 211, 232, 202, 111, 150, 194, 55, 135, 206, 48, 6, 93, 75,
        75, 52, 140, 102, 163, 91, 233, 50, 135, 233, 44, 1,
    ]
}

#[test]
fn from_str() {
    let s = HawkScheme::parse(
        b"Hawk id=\"dh37fgj492je\", ts=\"1353832234\", \
          nonce=\"j4h3g2\", ext=\"some-app-ext-data\", \
          mac=\"6R4rV5iE+NPoym+WwjeHzjAGXUtLNIxmo1vpMofpLAE=\", \
          hash=\"6R4rV5iE+NPoym+WwjeHzjAGXUtLNIxmo1vpMofpLAE=\", \
          app=\"my-app\", dlg=\"my-authority\"",
    )
    .unwrap();
    assert!(s.id == b"dh37fgj492je".to_vec());
    assert!(s.ts == 1353832234);
    assert!(s.nonce == b"j4h3g2".to_vec());
    assert!(s.mac == reference_mac());
    assert!(s.ext.unwrap() == b"some-app-ext-data".to_vec());
    assert!(s.app == Some(b"my-app".to_vec()));
    assert!(s.dlg == Some(b"my-authority".to_vec()));
}

#[test]
fn from_str_minimal() {
    let s = HawkScheme::parse(
        b"Hawk id=\"xyz\", ts=\"1353832234\", \
          nonce=\"abc\", \
          mac=\"6R4rV5iE+NPoym+WwjeHzjAGXUtLNIxmo1vpMofpLAE=\"",
    )
    .unwrap();
    assert!(s.id == b"xyz".to_vec());
    assert!(s.ts == 1353832234);
    assert!(s.nonce == b"abc".to_vec());
    assert!(s.mac == reference_mac());
    assert!(s.ext == None);
    assert!(s.app == None);
    assert!(s.dlg == None);
}

#[test]
fn from_str_messy() {
    let s = HawkScheme::parse(
        b"Hawk , id  =  \"dh37fgj492je\", ts=\"1353832234\", \
          nonce=\"j4h3g2\"  , , ext=\"some-app-ext-data\", \
          mac=\"6R4rV5iE+NPoym+WwjeHzjAGXUtLNIxmo1vpMofpLAE=\"",
    )
    .unwrap();
    assert!(s.id == b"dh37fgj492je".to_vec());
    assert!(s.ts == 1353832234);
    assert!(s.nonce == b"j4h3g2".to_vec());
    assert!(s.mac == reference_mac());
    assert!(s.ext.unwrap() == b"some-app-ext-data".to_vec());
    assert!(s.app == None);
    assert!(s.dlg == None);
}

fn to_str_mac() -> Vec<u8> {
    vec![
        8, 35, 182, 149, 42, 111, 33, 192, 19, 22, 94, 43, 118, 176, 65, 69, 86, 4, 156, 184, 85,
        107, 249, 242, 172, 200, 66, 209, 57, 63, 38, 83,
    ]
}

#[test]
fn to_str_minimal() {
    let s = HawkScheme::new(
        b"dh37fgj492je".to_vec(),
        1353832234,
        b"j4h3g2".to_vec(),
        to_str_mac(),
    )
    .unwrap();
    let formatted = String::from_utf8(s.serialize()).unwrap();
    println!("got: {}", formatted);
    assert!(
        formatted
            == "id=\"dh37fgj492je\", ts=\"1353832234\", nonce=\"j4h3g2\", \
                mac=\"CCO2lSpvIcATFl4rdrBBRVYEnLhVa/nyrMhC0Tk/JlM=\""
    )
}

#[test]
fn to_str_maximal() {
    let s = HawkScheme::new_extended(
        b"dh37fgj492je".to_vec(),
        1353832234,
        b"j4h3g2".to_vec(),
        to_str_mac(),
        Some(b"my-ext-value".to_vec()),
        Some(vec![1, 2, 3, 4]),
        Some(b"my-app".to_vec()),
        Some(b"my-dlg".to_vec()),
    )
    .unwrap();
    let formatted = String::from_utf8(s.serialize()).unwrap();
    println!("got: {}", formatted);
    assert!(
        formatted
            == "id=\"dh37fgj492je\", ts=\"1353832234\", nonce=\"j4h3g2\", \
                mac=\"CCO2lSpvIcATFl4rdrBBRVYEnLhVa/nyrMhC0Tk/JlM=\", ext=\"my-ext-value\", \
                hash=\"AQIDBA==\", app=\"my-app\", dlg=\"my-dlg\""
    )
}

#[test]
fn round_trip() {
    let s = HawkScheme::new_extended(
        b"dh37fgj492je".to_vec(),
        1353832234,
        b"j4h3g2".to_vec(),
        to_str_mac(),
        Some(b"my-ext-value".to_vec()),
        Some(vec![1, 2, 3, 4]),
        Some(b"my-app".to_vec()),
        Some(b"my-dlg".to_vec()),
    )
    .unwrap();
    let formatted = s.to_header();
    println!("got: {}", String::from_utf8(formatted.clone()).unwrap());
    let s2 = HawkScheme::parse(&formatted).unwrap();
    assert!(s2 == s);
}

#[test]
fn illegal_id() {
    let r = HawkScheme::new(b"abc\"def".to_vec(), 1234, b"nonce".to_vec(), vec![]);
    assert!(matches!(r, Err(Error::InvalidComponent)));
}

#[test]
fn illegal_nonce() {
    let r = HawkScheme::new(b"abcdef".to_vec(), 1234, b"non\"ce".to_vec(), vec![]);
    assert!(matches!(r, Err(Error::InvalidComponent)));
}

#[test]
fn illegal_ext() {
    let r = HawkScheme::new_extended(
        b"abcdef".to_vec(),
        1234,
        b"nonce".to_vec(),
        vec![],
        Some(b"ex\"t".to_vec()),
        None,
        None,
        None,
    );
    assert!(matches!(r, Err(Error::InvalidComponent)));
}

#[test]
fn illegal_app() {
    let r = HawkScheme::new_extended(
        b"abcdef".to_vec(),
        1234,
        b"nonce".to_vec(),
        vec![],
        None,
        None,
        Some(b"a\"pp".to_vec()),
        None,
    );
    assert!(matches!(r, Err(Error::InvalidComponent)));
}

#[test]
fn illegal_dlg() {
    let r = HawkScheme::new_extended(
        b"abcdef".to_vec(),
        1234,
        b"nonce".to_vec(),
        vec![],
        None,
        None,
        None,
        Some(b"d\"lg".to_vec()),
    );
    assert!(matches!(r, Err(Error::InvalidComponent)));
}
