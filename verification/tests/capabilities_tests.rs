use std::io::Write;

use nntp::capabilities::{
    can, decode_capabilities, parse_capabilities, parse_capability, CapabilitiesError, Capability,
    Compression,
};

fn other(text: &str) -> Capability {
    Capability::Other(text.to_string())
}

fn compress(list: Vec<Compression>) -> Capability {
    Capability::XFEATURE_COMPRESS(list)
}

#[test]
fn parse_capability_lines() {
    match parse_capability("XFEATURE-COMPRESS GZIP TERMINATOR") {
        Capability::XFEATURE_COMPRESS(list) => {
            assert_eq!(list, vec![Compression::GZIP, Compression::TERMINATOR])
        }
        other => panic!("unexpected {:?}", other),
    }
    match parse_capability("XFEATURE-COMPRESS LZMA DEFLATE") {
        Capability::XFEATURE_COMPRESS(list) => assert_eq!(list, vec![Compression::DEFLATE]),
        other => panic!("unexpected {:?}", other),
    }
    match parse_capability("VERSION 2") {
        Capability::Other(text) => assert_eq!(text, "VERSION 2"),
        other => panic!("unexpected {:?}", other),
    }
    match parse_capability("XFEATURE-COMPRESSION GZIP") {
        Capability::Other(text) => assert_eq!(text, "XFEATURE-COMPRESSION GZIP"),
        other => panic!("unexpected {:?}", other),
    }
}

#[test]
fn parse_capabilities_line_by_line() {
    let caps = parse_capabilities(b"VERSION 2\r\nREADER\r\nXFEATURE-COMPRESS GZIP").unwrap();
    assert_eq!(caps.len(), 3);
    assert!(matches!(&caps[0], Capability::Other(t) if t == "VERSION 2"));
    assert!(matches!(&caps[1], Capability::Other(t) if t == "READER"));
    assert!(matches!(&caps[2], Capability::XFEATURE_COMPRESS(l) if *l == vec![Compression::GZIP]));
    assert!(matches!(parse_capabilities(&[0xff, 0xfe]), Err(CapabilitiesError::InvalidUtf8)));
    assert_eq!(parse_capabilities(b"").unwrap().len(), 0);
}

#[test]
fn can_before_discovery_is_false() {
    assert!(!can(&None, &other("READER")));
    assert!(!can(&None, &compress(vec![])));
}

#[test]
fn can_looks_for_the_same_line() {
    let known = Some(vec![other("VERSION 2"), other("READER")]);
    assert!(can(&known, &other("READER")));
    assert!(!can(&known, &other("POST")));
}

#[test]
fn can_asks_for_compressions_as_a_set() {
    let known = Some(vec![
        other("READER"),
        compress(vec![Compression::GZIP, Compression::TERMINATOR]),
        compress(vec![Compression::DEFLATE]),
    ]);
    assert!(can(&known, &compress(vec![Compression::GZIP])));
    assert!(can(&known, &compress(vec![Compression::TERMINATOR, Compression::GZIP, Compression::GZIP])));
    assert!(can(&known, &compress(vec![])));
    // only the first XFEATURE-COMPRESS line counts
    assert!(!can(&known, &compress(vec![Compression::DEFLATE])));
    assert!(!can(&Some(vec![other("READER")]), &compress(vec![])));
}

#[test]
fn decode_plain_and_compressed_lists() {
    let text = b"VERSION 2\r\nXFEATURE-COMPRESS GZIP";
    let plain = decode_capabilities(text, false).unwrap();
    assert_eq!(plain.len(), 2);

    let mut encoder = flate2::write::ZlibEncoder::new(Vec::new(), flate2::Compression::default());
    encoder.write_all(text).unwrap();
    let packed = encoder.finish().unwrap();
    let unpacked = decode_capabilities(&packed, true).unwrap();
    assert_eq!(unpacked.len(), 2);
    assert!(matches!(&unpacked[0], Capability::Other(t) if t == "VERSION 2"));
    assert!(matches!(&unpacked[1], Capability::XFEATURE_COMPRESS(l) if *l == vec![Compression::GZIP]));

    assert!(matches!(decode_capabilities(b"not zlib at all", true), Err(CapabilitiesError::DeflateFailed)));
}
