//! Tests for the varint and line codecs at the byte level.

use multistream_select::Error;
use multistream_select::Progress;
use multistream_select::line::deserialise_varint_line;
use multistream_select::line::serialise_varint_line;
use multistream_select::varint::deserialise_varint;
use multistream_select::varint::serialise_varint;

fn encode(value: u64) -> Vec<u8> {
    let mut out = Vec::new();
    serialise_varint(&mut out, value);
    out
}

fn frame(line: &str) -> Vec<u8> {
    let mut out = Vec::new();
    serialise_varint_line(&mut out, line).unwrap();
    out
}

#[test]
fn varint_encodes_exact_bytes() {
    assert_eq!(encode(0), vec![0x00]);
    assert_eq!(encode(1), vec![0x01]);
    assert_eq!(encode(127), vec![0x7f]);
    assert_eq!(encode(128), vec![0x81, 0x00]);
    assert_eq!(encode(300), vec![0x82, 0x2c]);
    assert_eq!(
        encode(u64::MAX),
        vec![0x81, 0xff, 0xff, 0xff, 0xff, 0xff, 0xff, 0xff, 0xff, 0x7f]
    );
}

#[test]
fn varint_round_trip() {
    let values = [
        0u64,
        1,
        2,
        100,
        127,
        128,
        129,
        255,
        300,
        16383,
        16384,
        1 << 20,
        1 << 35,
        (1 << 56) - 1,
        1 << 56,
        1 << 63,
        u64::MAX - 1,
        u64::MAX,
    ];
    for &v in values.iter() {
        let bytes = encode(v);
        assert!(1 <= bytes.len() && bytes.len() <= 10);
        assert_ne!(bytes[0], 0x80);
        match deserialise_varint(&bytes) {
            Progress::Done(decoded, used) => {
                assert_eq!(decoded, v);
                assert_eq!(used, bytes.len());
            }
            _ => panic!("round trip failed for {}", v),
        }
    }
}

#[test]
fn varint_minimal_length() {
    // one byte per seven bits, never more
    assert_eq!(encode(0x7f).len(), 1);
    assert_eq!(encode(0x80).len(), 2);
    assert_eq!(encode(0x3fff).len(), 2);
    assert_eq!(encode(0x4000).len(), 3);
    assert_eq!(encode(u64::MAX).len(), 10);
}

#[test]
fn varint_rejects_redundant_leading_byte() {
    assert!(matches!(
        deserialise_varint(&[0x80]),
        Progress::Failed(Error::MalformedVarint)
    ));
    assert!(matches!(
        deserialise_varint(&[0x80, 0x01]),
        Progress::Failed(Error::MalformedVarint)
    ));
    assert!(matches!(
        deserialise_varint(&[0x80, 0xff, 0xff, 0x00, 0x12]),
        Progress::Failed(Error::MalformedVarint)
    ));
}

#[test]
fn varint_rejects_oversized() {
    assert!(matches!(
        deserialise_varint(&[0xff; 10]),
        Progress::Failed(Error::VarintTooLarge)
    ));
    assert!(matches!(
        deserialise_varint(&[0x81; 12]),
        Progress::Failed(Error::VarintTooLarge)
    ));
}

#[test]
fn varint_reports_incomplete() {
    assert!(matches!(deserialise_varint(&[]), Progress::Incomplete));
    assert!(matches!(deserialise_varint(&[0x81]), Progress::Incomplete));
    assert!(matches!(
        deserialise_varint(&[0x81, 0xff, 0xff]),
        Progress::Incomplete
    ));
}

#[test]
fn line_encodes_exact_bytes() {
    // length eleven: ten payload bytes plus the terminator
    assert_eq!(
        frame("/tls/1.0.0"),
        vec![0x0b, b'/', b't', b'l', b's', b'/', b'1', b'.', b'0', b'.', b'0', 0x0a]
    );
    assert_eq!(frame(""), vec![0x01, 0x0a]);
}

#[test]
fn line_round_trip() {
    for s in ["", "a", "na", "/tls/1.0.0", "/multistream/1.0.0", "caf\u{e9} \u{1f980}"] {
        let bytes = frame(s);
        match deserialise_varint_line(&bytes) {
            Progress::Done(text, used) => {
                assert_eq!(text, s);
                assert_eq!(used, bytes.len());
            }
            _ => panic!("line round trip failed for {:?}", s),
        }
    }
}

#[test]
fn line_appends_without_replacing() {
    let mut out = frame("/a/1.0.0");
    let first = out.clone();
    serialise_varint_line(&mut out, "/b/1.0.0").unwrap();
    assert_eq!(&out[..first.len()], &first[..]);
    assert_eq!(&out[first.len()..], &frame("/b/1.0.0")[..]);
}

#[test]
fn line_decodes_consume_one_frame_each() {
    // two frames batched in one buffer decode one after the other
    let mut wire = frame("/a/1.0.0");
    wire.extend_from_slice(&frame("/b/1.0.0"));
    match deserialise_varint_line(&wire) {
        Progress::Done(text, used) => {
            assert_eq!(text, "/a/1.0.0");
            match deserialise_varint_line(&wire[used..]) {
                Progress::Done(text2, used2) => {
                    assert_eq!(text2, "/b/1.0.0");
                    assert_eq!(used + used2, wire.len());
                }
                _ => panic!("second frame did not decode"),
            }
        }
        _ => panic!("first frame did not decode"),
    }
}

#[test]
fn line_rejects_zero_length() {
    assert!(matches!(
        deserialise_varint_line(&[0x00]),
        Progress::Failed(Error::EmptyLine)
    ));
}

#[test]
fn line_rejects_missing_terminator() {
    assert!(matches!(
        deserialise_varint_line(&[0x02, b'a', b'b']),
        Progress::Failed(Error::MissingTerminator)
    ));
}

#[test]
fn line_rejects_invalid_utf8() {
    assert!(matches!(
        deserialise_varint_line(&[0x03, 0xff, 0xfe, 0x0a]),
        Progress::Failed(Error::InvalidUtf8)
    ));
}

#[test]
fn line_propagates_varint_failures() {
    assert!(matches!(
        deserialise_varint_line(&[0x80, 0x01]),
        Progress::Failed(Error::MalformedVarint)
    ));
    assert!(matches!(
        deserialise_varint_line(&[0xff; 10]),
        Progress::Failed(Error::VarintTooLarge)
    ));
}

#[test]
fn line_reports_incomplete() {
    assert!(matches!(deserialise_varint_line(&[]), Progress::Incomplete));
    assert!(matches!(
        deserialise_varint_line(&[0x05, b'a', b'b']),
        Progress::Incomplete
    ));
    // every strict prefix of a full frame is incomplete
    let bytes = frame("/tls/1.0.0");
    for cut in 0..bytes.len() {
        assert!(matches!(
            deserialise_varint_line(&bytes[..cut]),
            Progress::Incomplete
        ));
    }
}
