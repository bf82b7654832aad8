//! Writers of descriptor items.
use brushkit::fixture::{
    write_bool, write_doub_ostype, write_enum, write_key, write_named_unit_float, write_unit_float,
};
use brushkit::support::double::Double;

fn double(v: f64) -> Double {
    Double { bits: v.to_bits() }
}

/// The bytes themselves: a fixture that is built with a writer moves with it.
#[test]
fn primitives_emit_the_documented_bytes() {
    let mut b = Vec::new();
    write_key(&mut b, b"Spcn");
    assert_eq!(b, [0x00, 0x00, 0x00, 0x04, 0x53, 0x70, 0x63, 0x6E]);

    let mut b = Vec::new();
    write_bool(&mut b, b"useTip", true);
    assert_eq!(
        b,
        [0, 0, 0, 6, b'u', b's', b'e', b'T', b'i', b'p', b'b', b'o', b'o', b'l', 1]
    );

    let mut b = Vec::new();
    write_doub_ostype(&mut b, b"Spcn", double(25.0));
    assert_eq!(&b[..12], b"\x00\x00\x00\x00Spcndoub");
    assert_eq!(&b[12..], &25.0f64.to_be_bytes());

    let mut b = Vec::new();
    write_unit_float(&mut b, b"Angl", b"#Ang", double(90.0));
    assert_eq!(&b[..16], b"\x00\x00\x00\x00AnglUntF#Ang");
    assert_eq!(&b[16..], &90.0f64.to_be_bytes());

    let mut b = Vec::new();
    write_named_unit_float(&mut b, b"jitter", b"#Prc", double(40.0));
    assert_eq!(&b[..18], b"\x00\x00\x00\x06jitterUntF#Prc");
    assert_eq!(&b[18..], &40.0f64.to_be_bytes());

    let mut b = Vec::new();
    write_enum(&mut b, b"BlnM", b"BlnM", b"Nrml");
    assert_eq!(
        b,
        b"\x00\x00\x00\x04BlnMenum\x00\x00\x00\x04BlnM\x00\x00\x00\x04Nrml"
    );
}

/// A four-byte key has two encodings, and the writer decides which one it is.
#[test]
fn a_four_byte_key_has_two_encodings() {
    let mut named = Vec::new();
    write_key(&mut named, b"Spcn");
    let mut ostype = Vec::new();
    write_doub_ostype(&mut ostype, b"Spcn", double(0.0));
    assert_eq!(&named[..4], &[0, 0, 0, 4]);
    assert_eq!(&ostype[..4], &[0, 0, 0, 0]);
}
