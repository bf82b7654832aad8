//! Writers of descriptor items, for files to read.
//!
//! A key is written in one of two ways, which the caller picks: behind its length, or as
//! four bytes behind a length of 0.
use vstd::prelude::*;
use crate::support::double::Double;
use crate::support::text::ascii;

verus! {

/// `n` in two bytes, the most significant first.
pub open spec fn be16(n: u16) -> Seq<u8> {
    seq![(n / 0x100) as u8, (n % 0x100) as u8]
}

/// `n` in four bytes, the most significant first.
pub open spec fn be32(n: u32) -> Seq<u8> {
    seq![
        (n / 0x100_0000) as u8,
        (n / 0x1_0000 % 0x100) as u8,
        (n / 0x100 % 0x100) as u8,
        (n % 0x100) as u8,
    ]
}

/// `n` in eight bytes, the most significant first.
pub open spec fn be64(n: u64) -> Seq<u8> {
    be32((n / 0x1_0000_0000) as u32) + be32((n % 0x1_0000_0000) as u32)
}

/// A key behind its length.
pub open spec fn key_bytes(key: Seq<u8>) -> Seq<u8> {
    be32(key.len() as u32) + key
}

/// A key of four bytes behind a length of 0.
pub open spec fn ostype_bytes(key: Seq<u8>) -> Seq<u8> {
    be32(0) + key
}

/// A flag under a key.
pub open spec fn bool_item(key: Seq<u8>, val: bool) -> Seq<u8> {
    key_bytes(key) + ascii("bool") + seq![
        if val {
            1u8
        } else {
            0u8
        },
    ]
}

/// A number under a key of four bytes.
pub open spec fn doub_ostype_item(key: Seq<u8>, val: Double) -> Seq<u8> {
    ostype_bytes(key) + ascii("doub") + be64(val.bits)
}

/// A unit and a number.
pub open spec fn unit_float_bytes(unit: Seq<u8>, val: Double) -> Seq<u8> {
    ascii("UntF") + unit + be64(val.bits)
}

/// A unit and a number under a key of four bytes.
pub open spec fn unit_float_item(key: Seq<u8>, unit: Seq<u8>, val: Double) -> Seq<u8> {
    ostype_bytes(key) + unit_float_bytes(unit, val)
}

/// A unit and a number under a key.
pub open spec fn named_unit_float_item(key: Seq<u8>, unit: Seq<u8>, val: Double) -> Seq<u8> {
    key_bytes(key) + unit_float_bytes(unit, val)
}

/// An enumerated value under a key.
pub open spec fn enum_item(key: Seq<u8>, enum_type: Seq<u8>, value: Seq<u8>) -> Seq<u8> {
    key_bytes(key) + ascii("enum") + key_bytes(enum_type) + key_bytes(value)
}

/// An integer under a key.
pub open spec fn long_item(key: Seq<u8>, val: i32) -> Seq<u8> {
    key_bytes(key) + ascii("long") + be32(val as u32)
}

/// The type, the class name, the class id and the item count of a dynamics object.
pub open spec fn brvr_head() -> Seq<u8> {
    ascii("Objc") + be32(1) + be16(0) + key_bytes(ascii("brVr")) + be32(4)
}

/// A dynamics object under a key: the control, a step of 1, the jitter and a minimum of 0.
pub open spec fn brvr_item(key: Seq<u8>, control: i32, jitter_pct: Double) -> Seq<u8> {
    key_bytes(key) + brvr_head() + long_item(ascii("bVTy"), control) + long_item(ascii("fStp"), 1)
        + named_unit_float_item(ascii("jitter"), ascii("#Prc"), jitter_pct)
        + named_unit_float_item(ascii("Mnm "), ascii("#Prc"), Double { bits: 0 })
}

fn push_bytes(buf: &mut Vec<u8>, bytes: &[u8])
    ensures
        final(buf)@ == old(buf)@ + bytes@,
{
    buf.extend_from_slice(bytes);
    assert(buf@ =~= old(buf)@ + bytes@);
}

fn push_u16(buf: &mut Vec<u8>, n: u16)
    ensures
        final(buf)@ == old(buf)@ + be16(n),
{
    buf.push((n / 0x100) as u8);
    buf.push((n % 0x100) as u8);
    assert(buf@ =~= old(buf)@ + be16(n));
}

fn push_u32(buf: &mut Vec<u8>, n: u32)
    ensures
        final(buf)@ == old(buf)@ + be32(n),
{
    buf.push((n / 0x100_0000) as u8);
    buf.push((n / 0x1_0000 % 0x100) as u8);
    buf.push((n / 0x100 % 0x100) as u8);
    buf.push((n % 0x100) as u8);
    assert(buf@ =~= old(buf)@ + be32(n));
}

fn push_u64(buf: &mut Vec<u8>, n: u64)
    ensures
        final(buf)@ == old(buf)@ + be64(n),
{
    push_u32(buf, (n / 0x1_0000_0000) as u32);
    push_u32(buf, (n % 0x1_0000_0000) as u32);
    assert(buf@ =~= old(buf)@ + be64(n));
}

/// Appends a key behind its length.
pub fn write_key(buf: &mut Vec<u8>, key: &[u8])
    ensures
        final(buf)@ == old(buf)@ + key_bytes(key@),
{
    push_u32(buf, key.len() as u32);
    push_bytes(buf, key);
    assert(buf@ =~= old(buf)@ + key_bytes(key@));
}

fn write_ostype(buf: &mut Vec<u8>, key: &[u8; 4])
    ensures
        final(buf)@ == old(buf)@ + ostype_bytes(key@),
{
    push_u32(buf, 0);
    push_bytes(buf, key.as_slice());
    assert(buf@ =~= old(buf)@ + ostype_bytes(key@));
}

/// Appends a flag under a key.
pub fn write_bool(buf: &mut Vec<u8>, key: &[u8], val: bool)
    ensures
        final(buf)@ == old(buf)@ + bool_item(key@, val),
{
    write_key(buf, key);
    push_bytes(buf, "bool".as_bytes());
    buf.push(
        if val {
            1
        } else {
            0
        },
    );
    assert(buf@ =~= old(buf)@ + bool_item(key@, val));
}

/// Appends a number under a key of four bytes.
pub fn write_doub_ostype(buf: &mut Vec<u8>, key: &[u8; 4], val: Double)
    ensures
        final(buf)@ == old(buf)@ + doub_ostype_item(key@, val),
{
    write_ostype(buf, key);
    push_bytes(buf, "doub".as_bytes());
    push_u64(buf, val.bits);
    assert(buf@ =~= old(buf)@ + doub_ostype_item(key@, val));
}

fn push_unit_float(buf: &mut Vec<u8>, unit: &[u8], val: Double)
    ensures
        final(buf)@ == old(buf)@ + unit_float_bytes(unit@, val),
{
    push_bytes(buf, "UntF".as_bytes());
    push_bytes(buf, unit);
    push_u64(buf, val.bits);
    assert(buf@ =~= old(buf)@ + unit_float_bytes(unit@, val));
}

/// Appends a unit and a number under a key of four bytes.
pub fn write_unit_float(buf: &mut Vec<u8>, key: &[u8; 4], unit: &[u8; 4], val: Double)
    ensures
        final(buf)@ == old(buf)@ + unit_float_item(key@, unit@, val),
{
    write_ostype(buf, key);
    push_unit_float(buf, unit.as_slice(), val);
    assert(buf@ =~= old(buf)@ + unit_float_item(key@, unit@, val));
}

/// Appends a unit and a number under a key.
pub fn write_named_unit_float(buf: &mut Vec<u8>, key: &[u8], unit: &[u8; 4], val: Double)
    ensures
        final(buf)@ == old(buf)@ + named_unit_float_item(key@, unit@, val),
{
    write_key(buf, key);
    push_unit_float(buf, unit.as_slice(), val);
    assert(buf@ =~= old(buf)@ + named_unit_float_item(key@, unit@, val));
}

/// Appends an enumerated value under a key.
pub fn write_enum(buf: &mut Vec<u8>, key: &[u8], enum_type: &[u8], value: &[u8])
    ensures
        final(buf)@ == old(buf)@ + enum_item(key@, enum_type@, value@),
{
    write_key(buf, key);
    push_bytes(buf, "enum".as_bytes());
    write_key(buf, enum_type);
    write_key(buf, value);
    assert(buf@ =~= old(buf)@ + enum_item(key@, enum_type@, value@));
}

fn push_long(buf: &mut Vec<u8>, key: &[u8], val: i32)
    ensures
        final(buf)@ == old(buf)@ + long_item(key@, val),
{
    write_key(buf, key);
    push_bytes(buf, "long".as_bytes());
    push_u32(buf, val as u32);
    assert(buf@ =~= old(buf)@ + long_item(key@, val));
}

fn push_percent(buf: &mut Vec<u8>, key: &[u8], val: Double)
    ensures
        final(buf)@ == old(buf)@ + named_unit_float_item(key@, ascii("#Prc"), val),
{
    write_key(buf, key);
    push_unit_float(buf, "#Prc".as_bytes(), val);
    assert(buf@ =~= old(buf)@ + named_unit_float_item(key@, ascii("#Prc"), val));
}

/// Appends a dynamics object under a key: the control, a step of 1, the jitter and a
/// minimum of 0.
pub fn write_brvr(buf: &mut Vec<u8>, key: &[u8], control: i32, jitter_pct: Double)
    ensures
        final(buf)@ == old(buf)@ + brvr_item(key@, control, jitter_pct),
{
    write_key(buf, key);
    push_bytes(buf, "Objc".as_bytes());
    push_u32(buf, 1);
    push_u16(buf, 0);
    write_key(buf, "brVr".as_bytes());
    push_u32(buf, 4);
    assert(buf@ =~= old(buf)@ + (key_bytes(key@) + brvr_head()));
    push_long(buf, "bVTy".as_bytes(), control);
    push_long(buf, "fStp".as_bytes(), 1);
    push_percent(buf, "jitter".as_bytes(), jitter_pct);
    push_percent(buf, "Mnm ".as_bytes(), Double { bits: 0 });
    assert(buf@ =~= old(buf)@ + brvr_item(key@, control, jitter_pct));
}

} // verus!
