//! Photoshop's descriptor format: the primitive reads, and reading past a value.
//!
//! A descriptor is a class name (UTF-16 behind a count), a class id, an item count and
//! the items. An item is a key, a four-byte type tag and a value. An id or key is a
//! length and that many bytes; length 0 stands for four bytes. All numbers are
//! big-endian.
use vstd::prelude::*;
use crate::support::bytes::{be_u16, be_u32, be_u64, fits, u16_at, ByteReader};
use crate::support::double::Double;
use crate::support::text::{utf16_lossy, utf16_text, utf8_lossy, utf8_lossy_text};

verus! {

/// The longest string, id or raw data in a descriptor.
pub const MAX_DESCRIPTOR_STRING_LEN: usize = 1024 * 1024;

/// The deepest nesting of values that is read past.
pub const MAX_DESCRIPTOR_DEPTH: usize = 64;

/// `bool`
pub const TAG_BOOL: u32 = 0x626F_6F6C;

/// `long`
pub const TAG_LONG: u32 = 0x6C6F_6E67;

/// `doub`
pub const TAG_DOUB: u32 = 0x646F_7562;

/// `TEXT`
pub const TAG_TEXT: u32 = 0x5445_5854;

/// `enum`
pub const TAG_ENUM: u32 = 0x656E_756D;

/// `UntF`
pub const TAG_UNTF: u32 = 0x556E_7446;

/// `VlLs`
pub const TAG_VLLS: u32 = 0x566C_4C73;

/// `Objc`
pub const TAG_OBJC: u32 = 0x4F62_6A63;

/// `tdta`
pub const TAG_TDTA: u32 = 0x7464_7461;

/// Why a descriptor could not be read.
#[derive(Debug, Clone, Copy, PartialEq, Eq, Structural)]
pub enum DescError {
    /// The data ends before the value does.
    UnexpectedEof,
    /// A string of more than [`MAX_DESCRIPTOR_STRING_LEN`] units.
    StringTooLong,
    /// An id of more than [`MAX_DESCRIPTOR_STRING_LEN`] bytes.
    IdTooLong,
    /// Raw data of more than [`MAX_DESCRIPTOR_STRING_LEN`] bytes.
    TdtaTooLong,
    /// Values nested deeper than [`MAX_DESCRIPTOR_DEPTH`].
    TooDeep,
    /// A type tag that is none of the known ones.
    UnknownTag(u32),
}

/// The four bytes of a tag.
pub open spec fn tag_bytes(tag: u32) -> Seq<u8> {
    seq![
        (tag / 0x100_0000) as u8,
        (tag / 0x1_0000 % 0x100) as u8,
        (tag / 0x100 % 0x100) as u8,
        (tag % 0x100) as u8,
    ]
}

/// The text of a tag.
pub fn tag_text(tag: u32) -> (r: String)
    ensures
        r@ == utf8_lossy_text(tag_bytes(tag)),
{
    let mut bytes: Vec<u8> = Vec::new();
    bytes.push((tag / 0x100_0000) as u8);
    bytes.push((tag / 0x1_0000 % 0x100) as u8);
    bytes.push((tag / 0x100 % 0x100) as u8);
    bytes.push((tag % 0x100) as u8);
    assert(bytes@ =~= tag_bytes(tag));
    utf8_lossy(bytes.as_slice())
}

impl DescError {
    /// The error in words.
    pub open spec fn message_text(self) -> Seq<char> {
        match self {
            DescError::UnexpectedEof => "failed to fill whole buffer"@,
            DescError::StringTooLong => "descriptor string too long"@,
            DescError::IdTooLong => "descriptor id too long"@,
            DescError::TdtaTooLong => "descriptor tdta too long"@,
            DescError::TooDeep => "descriptor nesting too deep"@,
            DescError::UnknownTag(tag) => "unknown descriptor type tag: "@ + utf8_lossy_text(
                tag_bytes(tag),
            ),
        }
    }

    /// The error in words.
    pub fn message(&self) -> (r: String)
        ensures
            r@ == self.message_text(),
    {
        match self {
            DescError::UnexpectedEof => "failed to fill whole buffer".to_owned(),
            DescError::StringTooLong => "descriptor string too long".to_owned(),
            DescError::IdTooLong => "descriptor id too long".to_owned(),
            DescError::TdtaTooLong => "descriptor tdta too long".to_owned(),
            DescError::TooDeep => "descriptor nesting too deep".to_owned(),
            DescError::UnknownTag(tag) => {
                let mut r: String = "unknown descriptor type tag: ".to_owned();
                r.append(tag_text(*tag).as_str());
                r
            },
        }
    }
}

/// What a read gives, and the position that it leaves.
pub type Read<T> = (Result<T, DescError>, nat);

/// The reader went from `before` to `then` as `expected` says, and gave `out`.
pub open spec fn reads<T: View>(
    before: ByteReader<'_>,
    then: ByteReader<'_>,
    out: Result<T, DescError>,
    expected: Read<T::V>,
) -> bool {
    &&& then.wf()
    &&& then.data == before.data
    &&& expected.1 == then.pos
    &&& expected.0 == match out {
        Ok(v) => Ok(v@),
        Err(e) => Err(e),
    }
}

/// One byte.
pub open spec fn byte_read(d: Seq<u8>, p: nat) -> Read<u8> {
    if fits(d, p, 1) {
        (Ok(d[p as int]), p + 1)
    } else {
        (Err(DescError::UnexpectedEof), d.len())
    }
}

/// A byte as a flag: anything but 0 is true.
pub open spec fn flag_read(d: Seq<u8>, p: nat) -> Read<bool> {
    if fits(d, p, 1) {
        (Ok(d[p as int] != 0), p + 1)
    } else {
        (Err(DescError::UnexpectedEof), d.len())
    }
}

/// An unsigned 32-bit number.
pub open spec fn u32_read(d: Seq<u8>, p: nat) -> Read<u32> {
    if fits(d, p, 4) {
        (Ok(be_u32(d, p as int)), p + 4)
    } else {
        (Err(DescError::UnexpectedEof), d.len())
    }
}

/// A signed 32-bit number.
pub open spec fn i32_read(d: Seq<u8>, p: nat) -> Read<i32> {
    if fits(d, p, 4) {
        (Ok(be_u32(d, p as int) as i32), p + 4)
    } else {
        (Err(DescError::UnexpectedEof), d.len())
    }
}

/// A 64-bit floating-point number.
pub open spec fn double_read(d: Seq<u8>, p: nat) -> Read<Double> {
    if fits(d, p, 8) {
        (Ok(Double { bits: be_u64(d, p as int) }), p + 8)
    } else {
        (Err(DescError::UnexpectedEof), d.len())
    }
}

/// A unit and a number. Which unit it is, the key says.
pub open spec fn unit_float_read(d: Seq<u8>, p: nat) -> Read<Double> {
    if fits(d, p, 4) {
        double_read(d, p + 4)
    } else {
        (Err(DescError::UnexpectedEof), d.len())
    }
}

/// `n` bytes.
pub open spec fn bytes_read(d: Seq<u8>, p: nat, n: nat) -> Read<Seq<u8>> {
    if fits(d, p, n) {
        (Ok(d.subrange(p as int, (p + n) as int)), p + n)
    } else {
        (Err(DescError::UnexpectedEof), d.len())
    }
}

/// The `n` code units at `p`.
pub open spec fn units_at(d: Seq<u8>, p: nat, n: nat) -> Seq<u16> {
    Seq::new(n, |i: int| be_u16(d, p + 2 * i))
}

/// Code units without a closing zero.
pub open spec fn without_nul(units: Seq<u16>) -> Seq<u16> {
    if units.len() > 0 && units.last() == 0 {
        units.drop_last()
    } else {
        units
    }
}

/// A text of `len` code units, of which a closing zero is left out.
pub open spec fn unicode_from(d: Seq<u8>, p: nat, len: nat) -> Read<Seq<char>> {
    if len == 0 {
        (Ok(seq![]), p)
    } else if len > MAX_DESCRIPTOR_STRING_LEN {
        (Err(DescError::StringTooLong), p)
    } else if fits(d, p, 2 * len) {
        (Ok(utf16_text(without_nul(units_at(d, p, len)))), p + 2 * len)
    } else {
        (Err(DescError::UnexpectedEof), d.len())
    }
}

/// A count of code units and the text.
pub open spec fn unicode_read(d: Seq<u8>, p: nat) -> Read<Seq<char>> {
    match u32_read(d, p) {
        (Ok(len), q) => unicode_from(d, q, len as nat),
        (Err(e), q) => (Err(e), q),
    }
}

/// The bytes of an id of declared length `len`; 0 declares four bytes.
pub open spec fn id_from(d: Seq<u8>, p: nat, len: u32) -> Read<Seq<u8>> {
    let n: nat = if len == 0 {
        4
    } else {
        len as nat
    };
    if n > MAX_DESCRIPTOR_STRING_LEN {
        (Err(DescError::IdTooLong), p)
    } else {
        bytes_read(d, p, n)
    }
}

/// A length and an id.
pub open spec fn id_read(d: Seq<u8>, p: nat) -> Read<Seq<u8>> {
    match u32_read(d, p) {
        (Ok(len), q) => id_from(d, q, len),
        (Err(e), q) => (Err(e), q),
    }
}

/// The type and the value of an enumerated value.
pub open spec fn enum_read(d: Seq<u8>, p: nat) -> Read<(Seq<u8>, Seq<u8>)> {
    match id_read(d, p) {
        (Ok(kind), q) => match id_read(d, q) {
            (Ok(value), q) => (Ok((kind, value)), q),
            (Err(e), q) => (Err(e), q),
        },
        (Err(e), q) => (Err(e), q),
    }
}

/// A class name, of which nothing is kept, the class id and the item count.
pub open spec fn object_head(d: Seq<u8>, p: nat) -> Read<(Seq<u8>, u32)> {
    match unicode_read(d, p) {
        (Ok(_), q) => match id_read(d, q) {
            (Ok(class), q) => match u32_read(d, q) {
                (Ok(count), q) => (Ok((class, count)), q),
                (Err(e), q) => (Err(e), q),
            },
            (Err(e), q) => (Err(e), q),
        },
        (Err(e), q) => (Err(e), q),
    }
}

/// An item's key and type tag.
pub open spec fn item_head(d: Seq<u8>, p: nat) -> Read<(Seq<u8>, u32)> {
    match id_read(d, p) {
        (Ok(key), q) => match u32_read(d, q) {
            (Ok(tag), q) => (Ok((key, tag)), q),
            (Err(e), q) => (Err(e), q),
        },
        (Err(e), q) => (Err(e), q),
    }
}

/// Raw data behind its length.
pub open spec fn raw_read(d: Seq<u8>, p: nat) -> Read<Seq<u8>> {
    match u32_read(d, p) {
        (Ok(len), q) => if len > MAX_DESCRIPTOR_STRING_LEN {
            (Err(DescError::TdtaTooLong), q)
        } else {
            bytes_read(d, q, len as nat)
        },
        (Err(e), q) => (Err(e), q),
    }
}

/// A read of which only success and position are kept.
pub open spec fn past<T>(read: Read<T>) -> Read<()> {
    match read {
        (Ok(_), q) => (Ok(()), q),
        (Err(e), q) => (Err(e), q),
    }
}

/// Reading past a value of type `tag` at nesting `depth`.
pub open spec fn skip_value(d: Seq<u8>, p: nat, tag: u32, depth: nat) -> Read<()>
    decreases MAX_DESCRIPTOR_DEPTH + 1 - depth, 0nat,
{
    if depth > MAX_DESCRIPTOR_DEPTH {
        (Err(DescError::TooDeep), p)
    } else if tag == TAG_BOOL {
        past(byte_read(d, p))
    } else if tag == TAG_LONG {
        past(u32_read(d, p))
    } else if tag == TAG_DOUB {
        past(double_read(d, p))
    } else if tag == TAG_TEXT {
        past(unicode_read(d, p))
    } else if tag == TAG_ENUM {
        past(enum_read(d, p))
    } else if tag == TAG_UNTF {
        past(unit_float_read(d, p))
    } else if tag == TAG_VLLS {
        match u32_read(d, p) {
            (Ok(count), q) => skip_elements(d, q, count as nat, depth + 1),
            (Err(e), q) => (Err(e), q),
        }
    } else if tag == TAG_OBJC {
        match object_head(d, p) {
            (Ok((_, count)), q) => skip_items(d, q, count as nat, depth + 1),
            (Err(e), q) => (Err(e), q),
        }
    } else if tag == TAG_TDTA {
        past(raw_read(d, p))
    } else {
        (Err(DescError::UnknownTag(tag)), p)
    }
}

/// Reading past `n` list elements, each a type tag and a value.
pub open spec fn skip_elements(d: Seq<u8>, p: nat, n: nat, depth: nat) -> Read<()>
    decreases MAX_DESCRIPTOR_DEPTH + 1 - depth, n + 1,
{
    if n == 0 {
        (Ok(()), p)
    } else {
        match u32_read(d, p) {
            (Ok(tag), q) => match skip_value(d, q, tag, depth) {
                (Ok(_), q) => skip_elements(d, q, (n - 1) as nat, depth),
                (Err(e), q) => (Err(e), q),
            },
            (Err(e), q) => (Err(e), q),
        }
    }
}

/// Reading past `n` items.
pub open spec fn skip_items(d: Seq<u8>, p: nat, n: nat, depth: nat) -> Read<()>
    decreases MAX_DESCRIPTOR_DEPTH + 1 - depth, n + 1,
{
    if n == 0 {
        (Ok(()), p)
    } else {
        match item_head(d, p) {
            (Ok((_, tag)), q) => match skip_value(d, q, tag, depth) {
                (Ok(_), q) => skip_items(d, q, (n - 1) as nat, depth),
                (Err(e), q) => (Err(e), q),
            },
            (Err(e), q) => (Err(e), q),
        }
    }
}

pub fn read_byte(r: &mut ByteReader<'_>) -> (o: Result<u8, DescError>)
    requires
        old(r).wf(),
    ensures
        reads(*old(r), *final(r), o, byte_read(old(r).data@, old(r).pos as nat)),
{
    r.read_u8().ok_or(DescError::UnexpectedEof)
}

pub fn read_flag(r: &mut ByteReader<'_>) -> (o: Result<bool, DescError>)
    requires
        old(r).wf(),
    ensures
        reads(*old(r), *final(r), o, flag_read(old(r).data@, old(r).pos as nat)),
{
    Ok(read_byte(r)? != 0)
}

/// A number or a type tag.
pub fn read_u32(r: &mut ByteReader<'_>) -> (o: Result<u32, DescError>)
    requires
        old(r).wf(),
    ensures
        reads(*old(r), *final(r), o, u32_read(old(r).data@, old(r).pos as nat)),
{
    r.read_u32().ok_or(DescError::UnexpectedEof)
}

pub fn read_i32(r: &mut ByteReader<'_>) -> (o: Result<i32, DescError>)
    requires
        old(r).wf(),
    ensures
        reads(*old(r), *final(r), o, i32_read(old(r).data@, old(r).pos as nat)),
{
    let bits: u32 = read_u32(r)?;
    Ok(bits as i32)
}

pub fn read_double(r: &mut ByteReader<'_>) -> (o: Result<Double, DescError>)
    requires
        old(r).wf(),
    ensures
        reads(*old(r), *final(r), o, double_read(old(r).data@, old(r).pos as nat)),
{
    let bits: u64 = r.read_u64().ok_or(DescError::UnexpectedEof)?;
    Ok(Double { bits })
}

pub fn read_unit_float(r: &mut ByteReader<'_>) -> (o: Result<Double, DescError>)
    requires
        old(r).wf(),
    ensures
        reads(*old(r), *final(r), o, unit_float_read(old(r).data@, old(r).pos as nat)),
{
    let _unit: u32 = read_u32(r)?;
    read_double(r)
}

pub fn read_bytes<'a>(r: &mut ByteReader<'a>, n: usize) -> (o: Result<&'a [u8], DescError>)
    requires
        old(r).wf(),
    ensures
        reads(*old(r), *final(r), o, bytes_read(old(r).data@, old(r).pos as nat, n as nat)),
{
    r.take(n).ok_or(DescError::UnexpectedEof)
}

/// The code units that fill `bytes`.
pub fn code_units(bytes: &[u8]) -> (units: Vec<u16>)
    requires
        bytes@.len() % 2 == 0,
    ensures
        units@ == units_at(bytes@, 0, bytes@.len() / 2),
{
    let mut units: Vec<u16> = Vec::with_capacity(bytes.len() / 2);
    let mut i: usize = 0;
    while i < bytes.len() / 2
        invariant
            bytes@.len() % 2 == 0,
            i <= bytes@.len() / 2,
            units@ =~= units_at(bytes@, 0, i as nat),
        decreases bytes@.len() - i,
    {
        units.push(u16_at(bytes, 2 * i));
        i += 1;
    }
    units
}

/// The text of the code units that fill `bytes`, of which a closing zero is left out.
pub fn unicode_text(bytes: &[u8]) -> (r: String)
    requires
        bytes@.len() % 2 == 0,
    ensures
        r@ == utf16_text(without_nul(units_at(bytes@, 0, bytes@.len() / 2))),
{
    let mut units: Vec<u16> = code_units(bytes);
    if units.len() > 0 && units[units.len() - 1] == 0 {
        units.pop();
    }
    assert(units@ =~= without_nul(units_at(bytes@, 0, bytes@.len() / 2)));
    utf16_lossy(units.as_slice())
}

pub fn read_unicode_string_from(r: &mut ByteReader<'_>, len: u32) -> (o: Result<String, DescError>)
    requires
        old(r).wf(),
    ensures
        reads(*old(r), *final(r), o, unicode_from(old(r).data@, old(r).pos as nat, len as nat)),
{
    if len == 0 {
        let r: String = String::new();
        assert(r@ =~= seq![]);
        return Ok(r);
    }
    if len as usize > MAX_DESCRIPTOR_STRING_LEN {
        return Err(DescError::StringTooLong);
    }
    let bytes: &[u8] = read_bytes(r, 2 * len as usize)?;
    proof {
        assert(units_at(bytes@, 0, bytes@.len() / 2) =~= units_at(
            old(r).data@,
            old(r).pos as nat,
            len as nat,
        ));
    }
    Ok(unicode_text(bytes))
}

/// A count of code units and the text.
pub fn read_unicode_string(r: &mut ByteReader<'_>) -> (o: Result<String, DescError>)
    requires
        old(r).wf(),
    ensures
        reads(*old(r), *final(r), o, unicode_read(old(r).data@, old(r).pos as nat)),
{
    let len: u32 = read_u32(r)?;
    read_unicode_string_from(r, len)
}

pub fn read_id_from<'a>(r: &mut ByteReader<'a>, len: u32) -> (o: Result<&'a [u8], DescError>)
    requires
        old(r).wf(),
    ensures
        reads(*old(r), *final(r), o, id_from(old(r).data@, old(r).pos as nat, len)),
{
    let n: usize = if len == 0 {
        4
    } else {
        len as usize
    };
    if n > MAX_DESCRIPTOR_STRING_LEN {
        return Err(DescError::IdTooLong);
    }
    read_bytes(r, n)
}

/// A length and an id.
pub fn read_id<'a>(r: &mut ByteReader<'a>) -> (o: Result<&'a [u8], DescError>)
    requires
        old(r).wf(),
    ensures
        reads(*old(r), *final(r), o, id_read(old(r).data@, old(r).pos as nat)),
{
    let len: u32 = read_u32(r)?;
    read_id_from(r, len)
}

pub fn read_enum<'a>(r: &mut ByteReader<'a>) -> (o: Result<(&'a [u8], &'a [u8]), DescError>)
    requires
        old(r).wf(),
    ensures
        reads(*old(r), *final(r), o, enum_read(old(r).data@, old(r).pos as nat)),
{
    let kind: &'a [u8] = read_id(r)?;
    let value: &'a [u8] = read_id(r)?;
    Ok((kind, value))
}

pub fn read_object_head<'a>(r: &mut ByteReader<'a>) -> (o: Result<(&'a [u8], u32), DescError>)
    requires
        old(r).wf(),
    ensures
        reads(*old(r), *final(r), o, object_head(old(r).data@, old(r).pos as nat)),
{
    let _name: String = read_unicode_string(r)?;
    let class: &'a [u8] = read_id(r)?;
    let count: u32 = read_u32(r)?;
    Ok((class, count))
}

pub fn read_item_head<'a>(r: &mut ByteReader<'a>) -> (o: Result<(&'a [u8], u32), DescError>)
    requires
        old(r).wf(),
    ensures
        reads(*old(r), *final(r), o, item_head(old(r).data@, old(r).pos as nat)),
{
    let key: &'a [u8] = read_id(r)?;
    let tag: u32 = read_u32(r)?;
    Ok((key, tag))
}

pub fn read_raw<'a>(r: &mut ByteReader<'a>) -> (o: Result<&'a [u8], DescError>)
    requires
        old(r).wf(),
    ensures
        reads(*old(r), *final(r), o, raw_read(old(r).data@, old(r).pos as nat)),
{
    let len: u32 = read_u32(r)?;
    if len as usize > MAX_DESCRIPTOR_STRING_LEN {
        return Err(DescError::TdtaTooLong);
    }
    read_bytes(r, len as usize)
}

/// Reads past a value of type `tag` at nesting `depth`.
pub fn skip_descriptor_value(r: &mut ByteReader<'_>, tag: u32, depth: usize) -> (o: Result<
    (),
    DescError,
>)
    requires
        old(r).wf(),
    ensures
        reads(*old(r), *final(r), o, skip_value(old(r).data@, old(r).pos as nat, tag, depth as nat)),
    decreases MAX_DESCRIPTOR_DEPTH + 1 - depth,
{
    if depth > MAX_DESCRIPTOR_DEPTH {
        return Err(DescError::TooDeep);
    }
    if tag == TAG_BOOL {
        read_byte(r)?;
    } else if tag == TAG_LONG {
        read_u32(r)?;
    } else if tag == TAG_DOUB {
        read_double(r)?;
    } else if tag == TAG_TEXT {
        read_unicode_string(r)?;
    } else if tag == TAG_ENUM {
        read_enum(r)?;
    } else if tag == TAG_UNTF {
        read_unit_float(r)?;
    } else if tag == TAG_VLLS {
        let count: u32 = read_u32(r)?;
        let ghost q = r.pos as nat;
        let mut i: u32 = 0;
        while i < count
            invariant
                i <= count,
                depth <= MAX_DESCRIPTOR_DEPTH,
                r.wf(),
                r.data == old(r).data,
                skip_elements(r.data@, r.pos as nat, (count - i) as nat, (depth + 1) as nat)
                    == skip_elements(r.data@, q, count as nat, (depth + 1) as nat),
                skip_value(old(r).data@, old(r).pos as nat, tag, depth as nat) == skip_elements(
                    r.data@,
                    q,
                    count as nat,
                    (depth + 1) as nat,
                ),
            decreases count - i,
        {
            let element: u32 = read_u32(r)?;
            skip_descriptor_value(r, element, depth + 1)?;
            i += 1;
        }
    } else if tag == TAG_OBJC {
        let (_class, count) = read_object_head(r)?;
        let ghost q = r.pos as nat;
        let mut i: u32 = 0;
        while i < count
            invariant
                i <= count,
                depth <= MAX_DESCRIPTOR_DEPTH,
                r.wf(),
                r.data == old(r).data,
                skip_items(r.data@, r.pos as nat, (count - i) as nat, (depth + 1) as nat)
                    == skip_items(r.data@, q, count as nat, (depth + 1) as nat),
                skip_value(old(r).data@, old(r).pos as nat, tag, depth as nat) == skip_items(
                    r.data@,
                    q,
                    count as nat,
                    (depth + 1) as nat,
                ),
            decreases count - i,
        {
            let (_key, item) = read_item_head(r)?;
            skip_descriptor_value(r, item, depth + 1)?;
            i += 1;
        }
    } else if tag == TAG_TDTA {
        read_raw(r)?;
    } else {
        return Err(DescError::UnknownTag(tag));
    }
    Ok(())
}

} // verus!
