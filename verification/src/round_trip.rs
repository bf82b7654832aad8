//! What is written is read back.
use vstd::prelude::*;
use vstd::utf8::is_ascii_chars_encode_utf8;
use crate::abr::descriptor::{
    double_read, enum_read, flag_read, i32_read, id_read, item_head, object_head, u32_read,
    unicode_read, unit_float_read, DescError, MAX_DESCRIPTOR_STRING_LEN, TAG_BOOL, TAG_DOUB,
    TAG_ENUM, TAG_LONG, TAG_OBJC, TAG_TDTA, TAG_TEXT, TAG_UNTF, TAG_VLLS,
};
use crate::abr::preset::{brvr_items, brvr_read, brvr_step, BrVr, Flow};
use crate::fixture::{
    be16, be32, be64, bool_item, brvr_item, doub_ostype_item, enum_item, key_bytes, long_item,
    named_unit_float_item, ostype_bytes, unit_float_item,
};
use crate::support::bytes::be_u32;
use crate::support::double::Double;
use crate::support::text::ascii;

verus! {

/// Do the bytes `s` stand at `p`?
pub open spec fn stands(d: Seq<u8>, p: nat, s: Seq<u8>) -> bool {
    p + s.len() <= d.len() && d.subrange(p as int, (p + s.len()) as int) == s
}

pub(crate) proof fn stands_parts(d: Seq<u8>, p: nat, a: Seq<u8>, b: Seq<u8>)
    requires
        stands(d, p, a + b),
    ensures
        stands(d, p, a),
        stands(d, p + a.len(), b),
{
    let all = d.subrange(p as int, (p + a.len() + b.len()) as int);
    assert(all == a + b);
    assert forall|i: int| 0 <= i < a.len() implies d[p + i] == a[i] by {
        assert(all[i] == (a + b)[i]);
    }
    assert forall|i: int| 0 <= i < b.len() implies d[p + a.len() + i] == b[i] by {
        assert(all[a.len() + i] == (a + b)[a.len() + i]);
    }
    assert(d.subrange(p as int, (p + a.len()) as int) =~= a);
    assert(d.subrange((p + a.len()) as int, (p + a.len() + b.len()) as int) =~= b);
}

pub(crate) proof fn stands_at(d: Seq<u8>, p: nat, s: Seq<u8>, i: int)
    requires
        stands(d, p, s),
        0 <= i < s.len(),
    ensures
        d[p + i] == s[i],
{
    assert(d.subrange(p as int, (p + s.len()) as int)[i] == s[i]);
}

pub(crate) proof fn u32_is_read(d: Seq<u8>, p: nat, n: u32)
    requires
        stands(d, p, be32(n)),
    ensures
        u32_read(d, p) == (Ok::<u32, DescError>(n), p + 4),
        i32_read(d, p) == (Ok::<i32, DescError>(n as i32), p + 4),
        be_u32(d, p as int) == n,
{
    stands_at(d, p, be32(n), 0);
    stands_at(d, p, be32(n), 1);
    stands_at(d, p, be32(n), 2);
    stands_at(d, p, be32(n), 3);
}

pub(crate) proof fn double_is_read(d: Seq<u8>, p: nat, n: u64)
    requires
        stands(d, p, be64(n)),
    ensures
        double_read(d, p) == (Ok::<Double, DescError>(Double { bits: n }), p + 8),
{
    stands_parts(d, p, be32((n / 0x1_0000_0000) as u32), be32((n % 0x1_0000_0000) as u32));
    u32_is_read(d, p, (n / 0x1_0000_0000) as u32);
    u32_is_read(d, p + 4, (n % 0x1_0000_0000) as u32);
}

/// Can a key be read back? It is not empty, and not too long.
pub open spec fn readable(key: Seq<u8>) -> bool {
    1 <= key.len() <= MAX_DESCRIPTOR_STRING_LEN
}

/// A key that was written is read back.
pub proof fn key_is_read_back(d: Seq<u8>, p: nat, key: Seq<u8>)
    requires
        stands(d, p, key_bytes(key)),
        readable(key),
    ensures
        id_read(d, p) == (Ok::<Seq<u8>, DescError>(key), p + key_bytes(key).len()),
{
    stands_parts(d, p, be32(key.len() as u32), key);
    u32_is_read(d, p, key.len() as u32);
}

/// A key of four bytes that was written behind a length of 0 is read back.
pub proof fn ostype_is_read_back(d: Seq<u8>, p: nat, key: Seq<u8>)
    requires
        stands(d, p, ostype_bytes(key)),
        key.len() == 4,
    ensures
        id_read(d, p) == (Ok::<Seq<u8>, DescError>(key), p + 8),
{
    stands_parts(d, p, be32(0), key);
    u32_is_read(d, p, 0);
}

pub(crate) proof fn tags()
    ensures
        ascii("bool") == be32(TAG_BOOL),
        ascii("doub") == be32(TAG_DOUB),
        ascii("UntF") == be32(TAG_UNTF),
        ascii("enum") == be32(TAG_ENUM),
        ascii("long") == be32(TAG_LONG),
        ascii("Objc") == be32(TAG_OBJC),
        ascii("TEXT") == be32(TAG_TEXT),
        ascii("VlLs") == be32(TAG_VLLS),
        ascii("tdta") == be32(TAG_TDTA),
{
    reveal_strlit("TEXT");
    reveal_strlit("VlLs");
    reveal_strlit("tdta");
    is_ascii_chars_encode_utf8("TEXT"@);
    is_ascii_chars_encode_utf8("VlLs"@);
    is_ascii_chars_encode_utf8("tdta"@);
    assert(ascii("TEXT") =~= be32(TAG_TEXT));
    assert(ascii("VlLs") =~= be32(TAG_VLLS));
    assert(ascii("tdta") =~= be32(TAG_TDTA));
    reveal_strlit("bool");
    reveal_strlit("doub");
    reveal_strlit("UntF");
    reveal_strlit("enum");
    reveal_strlit("long");
    reveal_strlit("Objc");
    is_ascii_chars_encode_utf8("bool"@);
    is_ascii_chars_encode_utf8("doub"@);
    is_ascii_chars_encode_utf8("UntF"@);
    is_ascii_chars_encode_utf8("enum"@);
    is_ascii_chars_encode_utf8("long"@);
    is_ascii_chars_encode_utf8("Objc"@);
    assert(ascii("bool") =~= be32(TAG_BOOL));
    assert(ascii("doub") =~= be32(TAG_DOUB));
    assert(ascii("UntF") =~= be32(TAG_UNTF));
    assert(ascii("enum") =~= be32(TAG_ENUM));
    assert(ascii("long") =~= be32(TAG_LONG));
    assert(ascii("Objc") =~= be32(TAG_OBJC));
}

proof fn head_is_read(d: Seq<u8>, p: nat, key: Seq<u8>, tag: u32, rest: Seq<u8>)
    requires
        stands(d, p, key_bytes(key) + (be32(tag) + rest)),
        readable(key),
    ensures
        item_head(d, p) == (Ok::<(Seq<u8>, u32), DescError>((key, tag)), p + 8 + key.len()),
        stands(d, p + 8 + key.len(), rest),
{
    stands_parts(d, p, key_bytes(key), be32(tag) + rest);
    key_is_read_back(d, p, key);
    stands_parts(d, p + key_bytes(key).len(), be32(tag), rest);
    u32_is_read(d, p + key_bytes(key).len(), tag);
}

proof fn ostype_head_is_read(d: Seq<u8>, p: nat, key: Seq<u8>, tag: u32, rest: Seq<u8>)
    requires
        stands(d, p, ostype_bytes(key) + (be32(tag) + rest)),
        key.len() == 4,
    ensures
        item_head(d, p) == (Ok::<(Seq<u8>, u32), DescError>((key, tag)), p + 12),
        stands(d, p + 12, rest),
{
    stands_parts(d, p, ostype_bytes(key), be32(tag) + rest);
    ostype_is_read_back(d, p, key);
    stands_parts(d, p + 8, be32(tag), rest);
    u32_is_read(d, p + 8, tag);
}

/// A flag that was written is read back under its key.
pub proof fn bool_is_read_back(d: Seq<u8>, p: nat, key: Seq<u8>, val: bool)
    requires
        stands(d, p, bool_item(key, val)),
        readable(key),
    ensures
        item_head(d, p) == (Ok::<(Seq<u8>, u32), DescError>((key, TAG_BOOL)), p + 8 + key.len()),
        flag_read(d, p + 8 + key.len()) == (
            Ok::<bool, DescError>(val),
            p + bool_item(key, val).len(),
        ),
{
    tags();
    let last = seq![
        if val {
            1u8
        } else {
            0u8
        },
    ];
    assert(bool_item(key, val) =~= key_bytes(key) + (be32(TAG_BOOL) + last));
    head_is_read(d, p, key, TAG_BOOL, last);
    stands_at(d, p + 8 + key.len(), last, 0);
}

/// A number that was written under a key of four bytes is read back.
pub proof fn doub_is_read_back(d: Seq<u8>, p: nat, key: Seq<u8>, val: Double)
    requires
        stands(d, p, doub_ostype_item(key, val)),
        key.len() == 4,
    ensures
        item_head(d, p) == (Ok::<(Seq<u8>, u32), DescError>((key, TAG_DOUB)), p + 12),
        double_read(d, p + 12) == (
            Ok::<Double, DescError>(val),
            p + doub_ostype_item(key, val).len(),
        ),
{
    tags();
    assert(doub_ostype_item(key, val) =~= ostype_bytes(key) + (be32(TAG_DOUB) + be64(val.bits)));
    ostype_head_is_read(d, p, key, TAG_DOUB, be64(val.bits));
    double_is_read(d, p + 12, val.bits);
}

pub(crate) proof fn unit_float_is_read(d: Seq<u8>, p: nat, unit: Seq<u8>, val: Double)
    requires
        stands(d, p, unit + be64(val.bits)),
        unit.len() == 4,
    ensures
        unit_float_read(d, p) == (Ok::<Double, DescError>(val), p + 12),
{
    stands_parts(d, p, unit, be64(val.bits));
    double_is_read(d, p + 4, val.bits);
}

/// A number with a unit that was written under a key of four bytes is read back.
pub proof fn unit_float_is_read_back(
    d: Seq<u8>,
    p: nat,
    key: Seq<u8>,
    unit: Seq<u8>,
    val: Double,
)
    requires
        stands(d, p, unit_float_item(key, unit, val)),
        key.len() == 4,
        unit.len() == 4,
    ensures
        item_head(d, p) == (Ok::<(Seq<u8>, u32), DescError>((key, TAG_UNTF)), p + 12),
        unit_float_read(d, p + 12) == (
            Ok::<Double, DescError>(val),
            p + unit_float_item(key, unit, val).len(),
        ),
{
    tags();
    let rest = unit + be64(val.bits);
    assert(unit_float_item(key, unit, val) =~= ostype_bytes(key) + (be32(TAG_UNTF) + rest));
    ostype_head_is_read(d, p, key, TAG_UNTF, rest);
    unit_float_is_read(d, p + 12, unit, val);
}

/// A number with a unit that was written is read back under its key.
pub proof fn named_unit_float_is_read_back(
    d: Seq<u8>,
    p: nat,
    key: Seq<u8>,
    unit: Seq<u8>,
    val: Double,
)
    requires
        stands(d, p, named_unit_float_item(key, unit, val)),
        readable(key),
        unit.len() == 4,
    ensures
        item_head(d, p) == (Ok::<(Seq<u8>, u32), DescError>((key, TAG_UNTF)), p + 8 + key.len()),
        unit_float_read(d, p + 8 + key.len()) == (
            Ok::<Double, DescError>(val),
            p + named_unit_float_item(key, unit, val).len(),
        ),
{
    tags();
    let rest = unit + be64(val.bits);
    assert(named_unit_float_item(key, unit, val) =~= key_bytes(key) + (be32(TAG_UNTF) + rest));
    head_is_read(d, p, key, TAG_UNTF, rest);
    unit_float_is_read(d, p + 8 + key.len(), unit, val);
}

/// An enumerated value that was written is read back under its key.
pub proof fn enum_is_read_back(
    d: Seq<u8>,
    p: nat,
    key: Seq<u8>,
    enum_type: Seq<u8>,
    value: Seq<u8>,
)
    requires
        stands(d, p, enum_item(key, enum_type, value)),
        readable(key),
        readable(enum_type),
        readable(value),
    ensures
        item_head(d, p) == (Ok::<(Seq<u8>, u32), DescError>((key, TAG_ENUM)), p + 8 + key.len()),
        enum_read(d, p + 8 + key.len()) == (
            Ok::<(Seq<u8>, Seq<u8>), DescError>((enum_type, value)),
            p + enum_item(key, enum_type, value).len(),
        ),
{
    tags();
    let rest = key_bytes(enum_type) + key_bytes(value);
    assert(enum_item(key, enum_type, value) =~= key_bytes(key) + (be32(TAG_ENUM) + rest));
    head_is_read(d, p, key, TAG_ENUM, rest);
    let q = p + 8 + key.len();
    stands_parts(d, q, key_bytes(enum_type), key_bytes(value));
    key_is_read_back(d, q, enum_type);
    key_is_read_back(d, q + key_bytes(enum_type).len(), value);
}

proof fn long_is_read(d: Seq<u8>, p: nat, key: Seq<u8>, val: i32)
    requires
        stands(d, p, long_item(key, val)),
        readable(key),
    ensures
        item_head(d, p) == (Ok::<(Seq<u8>, u32), DescError>((key, TAG_LONG)), p + 8 + key.len()),
        i32_read(d, p + 8 + key.len()) == (
            Ok::<i32, DescError>(val),
            p + long_item(key, val).len(),
        ),
        u32_read(d, p + 8 + key.len()).0 is Ok,
{
    tags();
    assert(long_item(key, val) =~= key_bytes(key) + (be32(TAG_LONG) + be32(val as u32)));
    head_is_read(d, p, key, TAG_LONG, be32(val as u32));
    u32_is_read(d, p + 8 + key.len(), val as u32);
    assert((val as u32) as i32 == val) by (bit_vector);
}

proof fn names()
    ensures
        ascii("brVr").len() == 4,
        ascii("bVTy").len() == 4,
        ascii("fStp").len() == 4,
        ascii("jitter").len() == 6,
        ascii("Mnm ").len() == 4,
        ascii("#Prc").len() == 4,
        ascii("fStp") != ascii("bVTy"),
        ascii("fStp") != ascii("jitter"),
        ascii("jitter") != ascii("bVTy"),
        ascii("Mnm ") != ascii("bVTy"),
        ascii("Mnm ") != ascii("jitter"),
{
    reveal_strlit("brVr");
    reveal_strlit("bVTy");
    reveal_strlit("fStp");
    reveal_strlit("jitter");
    reveal_strlit("Mnm ");
    reveal_strlit("#Prc");
    is_ascii_chars_encode_utf8("brVr"@);
    is_ascii_chars_encode_utf8("bVTy"@);
    is_ascii_chars_encode_utf8("fStp"@);
    is_ascii_chars_encode_utf8("jitter"@);
    is_ascii_chars_encode_utf8("Mnm "@);
    is_ascii_chars_encode_utf8("#Prc"@);
    assert("bVTy"@[0] == 'b' && "fStp"@[0] == 'f' && "Mnm "@[0] == 'M');
    assert(ascii("bVTy")[0] == 'b' as u8);
    assert(ascii("fStp")[0] == 'f' as u8);
    assert(ascii("Mnm ")[0] == 'M' as u8);
}

proof fn brvr_head_is_read(d: Seq<u8>, p: nat)
    requires
        stands(d, p, be32(1) + be16(0) + key_bytes(ascii("brVr")) + be32(4)),
    ensures
        object_head(d, p) == (
            Ok::<(Seq<u8>, u32), DescError>((ascii("brVr"), 4u32)),
            p + 18,
        ),
{
    names();
    let name = be32(1) + be16(0);
    let class = key_bytes(ascii("brVr"));
    stands_parts(d, p, name + class, be32(4));
    stands_parts(d, p, name, class);
    stands_parts(d, p, be32(1), be16(0));
    u32_is_read(d, p, 1);
    key_is_read_back(d, p + 6, ascii("brVr"));
    u32_is_read(d, p + 14, 4);
    assert(unicode_read(d, p).0 is Ok && unicode_read(d, p).1 == p + 6);
}

/// A dynamics object that was written is read back under its key, with its control and its
/// jitter.
pub proof fn brvr_is_read_back(
    d: Seq<u8>,
    p: nat,
    key: Seq<u8>,
    control: i32,
    jitter_pct: Double,
)
    requires
        stands(d, p, brvr_item(key, control, jitter_pct)),
        readable(key),
    ensures
        item_head(d, p) == (Ok::<(Seq<u8>, u32), DescError>((key, TAG_OBJC)), p + 8 + key.len()),
        brvr_read(d, p + 8 + key.len()) == (
            Ok::<BrVr, DescError>(
                BrVr { control: Some(control), jitter_pct: Some(jitter_pct) },
            ),
            p + brvr_item(key, control, jitter_pct).len(),
        ),
{
    tags();
    names();
    let head = be32(1) + be16(0) + key_bytes(ascii("brVr")) + be32(4);
    let first = long_item(ascii("bVTy"), control);
    let second = long_item(ascii("fStp"), 1);
    let third = named_unit_float_item(ascii("jitter"), ascii("#Prc"), jitter_pct);
    let fourth = named_unit_float_item(ascii("Mnm "), ascii("#Prc"), Double { bits: 0 });
    let rest = head + (first + (second + (third + fourth)));
    assert(brvr_item(key, control, jitter_pct) =~= key_bytes(key) + (be32(TAG_OBJC) + rest));
    head_is_read(d, p, key, TAG_OBJC, rest);
    let q = p + 8 + key.len();
    stands_parts(d, q, head, first + (second + (third + fourth)));
    brvr_head_is_read(d, q);
    let q1 = q + 18;
    stands_parts(d, q1, first, second + (third + fourth));
    let q2 = q1 + first.len();
    stands_parts(d, q2, second, third + fourth);
    let q3 = q2 + second.len();
    stands_parts(d, q3, third, fourth);
    let q4 = q3 + third.len();
    long_is_read(d, q1, ascii("bVTy"), control);
    long_is_read(d, q2, ascii("fStp"), 1);
    named_unit_float_is_read_back(d, q3, ascii("jitter"), ascii("#Prc"), jitter_pct);
    named_unit_float_is_read_back(d, q4, ascii("Mnm "), ascii("#Prc"), Double { bits: 0 });
    let none = BrVr { control: None, jitter_pct: None };
    let one = BrVr { control: Some(control), jitter_pct: None };
    let both = BrVr { control: Some(control), jitter_pct: Some(jitter_pct) };
    assert(brvr_step(d, q1 + 12, ascii("bVTy"), TAG_LONG, none) == (Flow::Next(one), q2));
    assert(brvr_step(d, q2 + 12, ascii("fStp"), TAG_LONG, one) == (Flow::Next(one), q3));
    assert(brvr_step(d, q3 + 14, ascii("jitter"), TAG_UNTF, one) == (Flow::Next(both), q4));
    let end = q4 + fourth.len();
    assert(brvr_step(d, q4 + 12, ascii("Mnm "), TAG_UNTF, both) == (Flow::Next(both), end));
    assert(brvr_items(d, end, 0, both) == (Ok::<BrVr, DescError>(both), end));
    assert(brvr_items(d, q4, 1, both) == brvr_items(d, end, 0, both));
    assert(brvr_items(d, q3, 2, one) == brvr_items(d, q4, 1, both));
    assert(brvr_items(d, q2, 3, one) == brvr_items(d, q3, 2, one));
    assert(brvr_items(d, q1, 4, none) == brvr_items(d, q2, 3, one));
    reveal(brvr_read);
}

} // verus!
