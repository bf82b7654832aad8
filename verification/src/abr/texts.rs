//! Texts that were written are read back.
use vstd::prelude::*;
use vstd::utf8::{char_is_scalar, char_u32_cast};
use crate::abr::descriptor::without_nul;
use crate::support::text::{is_surrogate, utf16_text};

verus! {

/// The UTF-16 code units of a character.
pub open spec fn units_of(c: char) -> Seq<u16> {
    let n = c as u32;
    if n < 0x1_0000 {
        seq![n as u16]
    } else {
        seq![
            (0xD800 + (n - 0x1_0000) / 0x400) as u16,
            (0xDC00 + (n - 0x1_0000) % 0x400) as u16,
        ]
    }
}

/// The UTF-16 code units of a text.
pub open spec fn utf16_of(chars: Seq<char>) -> Seq<u16>
    decreases chars.len(),
{
    if chars.len() == 0 {
        seq![]
    } else {
        units_of(chars[0]) + utf16_of(chars.drop_first())
    }
}

proof fn units_are_decoded(chars: Seq<char>)
    ensures
        utf16_text(utf16_of(chars)) == chars,
    decreases chars.len(),
{
    let units = utf16_of(chars);
    if chars.len() == 0 {
        assert(utf16_text(units) =~= chars);
    } else {
        let c = chars[0];
        let rest = chars.drop_first();
        units_are_decoded(rest);
        char_is_scalar(c);
        let n = c as u32;
        char_u32_cast(c, n);
        if n < 0x1_0000 {
            assert(units[0] == n as u16);
            assert(units.skip(1) =~= utf16_of(rest));
            assert(units[0] as u32 == n);
        } else {
            let high = (0xD800 + (n - 0x1_0000) / 0x400) as u16;
            let low = (0xDC00 + (n - 0x1_0000) % 0x400) as u16;
            assert(units[0] == high && units[1] == low);
            assert(units.skip(2) =~= utf16_of(rest));
            assert(0xD800 <= high < 0xDC00 && 0xDC00 <= low <= 0xDFFF);
            assert(0x1_0000 + (high - 0xD800) * 0x400 + (low - 0xDC00) == n);
        }
        assert(utf16_text(units) =~= seq![c] + rest);
        assert(seq![c] + rest =~= chars);
    }
}

proof fn last_unit_is_zero(chars: Seq<char>)
    requires
        utf16_of(chars).len() > 0,
        utf16_of(chars).last() == 0,
    ensures
        chars.len() > 0,
        chars.last() == '\0',
    decreases chars.len(),
{
    let rest = chars.drop_first();
    let c = chars[0];
    char_is_scalar(c);
    if utf16_of(rest).len() > 0 {
        assert(utf16_of(chars).last() == utf16_of(rest).last());
        last_unit_is_zero(rest);
        assert(chars.last() == rest.last());
    } else {
        if rest.len() > 0 {
            assert(units_of(rest[0]).len() > 0);
            assert(false);
        }
        assert(utf16_of(chars) =~= units_of(c));
        let n = c as u32;
        char_u32_cast(c, n);
        assert(n == 0);
        assert('\0' as u32 == 0);
        char_u32_cast('\0', 0);
    }
}

/// A text is read back as it was written, with or without a closing zero.
pub proof fn a_text_is_read_back(chars: Seq<char>)
    ensures
        utf16_text(without_nul(utf16_of(chars).push(0))) == chars,
        chars.len() == 0 || chars.last() != '\0' ==> utf16_text(without_nul(utf16_of(chars)))
            == chars,
{
    let units = utf16_of(chars);
    units_are_decoded(chars);
    assert(units.push(0).drop_last() =~= units);
    if units.len() > 0 && units.last() == 0 {
        last_unit_is_zero(chars);
    }
}

} // verus!
