//! The boundary with `fleck`'s uf2 fonts: what the layout reads of a font, and how.
use vstd::prelude::*;

use fleck::Font;

verus! {

/// fleck's uf2 font, held opaque: what the layout reads of it goes through [`glyph`] and
/// `Font::height`.
#[verifier::external_type_specification]
#[verifier::external_body]
pub struct ExFont(fleck::Font);

/// What a font holds: the pixel width of each of its glyphs, indexed by code point.
pub uninterp spec fn glyph_widths(f: Font) -> Seq<u8>;

/// What a font holds: the rows of each of its glyphs, indexed by code point. Each row is a
/// bitmap whose most significant bit is the leftmost pixel.
pub uninterp spec fn glyph_bitmaps(f: Font) -> Seq<Seq<u16>>;

/// Relies on fleck's `Font::height`: every glyph of a uf2 font is sixteen pixels tall.
pub assume_specification[ fleck::Font::height ](f: &Font) -> (r: usize)
    ensures
        r == 16,
;

/// The number of pixel rows of every glyph.
pub const GLYPH_HEIGHT: u32 = 16;

/// A glyph as the layout reads it: its width and its rows of bits.
pub struct Glyph {
    pub width: u8,
    pub rows: Vec<u16>,
}

/// The width that character `c` takes up in font `f`: its glyph's width, or nothing for a
/// character that the font does not describe.
pub open spec fn char_width(f: Font, c: char) -> nat {
    if (c as u32) < glyph_widths(f).len() {
        glyph_widths(f)[c as int] as nat
    } else {
        0
    }
}

/// The width of the characters `s` in font `f`: the sum of their widths.
pub open spec fn str_width(f: Font, s: Seq<char>) -> nat
    decreases s.len(),
{
    if s.len() == 0 {
        0
    } else {
        str_width(f, s.drop_last()) + char_width(f, s.last())
    }
}

/// Whether the pixel in column `x` of a glyph row with bits `row` is set.
pub open spec fn cell_set(row: u16, x: int) -> bool {
    0 <= x < 16 && (row >> ((15 - x) as u16)) & 1u16 == 1u16
}

/// Relies on fleck's `Font::glyph`: a character whose code point is below the size of the
/// font's width table has a glyph of that width with sixteen rows (read through the glyph's
/// row iterator and `Row::data`); any other character has none.
#[verifier::external_body]
pub(crate) fn glyph(font: &Font, ch: char) -> (r: Option<Glyph>)
    ensures
        r is Some <==> (ch as u32) < glyph_widths(*font).len(),
        r matches Some(g) ==> g.width == glyph_widths(*font)[ch as int] && g.rows@
            == glyph_bitmaps(*font)[ch as int] && g.rows@.len() == 16,
{
    match font.glyph(ch) {
        Some(g) => Some(Glyph { width: g.width, rows: g.map(|row| row.data()).collect() }),
        None => None,
    }
}

/// The width of character `ch` in `font`, as fleck's `Font::determine_width` counts it.
pub fn char_width_of(font: &Font, ch: char) -> (r: u8)
    ensures
        r == char_width(*font, ch),
{
    match glyph(font, ch) {
        Some(g) => g.width,
        None => 0,
    }
}

/// Whether `c` has the Unicode `White_Space` property, as `char::is_whitespace` decides.
pub open spec fn white_space(c: char) -> bool {
    let n = c as u32;
    (0x9 <= n <= 0xd) || n == 0x20 || n == 0x85 || n == 0xa0 || n == 0x1680 || (0x2000 <= n
        <= 0x200a) || n == 0x2028 || n == 0x2029 || n == 0x202f || n == 0x205f || n == 0x3000
}

/// Whether `c` is a whitespace character.
pub fn is_whitespace(c: char) -> (r: bool)
    ensures
        r == white_space(c),
{
    let n: u32 = c as u32;
    (0x9 <= n && n <= 0xd) || n == 0x20 || n == 0x85 || n == 0xa0 || n == 0x1680 || (0x2000 <= n
        && n <= 0x200a) || n == 0x2028 || n == 0x2029 || n == 0x202f || n == 0x205f || n == 0x3000
}

/// The characters of `s`, in order. Relies on std's `str::chars`, collected into a `Vec`.
#[verifier::external_body]
pub(crate) fn chars_of(s: &str) -> (r: Vec<char>)
    ensures
        r@ == s@,
{
    s.chars().collect()
}

/// A string made of the characters `cs`, in order. Relies on std's `String: FromIterator<&char>`.
#[verifier::external_body]
pub(crate) fn string_of(cs: &[char]) -> (r: String)
    ensures
        r@ == cs@,
{
    cs.iter().collect()
}

/// The width of `s` in `font`: the sum of the widths of its characters, as fleck's
/// `Font::determine_width` computes it, held at `u32::MAX` where it would not fit.
pub fn text_width(font: &Font, s: &[char]) -> (r: u32)
    ensures
        r == clip(str_width(*font, s@) as int),
{
    let mut total: u64 = 0;
    let mut i: usize = 0;
    while i < s.len()
        invariant
            i <= s@.len(),
            total == clip(str_width(*font, s@.subrange(0, i as int)) as int),
        decreases s@.len() - i,
    {
        proof {
            assert(s@.subrange(0, i + 1).drop_last() =~= s@.subrange(0, i as int));
        }
        let w: u8 = char_width_of(font, s[i]);
        total = if total + (w as u64) > u32::MAX as u64 {
            u32::MAX as u64
        } else {
            total + w as u64
        };
        i += 1;
    }
    proof {
        assert(s@.subrange(0, s@.len() as int) =~= s@);
    }
    total as u32
}

/// `x`, held at `u32::MAX` where it is larger.
pub open spec fn clip(x: int) -> u32 {
    if x > u32::MAX {
        u32::MAX
    } else {
        x as u32
    }
}

} // verus!
