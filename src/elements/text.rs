//! Rasterising a line of text into a block, aligned within its width.
use vstd::prelude::*;

use fleck::Font;

use crate::block::{lemma_area_fits, lemma_offset_in_bounds, lemma_offset_unique, offset, wide_usize, Block};
use crate::elements::Alignment;
use crate::font::{cell_set, char_width, char_width_of, glyph, glyph_bitmaps, glyph_widths, str_width, GLYPH_HEIGHT};
use crate::Pixel;

verus! {

/// Whether pixel `(x, y)` of glyph `c` in font `f` is set.
pub open spec fn glyph_cell(f: Font, c: char, x: int, y: int) -> bool {
    &&& (c as u32) < glyph_widths(f).len()
    &&& 0 <= y < 16
    &&& 0 <= x < char_width(f, c)
    &&& cell_set(glyph_bitmaps(f)[c as int][y], x)
}

/// Whether pixel `(x, y)` of the characters `s`, set side by side in font `f`, is set.
pub open spec fn text_cell(f: Font, s: Seq<char>, x: int, y: int) -> bool
    decreases s.len(),
{
    if s.len() == 0 {
        false
    } else {
        let x0 = str_width(f, s.drop_last()) as int;
        if x >= x0 {
            glyph_cell(f, s.last(), x - x0, y)
        } else {
            text_cell(f, s.drop_last(), x, y)
        }
    }
}

/// Where column zero of a line `sw` pixels wide lands in a box `bw` pixels wide. A centred line
/// wider than its box is placed as a left-aligned one.
pub open spec fn align_offset(alignment: Alignment, bw: int, sw: int) -> int {
    match alignment {
        Alignment::Left => 0,
        Alignment::Center => if sw >= bw {
            0
        } else {
            (bw - sw) / 2
        },
        Alignment::Right => bw - sw,
    }
}

/// The pixel at `(x, y)` of `block` once the line `s` has been drawn onto it in font `f` with
/// `alignment`: inside the span of the line, and within the line's height, the line's own pixel
/// in `fg` or `bg`; elsewhere the block's pixel as it was.
pub open spec fn text_pixel(
    block: Block,
    s: Seq<char>,
    alignment: Alignment,
    f: Font,
    fg: Pixel,
    bg: Pixel,
    x: int,
    y: int,
) -> Pixel {
    let sw = str_width(f, s) as int;
    let off = align_offset(alignment, block.width as int, sw);
    if y < 16 && off <= x < off + sw {
        if text_cell(f, s, x - off, y) {
            fg
        } else {
            bg
        }
    } else {
        block.pixel(x, y)
    }
}

/// A column of a glyph row is set: fleck's `Row` yields the top bit first, shifting left.
fn row_cell(row: u16, x: u32) -> (r: bool)
    ensures
        r == cell_set(row, x as int),
{
    if x < 16 {
        let shift: u16 = (15 - x) as u16;
        (row >> shift) & 1u16 == 1u16
    } else {
        false
    }
}

/// The widths of the first `k` characters add up.
proof fn lemma_str_width_prefix(f: Font, s: Seq<char>, k: int)
    requires
        0 <= k < s.len(),
    ensures
        str_width(f, s.subrange(0, k + 1)) == str_width(f, s.subrange(0, k)) + char_width(f, s[k]),
        str_width(f, s.subrange(0, k)) <= str_width(f, s),
        str_width(f, s.subrange(0, k + 1)) <= str_width(f, s),
    decreases s.len() - k,
{
    assert(s.subrange(0, k + 1).drop_last() =~= s.subrange(0, k));
    if k + 1 < s.len() {
        lemma_str_width_prefix(f, s, k + 1);
    } else {
        assert(s.subrange(0, k + 1) =~= s);
    }
}

/// Past the width of `s` no pixel is set; within it, `s` extended by one character keeps its
/// pixels.
proof fn lemma_text_cell_extend(f: Font, s: Seq<char>, c: char, x: int, y: int)
    ensures
        x < str_width(f, s) ==> text_cell(f, s.push(c), x, y) == text_cell(f, s, x, y),
        x >= str_width(f, s) ==> text_cell(f, s.push(c), x, y) == glyph_cell(f, c, x - str_width(f, s), y),
{
    assert(s.push(c).drop_last() =~= s);
}

/// Draws the characters `s` in `font` onto `block`, one row of glyph pixels per block row,
/// placed by `alignment`: `fg` for set glyph pixels and `bg` for the others. Only the part
/// that fits is drawn. Nothing is drawn where the block or the text has no width.
pub fn draw_text(block: &mut Block, s: &Vec<char>, alignment: Alignment, font: &Font, fg: Pixel, bg: Pixel)
    requires
        wide_usize(),
        old(block).wf(),
        str_width(*font, s@) <= u32::MAX,
    ensures
        final(block).wf(),
        final(block).width == old(block).width,
        final(block).height == old(block).height,
        forall|x: int, y: int|
            0 <= x < final(block).width && 0 <= y < final(block).height
                ==> #[trigger] final(block).pixel(x, y)
                == text_pixel(*old(block), s@, alignment, *font, fg, bg, x, y),
{
    let scrap: Block = render_line(s, font, fg, bg);
    let sw: u32 = scrap.width;
    if block.width == 0 || sw == 0 {
        return ;
    }
    let bw: u32 = block.width;
    let (dst, src, len): (u32, u32, u32) = match alignment {
        Alignment::Left => (0, 0, if bw < sw { bw } else { sw }),
        Alignment::Center => if sw >= bw {
            (0, 0, bw)
        } else {
            ((bw - sw) / 2, 0, sw)
        },
        Alignment::Right => if bw >= sw {
            (bw - sw, 0, sw)
        } else {
            (0, sw - bw, bw)
        },
    };
    let rows: u32 = if block.height < GLYPH_HEIGHT { block.height } else { GLYPH_HEIGHT };
    let ghost before = *block;
    let ghost off = align_offset(alignment, bw as int, sw as int);
    assert(off == dst - src);
    let blen: usize = block.buf.len();
    let slen: usize = scrap.buf.len();
    let mut y: u32 = 0;
    while y < rows
        invariant
            before.wf(),
            block.wf(),
            scrap.wf(),
            blen == block.buf@.len(),
            slen == scrap.buf@.len(),
            block.width == bw,
            block.height == before.height,
            before.width == bw,
            scrap.width == sw,
            scrap.height == 16,
            sw == str_width(*font, s@),
            forall|x: int, yy: int| 0 <= x < sw && 0 <= yy < 16 ==> #[trigger] scrap.pixel(x, yy)
                == if text_cell(*font, s@, x, yy) { fg } else { bg },
            off == dst - src,
            off == align_offset(alignment, bw as int, sw as int),
            dst + len <= bw,
            src + len <= sw,
            dst <= off + sw,
            src == 0 || dst == 0,
            len == if off >= 0 { if off + sw <= bw { sw as int } else { bw - off } } else { bw as int },
            rows <= 16,
            rows <= block.height,
            rows == if before.height < 16 { before.height as int } else { 16 },
            y <= rows,
            forall|x: int, yy: int|
                0 <= x < bw && 0 <= yy < block.height ==> #[trigger] block.pixel(x, yy) == if yy < y {
                    text_pixel(before, s@, alignment, *font, fg, bg, x, yy)
                } else {
                    before.pixel(x, yy)
                },
        decreases rows - y,
    {
        let mut i: u32 = 0;
        while i < len
            invariant
                before.wf(),
                block.wf(),
                scrap.wf(),
                blen == block.buf@.len(),
                slen == scrap.buf@.len(),
                block.width == bw,
                block.height == before.height,
                before.width == bw,
                scrap.width == sw,
                scrap.height == 16,
                sw == str_width(*font, s@),
                forall|x: int, yy: int| 0 <= x < sw && 0 <= yy < 16 ==> #[trigger] scrap.pixel(x, yy)
                    == if text_cell(*font, s@, x, yy) { fg } else { bg },
                off == dst - src,
                off == align_offset(alignment, bw as int, sw as int),
                dst + len <= bw,
                src + len <= sw,
                rows <= 16,
                rows <= block.height,
                y < rows,
                i <= len,
                forall|x: int, yy: int|
                    0 <= x < bw && 0 <= yy < block.height ==> #[trigger] block.pixel(x, yy) == if yy < y
                        || (yy == y && dst <= x < dst + i) {
                        text_pixel(before, s@, alignment, *font, fg, bg, x, yy)
                    } else {
                        before.pixel(x, yy)
                    },
            decreases len - i,
        {
            proof {
                lemma_offset_in_bounds(sw as int, 16, (src + i) as int, y as int);
                lemma_offset_in_bounds(bw as int, block.height as int, (dst + i) as int, y as int);
            }
            let p: Pixel = scrap.buf[(y as usize) * (sw as usize) + (src + i) as usize];
            let idx: usize = (y as usize) * (bw as usize) + (dst + i) as usize;
            let ghost prev = *block;
            block.buf[idx] = p;
            proof {
                assert(p == scrap.pixel((src + i) as int, y as int));
                assert(text_pixel(before, s@, alignment, *font, fg, bg, (dst + i) as int, y as int) == p);
                assert forall|x: int, yy: int|
                    0 <= x < bw && 0 <= yy < block.height implies #[trigger] block.pixel(x, yy) == if yy < y
                        || (yy == y && dst <= x < dst + i + 1) {
                        text_pixel(before, s@, alignment, *font, fg, bg, x, yy)
                    } else {
                        before.pixel(x, yy)
                    } by {
                    lemma_offset_in_bounds(bw as int, block.height as int, x, yy);
                    if offset(bw as int, x, yy) == idx as int {
                        lemma_offset_unique(bw as int, x, yy, (dst + i) as int, y as int);
                    } else {
                        assert(block.pixel(x, yy) == prev.pixel(x, yy));
                    }
                }
            }
            i += 1;
        }
        proof {
            assert forall|x: int, yy: int|
                0 <= x < bw && 0 <= yy < block.height implies #[trigger] block.pixel(x, yy) == if yy < y + 1 {
                    text_pixel(before, s@, alignment, *font, fg, bg, x, yy)
                } else {
                    before.pixel(x, yy)
                } by {
                if yy == y && !(dst <= x < dst + len) {
                    assert(text_pixel(before, s@, alignment, *font, fg, bg, x, yy) == before.pixel(x, yy));
                }
            }
        }
        y += 1;
    }
    proof {
        assert forall|x: int, yy: int|
            0 <= x < bw && 0 <= yy < block.height implies #[trigger] block.pixel(x, yy)
                == text_pixel(before, s@, alignment, *font, fg, bg, x, yy) by {
            if yy >= rows {
                assert(text_pixel(before, s@, alignment, *font, fg, bg, x, yy) == before.pixel(x, yy));
            }
        }
    }
}

/// Renders the characters `s` in `font` into a block exactly as wide as they are and as tall
/// as a glyph: `fg` for set glyph pixels, `bg` for the others.
fn render_line(s: &Vec<char>, font: &Font, fg: Pixel, bg: Pixel) -> (r: Block)
    requires
        wide_usize(),
        str_width(*font, s@) <= u32::MAX,
    ensures
        r.wf(),
        r.width == str_width(*font, s@),
        r.height == 16,
        forall|x: int, y: int| 0 <= x < r.width && 0 <= y < 16 ==> #[trigger] r.pixel(x, y)
            == if text_cell(*font, s@, x, y) { fg } else { bg },
{
    let mut total: u32 = 0;
    let mut k: usize = 0;
    while k < s.len()
        invariant
            k <= s@.len(),
            str_width(*font, s@) <= u32::MAX,
            total == str_width(*font, s@.subrange(0, k as int)),
        decreases s@.len() - k,
    {
        proof {
            lemma_str_width_prefix(*font, s@, k as int);
        }
        total = total + char_width_of(font, s[k]) as u32;
        k += 1;
    }
    proof {
        assert(s@.subrange(0, s@.len() as int) =~= s@);
        lemma_area_fits(total, 16);
    }
    let sw: u32 = total;
    let mut scrap: Block = Block::new(sw, font.height() as u32, bg);
    let slen: usize = scrap.buf.len();
    proof {
        assert forall|x: int, y: int| 0 <= x < sw && 0 <= y < 16 implies #[trigger] scrap.pixel(x, y)
            == bg by {
            lemma_offset_in_bounds(sw as int, 16, x, y);
        }
    }
    let mut x0: u32 = 0;
    let mut k: usize = 0;
    while k < s.len()
        invariant
            k <= s@.len(),
            scrap.wf(),
            slen == scrap.buf@.len(),
            scrap.width == sw,
            scrap.height == 16,
            sw == str_width(*font, s@),
            x0 == str_width(*font, s@.subrange(0, k as int)),
            forall|x: int, y: int| 0 <= x < sw && 0 <= y < 16 ==> #[trigger] scrap.pixel(x, y)
                == if x < x0 {
                if text_cell(*font, s@.subrange(0, k as int), x, y) { fg } else { bg }
            } else {
                bg
            },
        decreases s@.len() - k,
    {
        proof {
            lemma_str_width_prefix(*font, s@, k as int);
            assert(s@.subrange(0, k + 1) =~= s@.subrange(0, k as int).push(s@[k as int]));
        }
        let ghost pre = s@.subrange(0, k as int);
        let ghost c = s@[k as int];
        match glyph(font, s[k]) {
            Some(g) => {
                let gw: u32 = g.width as u32;
                let mut y: u32 = 0;
                while y < GLYPH_HEIGHT
                    invariant
                        scrap.wf(),
                        slen == scrap.buf@.len(),
                        scrap.width == sw,
                        scrap.height == 16,
                        x0 + gw <= sw,
                        gw == char_width(*font, c),
                        g.rows@ == glyph_bitmaps(*font)[c as int],
                        g.rows@.len() == 16,
                        (c as u32) < glyph_widths(*font).len(),
                        y <= 16,
                        forall|x: int, yy: int| 0 <= x < sw && 0 <= yy < 16 ==> #[trigger] scrap.pixel(x, yy)
                            == if x < x0 {
                            if text_cell(*font, pre, x, yy) { fg } else { bg }
                        } else if x < x0 + gw && yy < y {
                            if glyph_cell(*font, c, x - x0, yy) { fg } else { bg }
                        } else {
                            bg
                        },
                    decreases 16 - y,
                {
                    let row: u16 = g.rows[y as usize];
                    let mut xg: u32 = 0;
                    while xg < gw
                        invariant
                            scrap.wf(),
                            slen == scrap.buf@.len(),
                            scrap.width == sw,
                            scrap.height == 16,
                            x0 + gw <= sw,
                            gw == char_width(*font, c),
                            g.rows@ == glyph_bitmaps(*font)[c as int],
                            g.rows@.len() == 16,
                            (c as u32) < glyph_widths(*font).len(),
                            y < 16,
                            row == g.rows@[y as int],
                            xg <= gw,
                            forall|x: int, yy: int| 0 <= x < sw && 0 <= yy < 16 ==> #[trigger] scrap.pixel(x, yy)
                                == if x < x0 {
                                if text_cell(*font, pre, x, yy) { fg } else { bg }
                            } else if x < x0 + gw && (yy < y || (yy == y && x < x0 + xg)) {
                                if glyph_cell(*font, c, x - x0, yy) { fg } else { bg }
                            } else {
                                bg
                            },
                        decreases gw - xg,
                    {
                        proof {
                            lemma_offset_in_bounds(sw as int, 16, (x0 + xg) as int, y as int);
                        }
                        let on: bool = row_cell(row, xg);
                        let idx: usize = (y as usize) * (sw as usize) + (x0 + xg) as usize;
                        let ghost prev = scrap;
                        scrap.buf[idx] = if on { fg } else { bg };
                        proof {
                            assert forall|x: int, yy: int| 0 <= x < sw && 0 <= yy < 16 implies #[trigger] scrap.pixel(x, yy)
                                == if x < x0 {
                                if text_cell(*font, pre, x, yy) { fg } else { bg }
                            } else if x < x0 + gw && (yy < y || (yy == y && x < x0 + xg + 1)) {
                                if glyph_cell(*font, c, x - x0, yy) { fg } else { bg }
                            } else {
                                bg
                            } by {
                                lemma_offset_in_bounds(sw as int, 16, x, yy);
                                if offset(sw as int, x, yy) == idx as int {
                                    lemma_offset_unique(sw as int, x, yy, (x0 + xg) as int, y as int);
                                } else {
                                    assert(scrap.pixel(x, yy) == prev.pixel(x, yy));
                                }
                            }
                        }
                        xg += 1;
                    }
                    y += 1;
                }
                x0 = x0 + gw;
            },
            None => {},
        }
        proof {
            assert forall|x: int, y: int| 0 <= x < sw && 0 <= y < 16 implies #[trigger] scrap.pixel(x, y)
                == if x < x0 {
                if text_cell(*font, s@.subrange(0, k + 1), x, y) { fg } else { bg }
            } else {
                bg
            } by {
                lemma_text_cell_extend(*font, pre, c, x, y);
            }
        }
        k += 1;
    }
    proof {
        assert(s@.subrange(0, s@.len() as int) =~= s@);
    }
    scrap
}

} // verus!
