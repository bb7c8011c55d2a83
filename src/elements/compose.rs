//! Compositing an element tree into blocks of pixels.
use vstd::prelude::*;

use fleck::Font;

use crate::block::{lemma_area_fits, lemma_offset_in_bounds, offset, painted_pixel, wide_usize, Block};
use crate::elements::text::{align_offset, draw_text, text_cell, text_pixel};
use crate::elements::{max_int, sat_add, Alignment, Content, Element};
use crate::font::{chars_of, char_width_of, clip, str_width};
use crate::Pixel;

verus! {

/// Pixel `(x, y)` of a box `w` pixels wide, filled with `bg`, after the line `s` has been
/// drawn onto it in font `f` with `alignment`. A line too wide to measure in a `u32` is not
/// drawn.
pub open spec fn line_pixel(
    w: int,
    s: Seq<char>,
    alignment: Alignment,
    f: Font,
    fg: Pixel,
    bg: Pixel,
    x: int,
    y: int,
) -> Pixel {
    let sw = str_width(f, s) as int;
    let off = align_offset(alignment, w, sw);
    if sw <= u32::MAX && y < 16 && off <= x < off + sw {
        if text_cell(f, s, x - off, y) {
            fg
        } else {
            bg
        }
    } else {
        bg
    }
}

/// Pixel `(x, y)` of the content box of a text, paragraph or custom element: a text line at
/// the top; paragraph line `i` in the sixteen rows from `16 * i` on; a custom block as it is.
pub open spec fn content_pixel<D>(e: Element<D>, x: int, y: int) -> Pixel {
    let w = e.fill_spec().0;
    let fg = e.style.foreground;
    let bg = e.style.background;
    match e.content {
        Content::Text(s, a) => line_pixel(w, s@, a, e.font(), fg, bg, x, y),
        Content::Paragraph(t, a) => if y / 16 < t.lines_view().len() {
            line_pixel(w, t.lines_view()[y / 16], a, e.font(), fg, bg, x, y % 16)
        } else {
            bg
        },
        Content::Custom { buf, height } => buf@[offset(w, x, y)],
        _ => bg,
    }
}

/// `x`, moved on by `room` (held at `u32::MAX`) where `flag` is set.
pub open spec fn shift(x: int, flag: bool, room: int) -> int {
    if flag {
        clip(x + room) as int
    } else {
        x
    }
}

/// Where the cursor of a row stands after its first `k` children: each child's flex edges
/// and its overall width move it on, every step held at `u32::MAX`.
pub open spec fn row_cursor<D>(cs: Seq<Element<D>>, room: int, k: int) -> int
    decreases k,
{
    if k <= 0 {
        0
    } else {
        let c = cs[k - 1];
        let before = shift(row_cursor(cs, room, k - 1), c.flex.left, room);
        clip(shift(before, c.flex.right, room) + c.overall_spec().0) as int
    }
}

/// Where the cursor of a stack stands after its first `k` children, as [`row_cursor`] does
/// downwards.
pub open spec fn stack_cursor<D>(cs: Seq<Element<D>>, room: int, k: int) -> int
    decreases k,
{
    if k <= 0 {
        0
    } else {
        let c = cs[k - 1];
        let before = shift(stack_cursor(cs, room, k - 1), c.flex.top, room);
        clip(shift(before, c.flex.bottom, room) + c.overall_spec().1) as int
    }
}

/// The width of the whole stack, unscrolled: its fill width.
pub open spec fn stack_width<D>(e: Element<D>) -> int {
    e.fill_spec().0
}

/// The number of rows of the whole stack, unscrolled: enough for its children placed with
/// their flex room, and at least its fill height.
pub open spec fn stack_rows<D>(e: Element<D>) -> int {
    match e.content {
        Content::Stack(cs) => max_int(
            e.fill_spec().1,
            stack_cursor(cs@, e.flex_room().1, cs@.len() as int),
        ),
        _ => 0,
    }
}

/// The first row of the whole stack that is shown.
pub open spec fn scroll_of<D>(e: Element<D>) -> int {
    match e.scroll {
        Some(s) => s as int,
        None => 0,
    }
}

/// Pixel `(x, y)` of the block of `e` with its padding: the content box at
/// `(padding.left, padding.top)` on the background.
pub open spec fn block_pixel<D>(e: Element<D>, x: int, y: int) -> Pixel
    decreases e, 2int, 0int,
{
    let l = e.padding.left as int;
    let t = e.padding.top as int;
    if l <= x < l + e.fill_spec().0 && t <= y < t + e.fill_spec().1 {
        inner_pixel(e, x - l, y - t)
    } else {
        e.style.background
    }
}

/// Pixel `(x, y)` of the content box of `e`.
pub open spec fn inner_pixel<D>(e: Element<D>, x: int, y: int) -> Pixel
    decreases e, 1int, 0int,
{
    match e.content {
        Content::Row(cs) => row_pixel(e, cs@.len() as int, x, y),
        Content::Stack(cs) => if scroll_of(e) + y < stack_rows(e) {
            stack_pixel(e, cs@.len() as int, x, scroll_of(e) + y)
        } else {
            e.style.background
        },
        _ => content_pixel(e, x, y),
    }
}

/// Pixel `(x, y)` of the content box of row `e` once its first `k` children are painted in:
/// the last of them that covers the pixel, or the background.
pub open spec fn row_pixel<D>(e: Element<D>, k: int, x: int, y: int) -> Pixel
    decreases e, 0int, k,
{
    match e.content {
        Content::Row(cs) => if k <= 0 || k > cs@.len() {
            e.style.background
        } else {
            let c = cs@[k - 1];
            let room = e.flex_room();
            let px = shift(row_cursor(cs@, room.0, k - 1), c.flex.left, room.0);
            let py = if c.flex.top { room.1 } else { 0 };
            if px <= e.fill_spec().0 && py <= e.fill_spec().1 && px <= x < px + c.overall_spec().0
                && py <= y < py + c.overall_spec().1 {
                block_pixel(c, x - px, y - py)
            } else {
                row_pixel(e, k - 1, x, y)
            }
        },
        _ => e.style.background,
    }
}

/// Pixel `(x, y)` of the whole stack `e`, unscrolled, once its first `k` children are painted
/// in: the last of them that covers the pixel, or the background.
pub open spec fn stack_pixel<D>(e: Element<D>, k: int, x: int, y: int) -> Pixel
    decreases e, 0int, k,
{
    match e.content {
        Content::Stack(cs) => if k <= 0 || k > cs@.len() {
            e.style.background
        } else {
            let c = cs@[k - 1];
            let room = e.flex_room();
            let px = if c.flex.left { room.0 } else { 0 };
            let py = shift(stack_cursor(cs@, room.1, k - 1), c.flex.top, room.1);
            if px <= stack_width(e) && py <= stack_rows(e) && px <= x < px + c.overall_spec().0
                && py <= y < py + c.overall_spec().1 {
                block_pixel(c, x - px, y - py)
            } else {
                stack_pixel(e, k - 1, x, y)
            }
        },
        _ => e.style.background,
    }
}

/// The width of `s` in `font`, where it fits in a `u32`.
fn exact_width(font: &Font, s: &Vec<char>) -> (r: Option<u32>)
    ensures
        r == if str_width(*font, s@) <= u32::MAX {
            Some(str_width(*font, s@) as u32)
        } else {
            None::<u32>
        },
{
    let mut total: u64 = 0;
    let mut k: usize = 0;
    while k < s.len()
        invariant
            k <= s@.len(),
            total == str_width(*font, s@.subrange(0, k as int)),
            total <= u32::MAX,
        decreases s@.len() - k,
    {
        proof {
            assert(s@.subrange(0, k + 1).drop_last() =~= s@.subrange(0, k as int));
        }
        total = total + char_width_of(font, s[k]) as u64;
        if total > u32::MAX as u64 {
            proof {
                lemma_width_grows(*font, s@, k + 1);
            }
            return None;
        }
        k += 1;
    }
    proof {
        assert(s@.subrange(0, s@.len() as int) =~= s@);
    }
    Some(total as u32)
}

/// The width of a prefix never exceeds the width of the whole.
proof fn lemma_width_grows(f: Font, s: Seq<char>, k: int)
    requires
        0 <= k <= s.len(),
    ensures
        str_width(f, s.subrange(0, k)) <= str_width(f, s),
    decreases s.len() - k,
{
    if k < s.len() {
        lemma_width_grows(f, s, k + 1);
        assert(s.subrange(0, k + 1).drop_last() =~= s.subrange(0, k));
    } else {
        assert(s.subrange(0, k) =~= s);
    }
}

/// Draws line `s` onto the `bg`-filled `block`, unless it is too wide to measure.
fn draw_line(block: &mut Block, s: &Vec<char>, alignment: Alignment, font: &Font, fg: Pixel, bg: Pixel)
    requires
        wide_usize(),
        old(block).wf(),
        forall|x: int, y: int| 0 <= x < old(block).width && 0 <= y < old(block).height
            ==> #[trigger] old(block).pixel(x, y) == bg,
    ensures
        final(block).wf(),
        final(block).width == old(block).width,
        final(block).height == old(block).height,
        forall|x: int, y: int| 0 <= x < final(block).width && 0 <= y < final(block).height
            ==> #[trigger] final(block).pixel(x, y)
            == line_pixel(old(block).width as int, s@, alignment, *font, fg, bg, x, y),
{
    match exact_width(font, s) {
        Some(_) => {
            let ghost before = *block;
            draw_text(block, s, alignment, font, fg, bg);
            proof {
                assert forall|x: int, y: int| 0 <= x < block.width && 0 <= y < block.height
                    implies #[trigger] block.pixel(x, y)
                    == line_pixel(before.width as int, s@, alignment, *font, fg, bg, x, y) by {
                    assert(block.pixel(x, y) == text_pixel(before, s@, alignment, *font, fg, bg, x, y));
                }
            }
        },
        None => {},
    }
}

/// A `bg`-filled block of `width` by `height` pixels.
fn blank(width: u32, height: u32, bg: Pixel) -> (r: Block)
    requires
        wide_usize(),
    ensures
        r.wf(),
        r.width == width,
        r.height == height,
        forall|x: int, y: int| 0 <= x < width && 0 <= y < height ==> #[trigger] r.pixel(x, y) == bg,
{
    proof {
        lemma_area_fits(width, height);
    }
    let r = Block::new(width, height, bg);
    proof {
        assert forall|x: int, y: int| 0 <= x < width && 0 <= y < height implies #[trigger] r.pixel(x, y)
            == bg by {
            lemma_offset_in_bounds(width as int, height as int, x, y);
        }
    }
    r
}

impl<D> Element<D> {
    /// Renders the content box of this [`Element`], without its padding: a block as wide as
    /// its fill size, whose pixels [`inner_pixel`] gives.
    ///
    /// Text and paragraph lines are drawn as [`content_pixel`] says and a custom block is
    /// copied. Children of a row go left to right and children of a stack top to bottom, each
    /// flex edge taking its share of the leftover room; a child whose corner lies past the
    /// edge of the box is left out, and the others are clipped to it. A stack is built whole
    /// at its fill width and then shown from row `scroll` on. Every custom block must be as
    /// large as its element's fill size.
    pub fn inner_block(&self) -> (r: Block)
        requires
            wide_usize(),
            self.wf(),
            self.customs_fit(),
        ensures
            r.wf(),
            r.width == self.fill_spec().0,
            r.height == self.fill_spec().1,
            forall|x: int, y: int|
                0 <= x < r.width && 0 <= y < r.height ==> #[trigger] r.pixel(x, y)
                    == inner_pixel(*self, x, y),
        decreases self, 0int,
    {
        let fill = self.fill_size();
        let w: u32 = fill.width;
        let h: u32 = fill.height;
        let bg: Pixel = self.style.background;
        let fg: Pixel = self.style.foreground;
        match &self.content {
            Content::Text(text, alignment) => {
                let mut inner = blank(w, h, bg);
                let cs: Vec<char> = chars_of(text.as_str());
                draw_line(&mut inner, &cs, *alignment, &*self.style.font, fg, bg);
                inner
            },
            Content::Paragraph(wrapped, alignment) => {
                let mut inner = blank(w, h, bg);
                let lines: Vec<String> = wrapped.lines();
                let ghost lv = wrapped.lines_view();
                let mut y: u64 = 0;
                let mut i: usize = 0;
                while i < lines.len() && y <= h as u64
                    invariant
                        wide_usize(),
                        inner.wf(),
                        inner.width == w,
                        inner.height == h,
                        w == self.fill_spec().0,
                        lines@.len() == lv.len(),
                        lv == wrapped.lines_view(),
                        self.content == Content::<D>::Paragraph(*wrapped, *alignment),
                        fg == self.style.foreground,
                        bg == self.style.background,
                        forall|k: int| 0 <= k < lines@.len() ==> (#[trigger] lines@[k])@ == lv[k],
                        i <= lines@.len(),
                        y == 16 * i,
                        forall|x: int, yy: int| 0 <= x < w && 0 <= yy < h ==> #[trigger] inner.pixel(x, yy)
                            == if yy < y {
                            content_pixel(*self, x, yy)
                        } else {
                            bg
                        },
                    decreases lines@.len() - i,
                {
                    let mut line_block = blank(w, 16, bg);
                    let cs: Vec<char> = chars_of(lines[i].as_str());
                    draw_line(&mut line_block, &cs, *alignment, &*self.style.font, fg, bg);
                    let ghost prev = inner;
                    inner.paint(&line_block, 0, y as u32);
                    proof {
                        assert forall|x: int, yy: int| 0 <= x < w && 0 <= yy < h implies #[trigger] inner.pixel(x, yy)
                            == if yy < y + 16 {
                            content_pixel(*self, x, yy)
                        } else {
                            bg
                        } by {
                            assert(inner.pixel(x, yy) == painted_pixel(prev, line_block, 0, y as int, x, yy));
                            if y <= yy < y + 16 {
                                assert(yy / 16 == i as int);
                                assert(yy % 16 == yy - y);
                                assert(cs@ == lv[i as int]);
                                assert(yy / 16 < lv.len());
                            }
                        }
                    }
                    y = y + 16;
                    i += 1;
                }
                proof {
                    assert forall|x: int, yy: int| 0 <= x < w && 0 <= yy < h implies #[trigger] inner.pixel(x, yy)
                        == inner_pixel(*self, x, yy) by {
                        if yy >= y {
                            assert(yy / 16 >= i as int);
                        }
                    }
                }
                inner
            },
            Content::Custom { buf, height } => {
                proof {
                    assert(buf@.len() == (w as int) * (h as int)) by (nonlinear_arith)
                        requires
                            h > 0,
                            (buf@.len() as int) % (h as int) == 0,
                            w == (buf@.len() as int) / (h as int),
                    ;
                }
                let mut copy: Vec<Pixel> = Vec::with_capacity(buf.len());
                let mut k: usize = 0;
                while k < buf.len()
                    invariant
                        k <= buf@.len(),
                        copy@ == buf@.subrange(0, k as int),
                    decreases buf@.len() - k,
                {
                    copy.push(buf[k]);
                    proof {
                        assert(copy@ =~= buf@.subrange(0, k + 1));
                    }
                    k += 1;
                }
                proof {
                    assert(copy@ =~= buf@);
                }
                Block { width: w, height: h, buf: copy }
            },
            Content::Row(children) => {
                let (room_hor, room_ver) = self.room_per_flex();
                let mut inner = blank(w, h, bg);
                let mut x: u32 = 0;
                let mut i: usize = 0;
                while i < children.len()
                    invariant
                        wide_usize(),
                        inner.wf(),
                        inner.width == w,
                        inner.height == h,
                        w == self.fill_spec().0,
                        h == self.fill_spec().1,
                        bg == self.style.background,
                        (room_hor as int, room_ver as int) == self.flex_room(),
                        i <= children@.len(),
                        forall|k: int| 0 <= k < children@.len() ==> (#[trigger] children@[k]).wf(),
                        forall|k: int| 0 <= k < children@.len() ==> (#[trigger] children@[k]).customs_fit(),
                        self.content == Content::Row(*children),
                        x == row_cursor(children@, room_hor as int, i as int),
                        forall|px: int, py: int| 0 <= px < w && 0 <= py < h ==> #[trigger] inner.pixel(px, py)
                            == row_pixel(*self, i as int, px, py),
                    decreases children@.len() - i,
                {
                    let child = &children[i];
                    proof {
                        assert(decreases_to!(*self => self.content));
                        assert(decreases_to!(self.content => self.content->Row_0));
                        assert(decreases_to!(*children => children@[i as int]));
                        assert(child.wf());
                        assert(child.node_wf());
                    }
                    let ghost prev = inner;
                    if child.flex.left {
                        x = sat_add(x, room_hor);
                    }
                    let cy: u32 = if child.flex.top { room_ver } else { 0 };
                    if x <= w && cy <= h {
                        let b = child.block();
                        inner.paint(&b, x, cy);
                        proof {
                            assert forall|px: int, py: int| 0 <= px < w && 0 <= py < h implies #[trigger] inner.pixel(px, py)
                                == row_pixel(*self, i + 1, px, py) by {
                                assert(inner.pixel(px, py) == painted_pixel(prev, b, x as int, cy as int, px, py));
                            }
                        }
                    } else {
                        proof {
                            assert forall|px: int, py: int| 0 <= px < w && 0 <= py < h implies #[trigger] inner.pixel(px, py)
                                == row_pixel(*self, i + 1, px, py) by {
                                assert(inner.pixel(px, py) == prev.pixel(px, py));
                            }
                        }
                    }
                    if child.flex.right {
                        x = sat_add(x, room_hor);
                    }
                    x = sat_add(x, child.overall_size().width);
                    i += 1;
                }
                proof {
                    assert forall|px: int, py: int| 0 <= px < w && 0 <= py < h implies #[trigger] inner.pixel(px, py)
                        == inner_pixel(*self, px, py) by {}
                }
                inner
            },
            Content::Stack(children) => {
                let (room_hor, room_ver) = self.room_per_flex();
                let mut end: u32 = 0;
                let mut i: usize = 0;
                while i < children.len()
                    invariant
                        i <= children@.len(),
                        forall|k: int| 0 <= k < children@.len() ==> (#[trigger] children@[k]).wf(),
                        end == stack_cursor(children@, room_ver as int, i as int),
                    decreases children@.len() - i,
                {
                    let child = &children[i];
                    proof {
                        assert(child.wf());
                    }
                    if child.flex.top {
                        end = sat_add(end, room_ver);
                    }
                    if child.flex.bottom {
                        end = sat_add(end, room_ver);
                    }
                    end = sat_add(end, child.overall_size().height);
                    i += 1;
                }
                let all_rows: u32 = if end > h { end } else { h };
                let mut stack = blank(w, all_rows, bg);
                let mut y: u32 = 0;
                let mut i: usize = 0;
                while i < children.len()
                    invariant
                        wide_usize(),
                        stack.wf(),
                        stack.width == w,
                        stack.height == all_rows,
                        w == stack_width(*self),
                        all_rows == stack_rows(*self),
                        bg == self.style.background,
                        (room_hor as int, room_ver as int) == self.flex_room(),
                        i <= children@.len(),
                        forall|k: int| 0 <= k < children@.len() ==> (#[trigger] children@[k]).wf(),
                        forall|k: int| 0 <= k < children@.len() ==> (#[trigger] children@[k]).customs_fit(),
                        self.content == Content::Stack(*children),
                        y == stack_cursor(children@, room_ver as int, i as int),
                        forall|px: int, py: int| 0 <= px < w && 0 <= py < all_rows
                            ==> #[trigger] stack.pixel(px, py) == stack_pixel(*self, i as int, px, py),
                    decreases children@.len() - i,
                {
                    let child = &children[i];
                    proof {
                        assert(decreases_to!(*self => self.content));
                        assert(decreases_to!(self.content => self.content->Stack_0));
                        assert(decreases_to!(*children => children@[i as int]));
                        assert(child.wf());
                        assert(child.node_wf());
                    }
                    let ghost prev = stack;
                    if child.flex.top {
                        y = sat_add(y, room_ver);
                    }
                    let cx: u32 = if child.flex.left { room_hor } else { 0 };
                    if cx <= w && y <= all_rows {
                        let b = child.block();
                        stack.paint(&b, cx, y);
                        proof {
                            assert forall|px: int, py: int| 0 <= px < w && 0 <= py < all_rows
                                implies #[trigger] stack.pixel(px, py) == stack_pixel(*self, i + 1, px, py) by {
                                assert(stack.pixel(px, py) == painted_pixel(prev, b, cx as int, y as int, px, py));
                            }
                        }
                    } else {
                        proof {
                            assert forall|px: int, py: int| 0 <= px < w && 0 <= py < all_rows
                                implies #[trigger] stack.pixel(px, py) == stack_pixel(*self, i + 1, px, py) by {
                                assert(stack.pixel(px, py) == prev.pixel(px, py));
                            }
                        }
                    }
                    if child.flex.bottom {
                        y = sat_add(y, room_ver);
                    }
                    y = sat_add(y, child.overall_size().height);
                    i += 1;
                }
                let scroll: u32 = match self.scroll {
                    Some(s) => s,
                    None => 0,
                };
                let tail = rows_from(&stack, scroll);
                let mut inner = blank(w, h, bg);
                let ghost empty = inner;
                inner.paint(&tail, 0, 0);
                proof {
                    assert forall|x: int, yy: int| 0 <= x < w && 0 <= yy < h implies #[trigger] inner.pixel(x, yy)
                        == inner_pixel(*self, x, yy) by {
                        assert(inner.pixel(x, yy) == painted_pixel(empty, tail, 0, 0, x, yy));
                        if yy < tail.height {
                            assert(tail.pixel(x, yy) == stack.pixel(x, scroll + yy));
                        }
                    }
                }
                inner
            },
        }
    }

    /// Renders this [`Element`] with its padding: a block of its overall size, filled with
    /// the background, with [`Element::inner_block`] painted at `(padding.left, padding.top)`.
    pub fn block(&self) -> (r: Block)
        requires
            wide_usize(),
            self.wf(),
            self.customs_fit(),
        ensures
            r.wf(),
            (r.width as int, r.height as int) == self.overall_spec(),
            forall|x: int, y: int|
                0 <= x < r.width && 0 <= y < r.height ==> #[trigger] r.pixel(x, y) == block_pixel(
                    *self,
                    x,
                    y,
                ),
        decreases self, 1int,
    {
        let inner = self.inner_block();
        let overall = self.overall_size();
        let bg: Pixel = self.style.background;
        let mut padded = blank(overall.width, overall.height, bg);
        let ghost before = padded;
        padded.paint(&inner, self.padding.left, self.padding.top);
        proof {
            assert forall|x: int, y: int| 0 <= x < padded.width && 0 <= y < padded.height implies
                #[trigger] padded.pixel(x, y) == block_pixel(*self, x, y) by {
                assert(padded.pixel(x, y) == painted_pixel(
                    before,
                    inner,
                    self.padding.left as int,
                    self.padding.top as int,
                    x,
                    y,
                ));
            }
        }
        padded
    }
}

/// The rows of `block` from row `first` on, as a block of their own (empty where `first` lies
/// past the last row).
fn rows_from(block: &Block, first: u32) -> (r: Block)
    requires
        wide_usize(),
        block.wf(),
    ensures
        r.wf(),
        r.width == block.width,
        r.height == if first < block.height { block.height - first } else { 0 },
        forall|x: int, y: int| 0 <= x < r.width && 0 <= y < r.height ==> #[trigger] r.pixel(x, y)
            == block.pixel(x, first + y),
{
    let w: u32 = block.width;
    let rows: u32 = if first < block.height { block.height - first } else { 0 };
    let start_row: u32 = if first < block.height { first } else { block.height };
    proof {
        lemma_area_fits(start_row, w);
        lemma_area_fits(rows, w);
        assert((start_row as int) * (w as int) + (rows as int) * (w as int) == (w as int) * (block.height as int))
            by (nonlinear_arith)
            requires
                start_row + rows == block.height,
        ;
    }
    let from: usize = start_row as usize * w as usize;
    let count: usize = rows as usize * w as usize;
    let len: usize = block.buf.len();
    let mut buf: Vec<Pixel> = Vec::with_capacity(count);
    let mut k: usize = 0;
    while k < count
        invariant
            k <= count,
            from + count <= len,
            len == block.buf@.len(),
            buf@.len() == k,
            forall|q: int| 0 <= q < k ==> #[trigger] buf@[q] == block.buf@[from + q],
        decreases count - k,
    {
        buf.push(block.buf[from + k]);
        k += 1;
    }
    let r = Block { width: w, height: rows, buf };
    proof {
        assert(count == (w as int) * (rows as int)) by (nonlinear_arith)
            requires
                count == (rows as int) * (w as int),
        ;
        assert forall|x: int, y: int| 0 <= x < r.width && 0 <= y < r.height implies #[trigger] r.pixel(x, y)
            == block.pixel(x, first + y) by {
            lemma_offset_in_bounds(w as int, rows as int, x, y);
            assert(from + offset(w as int, x, y) == offset(w as int, x, first + y)) by (nonlinear_arith)
                requires
                    from == (first as int) * (w as int),
            ;
        }
    }
    r
}

} // verus!
