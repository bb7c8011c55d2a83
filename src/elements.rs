//! The element tree: the sizing constraints, padding, flex edges, style and content of each
//! node, and the layout pass that bakes their sizes.
use std::rc::Rc;

use vstd::prelude::*;

use fleck::Font;

use crate::font::{chars_of, clip, str_width, text_width};
use crate::Pixel;

pub mod builder;
pub mod compose;
pub mod text;
pub mod wrapped_text;

pub use wrapped_text::WrappedText;

use wrapped_text::wrap_points;

verus! {

/// How an [`Element`] picks its baked size from its intrinsic size.
#[derive(Debug, Clone, Copy, PartialEq, Eq, Structural)]
pub enum SizingStrategy {
    /// The intrinsic size, as it is; the `min` and `max` dimensions apply when it is read.
    Whatever,
    /// As large as the `max` dimensions allow, where they are set.
    Chonker,
    /// As small as the `min` dimensions allow, where they are set.
    Smollest,
}

impl Default for SizingStrategy {
    fn default() -> (r: Self)
        ensures
            r == SizingStrategy::Whatever,
    {
        SizingStrategy::Whatever
    }
}

/// The sizing policy of an [`Element`]: its constraints, its strategy, and the size that the
/// last layout pass baked for it.
///
/// Use [`Element::fill_size`] and [`Element::overall_size`] to read the size within the
/// constraints.
#[derive(Debug, Clone, Copy)]
pub struct Size {
    pub strategy: SizingStrategy,
    /// The unconstrained width. It may fall outside of `minwidth` and `maxwidth`.
    pub baked_width: u32,
    /// The unconstrained height. It may fall outside of `minheight` and `maxheight`.
    pub baked_height: u32,
    pub maxwidth: Option<u32>,
    pub maxheight: Option<u32>,
    pub minwidth: Option<u32>,
    pub minheight: Option<u32>,
}

impl Default for Size {
    fn default() -> (r: Self)
        ensures
            r.strategy == SizingStrategy::Whatever,
            r.baked_width == 0,
            r.baked_height == 0,
            r.maxwidth is None,
            r.maxheight is None,
            r.minwidth is None,
            r.minheight is None,
    {
        Size {
            strategy: SizingStrategy::Whatever,
            baked_width: 0,
            baked_height: 0,
            maxwidth: None,
            maxheight: None,
            minwidth: None,
            minheight: None,
        }
    }
}

/// The larger of `a` and `b`.
pub open spec fn max_int(a: int, b: int) -> int {
    if a >= b {
        a
    } else {
        b
    }
}

/// The smaller of `a` and `b`.
pub open spec fn min_int(a: int, b: int) -> int {
    if a <= b {
        a
    } else {
        b
    }
}

/// `v` brought within the bounds that are set.
pub open spec fn clamp_opt(v: int, min: Option<u32>, max: Option<u32>) -> int {
    match (min, max) {
        (None, None) => v,
        (None, Some(hi)) => min_int(v, hi as int),
        (Some(lo), None) => max_int(v, lo as int),
        (Some(lo), Some(hi)) => min_int(max_int(v, lo as int), hi as int),
    }
}

/// The smallest size within the bounds: the lower bound where set, else `v` under the upper.
pub open spec fn lowest_opt(v: int, min: Option<u32>, max: Option<u32>) -> int {
    match (min, max) {
        (None, None) => v,
        (None, Some(hi)) => min_int(v, hi as int),
        (Some(lo), _) => lo as int,
    }
}

/// The largest size within the bounds: the upper bound where set, else `v` over the lower.
pub open spec fn highest_opt(v: int, min: Option<u32>, max: Option<u32>) -> int {
    match (min, max) {
        (None, None) => v,
        (Some(lo), None) => max_int(v, lo as int),
        (_, Some(hi)) => hi as int,
    }
}

/// Neither bound exceeds the other where both are set.
pub open spec fn bounds_ordered(min: Option<u32>, max: Option<u32>) -> bool {
    (min, max) matches (Some(lo), Some(hi)) ==> lo <= hi
}

impl Size {
    /// The constraints can be met: no minimum exceeds its maximum.
    pub open spec fn wf(&self) -> bool {
        bounds_ordered(self.minwidth, self.maxwidth) && bounds_ordered(self.minheight, self.maxheight)
    }

    /// The same constraints and strategy.
    pub open spec fn same_policy(&self, other: Size) -> bool {
        &&& self.strategy == other.strategy
        &&& self.maxwidth == other.maxwidth
        &&& self.maxheight == other.maxheight
        &&& self.minwidth == other.minwidth
        &&& self.minheight == other.minheight
    }

    /// The baked size that the strategy picks for intrinsic size `(w, h)`.
    pub open spec fn resolve(&self, w: int, h: int) -> (int, int) {
        match self.strategy {
            SizingStrategy::Whatever => (w, h),
            SizingStrategy::Chonker => (
                max_int(
                    match self.maxwidth {
                        Some(m) => m as int,
                        None => 0,
                    },
                    w,
                ),
                max_int(
                    match self.maxheight {
                        Some(m) => m as int,
                        None => 0,
                    },
                    h,
                ),
            ),
            SizingStrategy::Smollest => (
                min_int(
                    match self.minwidth {
                        Some(m) => m as int,
                        None => w,
                    },
                    w,
                ),
                min_int(
                    match self.minheight {
                        Some(m) => m as int,
                        None => h,
                    },
                    h,
                ),
            ),
        }
    }
}

/// A width and a height, in pixels.
#[derive(Debug, Clone, Copy, PartialEq, Eq, Structural)]
pub struct Dimensions {
    pub width: u32,
    pub height: u32,
}

impl Dimensions {
    pub fn new(width: u32, height: u32) -> (r: Self)
        ensures
            r.width == width,
            r.height == height,
    {
        Self { width, height }
    }
}

impl Default for Dimensions {
    fn default() -> (r: Self)
        ensures
            r.width == 0,
            r.height == 0,
    {
        Self { width: 0, height: 0 }
    }
}

/// A padding inset, in pixels.
pub type Pad = u32;

/// The insets that pad an [`Element`] on each of its edges.
#[derive(Debug, Clone, Copy, PartialEq, Eq, Structural)]
pub struct Padding {
    pub top: Pad,
    pub bottom: Pad,
    pub left: Pad,
    pub right: Pad,
}

impl Default for Padding {
    fn default() -> (r: Self)
        ensures
            r.top == 0 && r.bottom == 0 && r.left == 0 && r.right == 0,
    {
        Padding { top: 0, bottom: 0, left: 0, right: 0 }
    }
}

/// The edges of an [`Element`] that may take up leftover room in a row or stack.
#[derive(Debug, Clone, Copy, PartialEq, Eq, Structural)]
pub struct Flex {
    pub top: bool,
    pub bottom: bool,
    pub left: bool,
    pub right: bool,
}

impl Default for Flex {
    fn default() -> (r: Self)
        ensures
            !r.top && !r.bottom && !r.left && !r.right,
    {
        Flex { top: false, bottom: false, left: false, right: false }
    }
}

/// `1` for a set flag, `0` otherwise.
pub open spec fn flag(b: bool) -> nat {
    if b {
        1
    } else {
        0
    }
}

impl Flex {
    /// Returns the number of vertical flexes of this [`Flex`].
    pub fn vertical_flexes(&self) -> (r: usize)
        ensures
            r == flag(self.top) + flag(self.bottom),
    {
        (if self.top { 1usize } else { 0usize }) + (if self.bottom { 1usize } else { 0usize })
    }

    /// Returns the number of horizontal flexes of this [`Flex`].
    pub fn horizontal_flexes(&self) -> (r: usize)
        ensures
            r == flag(self.left) + flag(self.right),
    {
        (if self.left { 1usize } else { 0usize }) + (if self.right { 1usize } else { 0usize })
    }
}

/// The colours and the font of an [`Element`].
#[derive(Clone)]
pub struct Style {
    pub foreground: Pixel,
    pub background: Pixel,
    pub font: Rc<Font>,
}

impl Style {
    /// Creates a new [`Style`].
    pub fn new(foreground: Pixel, background: Pixel, font: Rc<Font>) -> (r: Self)
        ensures
            r.foreground == foreground,
            r.background == background,
            r.font == font,
    {
        Self { foreground, background, font }
    }

    /// Creates a new [`Style`] with a black `foreground`, a white `background`, and `font`.
    pub fn default_with_font(font: Rc<Font>) -> (r: Self)
        ensures
            r.foreground == [0x00u8, 0x00u8, 0x00u8, 0xffu8],
            r.background == [0xffu8, 0xffu8, 0xffu8, 0xffu8],
            r.font == font,
    {
        Self { foreground: [0x00, 0x00, 0x00, 0xff], background: [0xff, 0xff, 0xff, 0xff], font }
    }
}

/// Where a line of text sits in a box wider than itself.
#[derive(Debug, Clone, Copy, PartialEq, Eq, Structural)]
pub enum Alignment {
    Left,
    Center,
    Right,
}

impl Default for Alignment {
    fn default() -> (r: Self)
        ensures
            r == Alignment::Left,
    {
        Alignment::Left
    }
}

/// The application's function that updates an [`Element`] from its data once per frame.
///
/// Held opaque: a function pointer has no place in verified code, and what the function does
/// is the application's business.
#[verifier::external_body]
#[verifier::reject_recursive_types(D)]
pub struct UpdateFn<D>(pub fn(&mut Element<D>, &D));

/// Runs the application's update function `f` on `element`. The function belongs to the
/// application: nothing is known of what it does to the element.
#[verifier::external_body]
fn run_update<D>(f: &UpdateFn<D>, element: &mut Element<D>, data: &D) {
    (f.0)(element, data)
}

/// A node of the layout tree.
#[verifier::reject_recursive_types(D)]
pub struct Element<D> {
    pub size: Size,
    pub padding: Padding,
    pub flex: Flex,
    pub style: Style,
    pub update: Option<UpdateFn<D>>,
    pub content: Content<D>,
    pub scroll: Option<u32>,
}

/// What an [`Element`] shows.
#[verifier::reject_recursive_types(D)]
pub enum Content<D> {
    /// One line of text.
    Text(String, Alignment),
    /// Text wrapped to the width of its element.
    Paragraph(WrappedText, Alignment),
    /// A block of pixels drawn elsewhere, `height` rows of `buf.len() / height` pixels.
    Custom { buf: Vec<Pixel>, height: u32 },
    /// Children side by side, left to right.
    Row(Vec<Element<D>>),
    /// Children one above the other, top to bottom.
    Stack(Vec<Element<D>>),
}

/// The sum of the overall widths of `cs`.
pub open spec fn sum_widths<D>(cs: Seq<Element<D>>) -> int
    decreases cs.len(),
{
    if cs.len() == 0 {
        0
    } else {
        sum_widths(cs.drop_last()) + cs.last().overall_spec().0
    }
}

/// The sum of the overall heights of `cs`.
pub open spec fn sum_heights<D>(cs: Seq<Element<D>>) -> int
    decreases cs.len(),
{
    if cs.len() == 0 {
        0
    } else {
        sum_heights(cs.drop_last()) + cs.last().overall_spec().1
    }
}

/// The largest overall width among `cs`, or zero.
pub open spec fn max_widths<D>(cs: Seq<Element<D>>) -> int
    decreases cs.len(),
{
    if cs.len() == 0 {
        0
    } else {
        max_int(max_widths(cs.drop_last()), cs.last().overall_spec().0)
    }
}

/// The largest overall height among `cs`, or zero.
pub open spec fn max_heights<D>(cs: Seq<Element<D>>) -> int
    decreases cs.len(),
{
    if cs.len() == 0 {
        0
    } else {
        max_int(max_heights(cs.drop_last()), cs.last().overall_spec().1)
    }
}

/// The sum of the horizontal flex edges of `cs`.
pub open spec fn sum_hflex<D>(cs: Seq<Element<D>>) -> int
    decreases cs.len(),
{
    if cs.len() == 0 {
        0
    } else {
        sum_hflex(cs.drop_last()) + flag(cs.last().flex.left) + flag(cs.last().flex.right)
    }
}

/// The sum of the vertical flex edges of `cs`.
pub open spec fn sum_vflex<D>(cs: Seq<Element<D>>) -> int
    decreases cs.len(),
{
    if cs.len() == 0 {
        0
    } else {
        sum_vflex(cs.drop_last()) + flag(cs.last().flex.top) + flag(cs.last().flex.bottom)
    }
}

/// The widest of the lines `ls` in font `f`, or zero.
pub open spec fn widest_line(f: Font, ls: Seq<Seq<char>>) -> int
    decreases ls.len(),
{
    if ls.len() == 0 {
        0
    } else {
        max_int(widest_line(f, ls.drop_last()), clip(str_width(f, ls.last()) as int) as int)
    }
}

/// `hint` where `own` is unset.
pub open spec fn or_hint(own: Option<u32>, hint: Option<u32>) -> Option<u32> {
    match own {
        Some(m) => Some(m),
        None => hint,
    }
}

/// `a / b`, or zero where `b` is zero.
pub open spec fn div_or_zero(a: int, b: int) -> int {
    if b == 0 {
        0
    } else {
        a / b
    }
}

impl<D> Element<D> {
    /// The font of this element.
    pub open spec fn font(&self) -> Font {
        *self.style.font
    }

    /// Every node's constraints can be met, every custom block has rows, and every paragraph is
    /// divided into lines.
    pub open spec fn wf(&self) -> bool
        decreases self,
    {
        &&& self.size.wf()
        &&& match self.content {
            Content::Text(_, _) => true,
            Content::Paragraph(w, _) => w.wf(),
            Content::Custom { buf, height } => height > 0 && (buf@.len() as int) % (height as int) == 0
                && (buf@.len() as int) / (height as int) <= u32::MAX,
            Content::Row(cs) => forall|i: int| 0 <= i < cs@.len() ==> (#[trigger] cs@[i]).wf(),
            Content::Stack(cs) => forall|i: int| 0 <= i < cs@.len() ==> (#[trigger] cs@[i]).wf(),
        }
    }

    /// This node's own constraints can be met and its custom block, if any, has rows.
    pub open spec fn node_wf(&self) -> bool {
        &&& self.size.wf()
        &&& self.content matches Content::Custom { buf, height } ==> height > 0
            && (buf@.len() as int) / (height as int) <= u32::MAX
    }

    /// The size that the content asks for, from the baked sizes of its children.
    pub open spec fn intrinsic(&self) -> (int, int) {
        match self.content {
            Content::Text(s, _) => (clip(str_width(self.font(), s@) as int) as int, 16),
            Content::Paragraph(w, _) => (
                widest_line(self.font(), w.lines_view()),
                clip(16 * (w.breakpoints().len() as int)) as int,
            ),
            Content::Custom { buf, height } => ((buf@.len() as int) / (height as int), height as int),
            Content::Row(cs) => (clip(sum_widths(cs@)) as int, max_heights(cs@)),
            Content::Stack(cs) => (max_widths(cs@), clip(sum_heights(cs@)) as int),
        }
    }

    /// The fill size: the baked size within the constraints.
    pub open spec fn fill_spec(&self) -> (int, int) {
        (
            clamp_opt(self.size.baked_width as int, self.size.minwidth, self.size.maxwidth),
            clamp_opt(self.size.baked_height as int, self.size.minheight, self.size.maxheight),
        )
    }

    /// Every custom block in the tree is exactly as large as its element's fill size, as
    /// drawing requires.
    pub open spec fn customs_fit(&self) -> bool
        decreases self,
    {
        match self.content {
            Content::Custom { buf, height } => self.fill_spec() == (
                (buf@.len() as int) / (height as int),
                height as int,
            ),
            Content::Row(cs) => forall|i: int| 0 <= i < cs@.len() ==> (#[trigger] cs@[i]).customs_fit(),
            Content::Stack(cs) => forall|i: int| 0 <= i < cs@.len() ==> (#[trigger] cs@[i]).customs_fit(),
            _ => true,
        }
    }

    /// The overall size: the fill size and the padding.
    pub open spec fn overall_spec(&self) -> (int, int) {
        (
            clip(self.fill_spec().0 + self.padding.left + self.padding.right) as int,
            clip(self.fill_spec().1 + self.padding.top + self.padding.bottom) as int,
        )
    }

    /// The leftover room per flex edge of the children of a row or stack, across and down:
    /// what the children leave of the content box, shared among their flex edges.
    pub open spec fn flex_room(&self) -> (int, int) {
        match self.content {
            Content::Row(cs) => (
                div_or_zero(
                    max_int(self.fill_spec().0 - clip(sum_widths(cs@)), 0),
                    clip(sum_hflex(cs@)) as int,
                ),
                div_or_zero(
                    max_int(self.fill_spec().1 - max_heights(cs@), 0),
                    clip(sum_vflex(cs@)) as int,
                ),
            ),
            Content::Stack(cs) => (
                div_or_zero(
                    max_int(self.fill_spec().0 - max_widths(cs@), 0),
                    clip(sum_hflex(cs@)) as int,
                ),
                div_or_zero(
                    max_int(self.fill_spec().1 - clip(sum_heights(cs@)), 0),
                    clip(sum_vflex(cs@)) as int,
                ),
            ),
            _ => (0, 0),
        }
    }

    /// The fields that a layout pass leaves alone are those of `old`.
    pub open spec fn keeps_policy(&self, old: Element<D>) -> bool {
        &&& self.size.same_policy(old.size)
        &&& self.padding == old.padding
        &&& self.flex == old.flex
        &&& self.style == old.style
        &&& self.scroll == old.scroll
        &&& self.update == old.update
    }

    /// `self` is `old` after a layout pass with width hint `hint`: every paragraph is wrapped
    /// to its own `maxwidth` or, where that is unset, to the nearest one above it (or `hint`),
    /// and every node's baked size is what its strategy picks for its intrinsic size.
    pub open spec fn baked_from(&self, old: Element<D>, hint: Option<u32>) -> bool
        decreases old,
    {
        &&& self.keeps_policy(old)
        &&& (self.size.baked_width as int, self.size.baked_height as int) == self.size.resolve(
            self.intrinsic().0,
            self.intrinsic().1,
        )
        &&& match (old.content, self.content) {
            (Content::Text(s, a), Content::Text(s2, a2)) => s2 == s && a2 == a,
            (Content::Paragraph(w, a), Content::Paragraph(w2, a2)) => {
                &&& a2 == a
                &&& w2.text_view() == w.text_view()
                &&& w2.breakpoints() == wrap_points(
                    w.text_view(),
                    old.font(),
                    or_hint(old.size.maxwidth, hint),
                )
            },
            (Content::Custom { buf, height }, Content::Custom { buf: b2, height: h2 }) => b2 == buf
                && h2 == height,
            (Content::Row(cs), Content::Row(cs2)) => cs2@.len() == cs@.len() && forall|i: int|
                0 <= i < cs@.len() ==> (#[trigger] cs2@[i]).baked_from(cs@[i], old.size.maxwidth),
            (Content::Stack(cs), Content::Stack(cs2)) => cs2@.len() == cs@.len() && forall|i: int|
                0 <= i < cs@.len() ==> (#[trigger] cs2@[i]).baked_from(cs@[i], old.size.maxwidth),
            _ => false,
        }
    }
}


/// `a + b`, held at `u32::MAX`.
pub(crate) fn sat_add(a: u32, b: u32) -> (r: u32)
    ensures
        r == clip(a + b),
{
    if a > u32::MAX - b {
        u32::MAX
    } else {
        a + b
    }
}

/// `v` brought within the bounds that are set.
fn clamp_dim(v: u32, min: Option<u32>, max: Option<u32>) -> (r: u32)
    requires
        bounds_ordered(min, max),
    ensures
        r == clamp_opt(v as int, min, max),
{
    match (min, max) {
        (None, None) => v,
        (None, Some(hi)) => if v < hi { v } else { hi },
        (Some(lo), None) => if v > lo { v } else { lo },
        (Some(lo), Some(hi)) => if v < lo { lo } else if v > hi { hi } else { v },
    }
}

impl<D> Element<D> {
    /// Returns the sizing policy of this [`Element`].
    pub fn size(&self) -> (r: Size)
        ensures
            r == self.size,
    {
        self.size
    }

    /// Returns the fill size of this [`Element`]: its baked size within its constraints.
    /// These [`Dimensions`] exclude the padding.
    pub fn fill_size(&self) -> (r: Dimensions)
        requires
            self.size.wf(),
        ensures
            (r.width as int, r.height as int) == self.fill_spec(),
    {
        let width: u32 = clamp_dim(self.size.baked_width, self.size.minwidth, self.size.maxwidth);
        let height: u32 = clamp_dim(self.size.baked_height, self.size.minheight, self.size.maxheight);
        Dimensions { width, height }
    }

    /// Returns the smallest fill size that the constraints allow this [`Element`]: each
    /// minimum where it is set, else the baked size under the maximum. Excludes the padding.
    pub fn min_fill_size(&self) -> (r: Dimensions)
        ensures
            r.width == lowest_opt(self.size.baked_width as int, self.size.minwidth, self.size.maxwidth),
            r.height == lowest_opt(self.size.baked_height as int, self.size.minheight, self.size.maxheight),
    {
        let size = self.size;
        let width: u32 = match (size.minwidth, size.maxwidth) {
            (None, None) => size.baked_width,
            (None, Some(maxwidth)) => if size.baked_width < maxwidth { size.baked_width } else { maxwidth },
            (Some(minwidth), _) => minwidth,
        };
        let height: u32 = match (size.minheight, size.maxheight) {
            (None, None) => size.baked_height,
            (None, Some(maxheight)) => if size.baked_height < maxheight { size.baked_height } else { maxheight },
            (Some(minheight), _) => minheight,
        };
        Dimensions { width, height }
    }

    /// Returns the largest fill size that the constraints allow this [`Element`]: each maximum
    /// where it is set, else the baked size over the minimum. Excludes the padding.
    pub fn max_fill_size(&self) -> (r: Dimensions)
        ensures
            r.width == highest_opt(self.size.baked_width as int, self.size.minwidth, self.size.maxwidth),
            r.height == highest_opt(self.size.baked_height as int, self.size.minheight, self.size.maxheight),
    {
        let size = self.size;
        let width: u32 = match (size.minwidth, size.maxwidth) {
            (None, None) => size.baked_width,
            (Some(minwidth), None) => if size.baked_width > minwidth { size.baked_width } else { minwidth },
            (_, Some(maxwidth)) => maxwidth,
        };
        let height: u32 = match (size.minheight, size.maxheight) {
            (None, None) => size.baked_height,
            (Some(minheight), None) => if size.baked_height > minheight { size.baked_height } else { minheight },
            (_, Some(maxheight)) => maxheight,
        };
        Dimensions { width, height }
    }

    /// `fillsize` with `padding` added on each side, held at `u32::MAX`.
    fn include_padding(fillsize: Dimensions, padding: Padding) -> (r: Dimensions)
        ensures
            r.width == clip(fillsize.width + padding.left + padding.right),
            r.height == clip(fillsize.height + padding.top + padding.bottom),
    {
        Dimensions {
            width: sat_add(sat_add(fillsize.width, padding.left), padding.right),
            height: sat_add(sat_add(fillsize.height, padding.top), padding.bottom),
        }
    }

    /// Returns the overall size of this [`Element`]: its fill size and its padding.
    pub fn overall_size(&self) -> (r: Dimensions)
        requires
            self.size.wf(),
        ensures
            (r.width as int, r.height as int) == self.overall_spec(),
    {
        Self::include_padding(self.fill_size(), self.padding)
    }
}

/// The sums and maxima of the overall sizes of `cs`, the sums held at `u32::MAX`.
pub(crate) fn measure_children<D>(cs: &Vec<Element<D>>) -> (r: (u32, u32, u32, u32))
    requires
        forall|i: int| 0 <= i < cs@.len() ==> (#[trigger] cs@[i]).node_wf(),
    ensures
        r.0 == clip(sum_widths(cs@)),
        r.1 == clip(sum_heights(cs@)),
        r.2 == max_widths(cs@),
        r.3 == max_heights(cs@),
{
    let mut sw: u32 = 0;
    let mut sh: u32 = 0;
    let mut mw: u32 = 0;
    let mut mh: u32 = 0;
    let mut i: usize = 0;
    while i < cs.len()
        invariant
            i <= cs@.len(),
            forall|k: int| 0 <= k < cs@.len() ==> (#[trigger] cs@[k]).node_wf(),
            sw == clip(sum_widths(cs@.subrange(0, i as int))),
            sh == clip(sum_heights(cs@.subrange(0, i as int))),
            mw == max_widths(cs@.subrange(0, i as int)),
            mh == max_heights(cs@.subrange(0, i as int)),
        decreases cs@.len() - i,
    {
        proof {
            let sub = cs@.subrange(0, i + 1);
            assert(sub.drop_last() =~= cs@.subrange(0, i as int));
            lemma_sums_nonneg(cs@.subrange(0, i as int));
        }
        let d = cs[i].overall_size();
        sw = sat_add(sw, d.width);
        sh = sat_add(sh, d.height);
        if d.width > mw {
            mw = d.width;
        }
        if d.height > mh {
            mh = d.height;
        }
        i += 1;
    }
    proof {
        assert(cs@.subrange(0, cs@.len() as int) =~= cs@);
    }
    (sw, sh, mw, mh)
}

/// Sizes are never negative, so neither are their sums.
proof fn lemma_sums_nonneg<D>(cs: Seq<Element<D>>)
    ensures
        sum_widths(cs) >= 0,
        sum_heights(cs) >= 0,
        sum_hflex(cs) >= 0,
        sum_vflex(cs) >= 0,
        0 <= max_widths(cs) <= u32::MAX,
        0 <= max_heights(cs) <= u32::MAX,
    decreases cs.len(),
{
    if cs.len() > 0 {
        lemma_sums_nonneg(cs.drop_last());
    }
}

/// The widest of `lines` in `font`, or zero.
fn widest(font: &Font, lines: &Vec<String>) -> (r: u32)
    ensures
        r == widest_line(*font, Seq::new(lines@.len(), |i: int| lines@[i]@)),
{
    let ghost ls = Seq::new(lines@.len(), |i: int| lines@[i]@);
    let mut w: u32 = 0;
    let mut i: usize = 0;
    while i < lines.len()
        invariant
            i <= lines@.len(),
            ls == Seq::new(lines@.len(), |i: int| lines@[i]@),
            w == widest_line(*font, ls.subrange(0, i as int)),
        decreases lines@.len() - i,
    {
        proof {
            assert(ls.subrange(0, i + 1).drop_last() =~= ls.subrange(0, i as int));
        }
        let cs: Vec<char> = chars_of(lines[i].as_str());
        let lw: u32 = text_width(font, cs.as_slice());
        if lw > w {
            w = lw;
        }
        i += 1;
    }
    proof {
        assert(ls.subrange(0, lines@.len() as int) =~= ls);
    }
    w
}

/// Bakes each of `children` with width hint `hint`.
fn bake_children<D>(children: &mut Vec<Element<D>>, hint: Option<u32>)
    requires
        forall|k: int| 0 <= k < old(children)@.len() ==> (#[trigger] old(children)@[k]).wf(),
    ensures
        final(children)@.len() == old(children)@.len(),
        forall|k: int|
            0 <= k < old(children)@.len() ==> (#[trigger] final(children)@[k]).baked_from(
                old(children)@[k],
                hint,
            ) && final(children)@[k].wf() && final(children)@[k].node_wf(),
    decreases *old(children),
{
    let ghost old_cs = children@;
    let mut i: usize = 0;
    while i < children.len()
        invariant
            children@.len() == old_cs.len(),
            old_cs == old(children)@,
            i <= old_cs.len(),
            forall|k: int| 0 <= k < old_cs.len() ==> (#[trigger] old_cs[k]).wf(),
            forall|k: int|
                0 <= k < i ==> (#[trigger] children@[k]).baked_from(old_cs[k], hint)
                    && children@[k].wf(),
            forall|k: int| i <= k < old_cs.len() ==> #[trigger] children@[k] == old_cs[k],
        decreases old_cs.len() - i,
    {
        children[i].bake_size(hint);
        i += 1;
    }
}

impl<D> Element<D> {
    /// Bakes the size of this [`Element`] and of all its descendants from their content and
    /// constraints.
    ///
    /// Children are baked first, with this element's `maxwidth` as their width hint. A
    /// paragraph is re-wrapped to its own `maxwidth`, or else to `maxwidth_hint`. Afterwards
    /// [`Element::fill_size`] and [`Element::overall_size`] hold until the content or the
    /// constraints change.
    pub fn bake_size(&mut self, maxwidth_hint: Option<u32>)
        requires
            old(self).wf(),
        ensures
            final(self).wf(),
            final(self).baked_from(*old(self), maxwidth_hint),
        decreases *old(self),
    {
        let width: u32;
        let height: u32;
        match &mut self.content {
            Content::Text(text, _) => {
                let cs: Vec<char> = chars_of(text.as_str());
                width = text_width(&*self.style.font, cs.as_slice());
                height = self.style.font.height() as u32;
            },
            Content::Paragraph(wrapped, _) => {
                let budget: Option<u32> = match self.size.maxwidth {
                    Some(m) => Some(m),
                    None => maxwidth_hint,
                };
                wrapped.rewrap(budget, &*self.style.font);
                let lines: Vec<String> = wrapped.lines();
                width = widest(&*self.style.font, &lines);
                proof {
                    assert(Seq::new(lines@.len(), |i: int| lines@[i]@) =~= wrapped.lines_view());
                }
                let count: usize = wrapped.lines_count();
                let line_height: u32 = self.style.font.height() as u32;
                height = if count > (u32::MAX / line_height) as usize {
                    u32::MAX
                } else {
                    line_height * count as u32
                };
            },
            Content::Custom { buf, height: h } => {
                width = (buf.len() / *h as usize) as u32;
                height = *h;
            },
            Content::Row(children) => {
                bake_children(children, self.size.maxwidth);
                let (sw, _sh, _mxw, mxh) = measure_children(children);
                width = sw;
                height = mxh;
            },
            Content::Stack(children) => {
                bake_children(children, self.size.maxwidth);
                let (_sw, sh, mxw, _mxh) = measure_children(children);
                width = mxw;
                height = sh;
            },
        }
        match self.size.strategy {
            SizingStrategy::Whatever => {
                self.size.baked_width = width;
                self.size.baked_height = height;
            },
            SizingStrategy::Chonker => {
                let mw: u32 = match self.size.maxwidth {
                    Some(m) => m,
                    None => 0,
                };
                let mh: u32 = match self.size.maxheight {
                    Some(m) => m,
                    None => 0,
                };
                self.size.baked_width = if mw > width { mw } else { width };
                self.size.baked_height = if mh > height { mh } else { height };
            },
            SizingStrategy::Smollest => {
                let mw: u32 = match self.size.minwidth {
                    Some(m) => m,
                    None => width,
                };
                let mh: u32 = match self.size.minheight {
                    Some(m) => m,
                    None => height,
                };
                self.size.baked_width = if mw < width { mw } else { width };
                self.size.baked_height = if mh < height { mh } else { height };
            },
        }
    }
}

/// The flex edges of `cs`, across and down, the sums held at `u32::MAX`.
fn count_flexes<D>(cs: &Vec<Element<D>>) -> (r: (u32, u32))
    ensures
        r.0 == clip(sum_hflex(cs@)),
        r.1 == clip(sum_vflex(cs@)),
{
    let mut h: u32 = 0;
    let mut v: u32 = 0;
    let mut i: usize = 0;
    while i < cs.len()
        invariant
            i <= cs@.len(),
            h == clip(sum_hflex(cs@.subrange(0, i as int))),
            v == clip(sum_vflex(cs@.subrange(0, i as int))),
        decreases cs@.len() - i,
    {
        proof {
            assert(cs@.subrange(0, i + 1).drop_last() =~= cs@.subrange(0, i as int));
            lemma_sums_nonneg(cs@.subrange(0, i as int));
        }
        h = sat_add(h, cs[i].flex.horizontal_flexes() as u32);
        v = sat_add(v, cs[i].flex.vertical_flexes() as u32);
        i += 1;
    }
    proof {
        assert(cs@.subrange(0, cs@.len() as int) =~= cs@);
    }
    (h, v)
}

impl<D> Element<D> {
    /// Returns the room per flex edge for the children of this row or stack, across and then
    /// down: the room that the children leave in this element's content box (its fill size),
    /// divided evenly among their flex edges (zero where they have none).
    pub(crate) fn room_per_flex(&self) -> (r: (u32, u32))
        requires
            self.wf(),
            self.content is Row || self.content is Stack,
        ensures
            (r.0 as int, r.1 as int) == self.flex_room(),
    {
        let fill = self.fill_size();
        let (children_width, children_height, flexes_hor, flexes_ver) = match &self.content {
            Content::Row(cs) => {
                proof {
                    assert forall|k: int| 0 <= k < cs@.len() implies (#[trigger] cs@[k]).node_wf() by {
                        assert(cs@[k].wf());
                    }
                }
                let (sw, _sh, _mw, mh) = measure_children(cs);
                let (fh, fv) = count_flexes(cs);
                (sw, mh, fh, fv)
            },
            Content::Stack(cs) => {
                proof {
                    assert forall|k: int| 0 <= k < cs@.len() implies (#[trigger] cs@[k]).node_wf() by {
                        assert(cs@[k].wf());
                    }
                }
                let (_sw, sh, mw, _mh) = measure_children(cs);
                let (fh, fv) = count_flexes(cs);
                (mw, sh, fh, fv)
            },
            _ => (0, 0, 0, 0),
        };
        let room_hor: u32 = if fill.width > children_width { fill.width - children_width } else { 0 };
        let room_ver: u32 = if fill.height > children_height { fill.height - children_height } else { 0 };
        (
            if flexes_hor == 0 { 0 } else { room_hor / flexes_hor },
            if flexes_ver == 0 { 0 } else { room_ver / flexes_ver },
        )
    }
}

impl<D> Element<D> {
    /// Creates a new [`Element`] with default constraints, padding and flex edges, a black on
    /// white style in `font`, and no scroll.
    pub fn new(update: Option<UpdateFn<D>>, content: Content<D>, font: Rc<Font>) -> (r: Self)
        ensures
            r.update == update,
            r.content == content,
            r.style.font == font,
            r.style.foreground == [0x00u8, 0x00u8, 0x00u8, 0xffu8],
            r.style.background == [0xffu8, 0xffu8, 0xffu8, 0xffu8],
            r.size.strategy == SizingStrategy::Whatever,
            r.size.baked_width == 0 && r.size.baked_height == 0,
            r.size.minwidth is None && r.size.maxwidth is None,
            r.size.minheight is None && r.size.maxheight is None,
            r.padding == (Padding { top: 0, bottom: 0, left: 0, right: 0 }),
            r.flex == (Flex { top: false, bottom: false, left: false, right: false }),
            r.scroll is None,
    {
        Self {
            size: Size::default(),
            padding: Padding::default(),
            flex: Flex::default(),
            style: Style::default_with_font(font),
            update,
            content,
            scroll: None,
        }
    }

    /// Creates a new [`Element`] without an update function.
    pub fn still(font: Rc<Font>, content: Content<D>) -> (r: Self)
        ensures
            r.update is None,
            r.content == content,
            r.style.font == font,
            r.size.minwidth is None && r.size.maxwidth is None,
            r.size.minheight is None && r.size.maxheight is None,
            r.size.strategy == SizingStrategy::Whatever,
            r.padding == (Padding { top: 0, bottom: 0, left: 0, right: 0 }),
            r.flex == (Flex { top: false, bottom: false, left: false, right: false }),
            r.scroll is None,
    {
        Self::new(None, content, font)
    }

    /// Creates a new [`Element`] whose `update` function adjusts it from the application's
    /// data on every [`crate::Panel::update`].
    pub fn dynamic(update: UpdateFn<D>, font: Rc<Font>, content: Content<D>) -> (r: Self)
        ensures
            r.update == Some(update),
            r.content == content,
            r.style.font == font,
            r.size.minwidth is None && r.size.maxwidth is None,
            r.size.minheight is None && r.size.maxheight is None,
            r.size.strategy == SizingStrategy::Whatever,
            r.padding == (Padding { top: 0, bottom: 0, left: 0, right: 0 }),
            r.flex == (Flex { top: false, bottom: false, left: false, right: false }),
            r.scroll is None,
    {
        Self::new(Some(update), content, font)
    }

    /// Whether the whole tree is well formed ([`Element::wf`]).
    pub fn is_wf(&self) -> (r: bool)
        ensures
            r == self.wf(),
        decreases self,
    {
        let size_ok: bool = (match (self.size.minwidth, self.size.maxwidth) {
            (Some(lo), Some(hi)) => lo <= hi,
            _ => true,
        }) && (match (self.size.minheight, self.size.maxheight) {
            (Some(lo), Some(hi)) => lo <= hi,
            _ => true,
        });
        if !size_ok {
            return false;
        }
        match &self.content {
            Content::Text(_, _) => true,
            Content::Paragraph(w, _) => w.is_wf(),
            Content::Custom { buf, height } => *height > 0 && buf.len() % (*height as usize) == 0
                && buf.len() / (*height as usize) <= u32::MAX as usize,
            Content::Row(cs) => Self::all_wf(cs),
            Content::Stack(cs) => Self::all_wf(cs),
        }
    }

    /// Whether every custom block in the tree is exactly as large as its element's fill size
    /// ([`Element::customs_fit`]).
    pub fn customs_fit_check(&self) -> (r: bool)
        requires
            self.wf(),
        ensures
            r == self.customs_fit(),
        decreases self,
    {
        match &self.content {
            Content::Custom { buf, height } => {
                let fill = self.fill_size();
                fill.width as usize == buf.len() / (*height as usize) && fill.height == *height
            },
            Content::Row(cs) => Self::all_customs_fit(cs),
            Content::Stack(cs) => Self::all_customs_fit(cs),
            _ => true,
        }
    }

    /// Whether every custom block under each of `cs` fits.
    fn all_customs_fit(cs: &Vec<Element<D>>) -> (r: bool)
        requires
            forall|i: int| 0 <= i < cs@.len() ==> (#[trigger] cs@[i]).wf(),
        ensures
            r == forall|i: int| 0 <= i < cs@.len() ==> (#[trigger] cs@[i]).customs_fit(),
        decreases cs,
    {
        let mut i: usize = 0;
        while i < cs.len()
            invariant
                i <= cs@.len(),
                forall|k: int| 0 <= k < cs@.len() ==> (#[trigger] cs@[k]).wf(),
                forall|k: int| 0 <= k < i ==> (#[trigger] cs@[k]).customs_fit(),
            decreases cs@.len() - i,
        {
            proof {
                assert(decreases_to!(*cs => cs@[i as int]));
            }
            if !cs[i].customs_fit_check() {
                return false;
            }
            i += 1;
        }
        true
    }

    /// Whether every one of `cs` is well formed.
    fn all_wf(cs: &Vec<Element<D>>) -> (r: bool)
        ensures
            r == forall|i: int| 0 <= i < cs@.len() ==> (#[trigger] cs@[i]).wf(),
        decreases cs,
    {
        let mut i: usize = 0;
        while i < cs.len()
            invariant
                i <= cs@.len(),
                forall|k: int| 0 <= k < i ==> (#[trigger] cs@[k]).wf(),
            decreases cs@.len() - i,
        {
            proof {
                assert(decreases_to!(*cs => cs@[i as int]));
            }
            if !cs[i].is_wf() {
                return false;
            }
            i += 1;
        }
        true
    }

    /// The number of levels of the tree under this element, counting itself.
    fn depth(&self) -> (r: u64)
        decreases self,
    {
        match &self.content {
            Content::Row(cs) => Self::deepest(cs),
            Content::Stack(cs) => Self::deepest(cs),
            _ => 1,
        }
    }

    /// One more than the deepest of `cs`, held at `u64::MAX`.
    fn deepest(cs: &Vec<Element<D>>) -> (r: u64)
        decreases cs,
    {
        let mut d: u64 = 0;
        let mut i: usize = 0;
        while i < cs.len()
            invariant
                i <= cs@.len(),
            decreases cs@.len() - i,
        {
            proof {
                assert(decreases_to!(*cs => cs@[i as int]));
            }
            let c: u64 = cs[i].depth();
            if c > d {
                d = c;
            }
            i += 1;
        }
        if d == u64::MAX {
            d
        } else {
            d + 1
        }
    }

    /// Runs the update pass: this element's own `update` function, if it has one, and then,
    /// for a row or a stack, the pass on each child in order. The pass goes as deep as the tree
    /// was when it began; nodes that update functions add below that depth are updated from
    /// the next pass on.
    pub(crate) fn update(&mut self, data: &D) {
        let levels: u64 = self.depth();
        self.update_within(data, levels);
    }

    /// The update pass on the top `levels` levels of this tree.
    fn update_within(&mut self, data: &D, levels: u64)
        decreases levels, 1int,
    {
        if levels == 0 {
            return ;
        }
        // The function is held aside while it runs, and put back unless it installed another.
        let own: Option<UpdateFn<D>> = self.update.take();
        if let Some(f) = &own {
            run_update(f, self, data);
        }
        if self.update.is_none() {
            self.update = own;
        }
        match &mut self.content {
            Content::Row(children) => Self::update_children(children, data, levels),
            Content::Stack(children) => Self::update_children(children, data, levels),
            _ => {},
        }
    }

    /// The update pass on each of `children`, the children of a node `levels` levels deep.
    fn update_children(children: &mut Vec<Element<D>>, data: &D, levels: u64)
        requires
            levels > 0,
        decreases levels, 0int,
    {
        let mut i: usize = 0;
        while i < children.len()
            invariant
                levels > 0,
            decreases children@.len() - i,
        {
            children[i].update_within(data, levels - 1);
            i += 1;
        }
    }

    pub fn with_minwidth(self, minwidth: u32) -> (r: Self)
        ensures
            r == (Element { size: Size { minwidth: Some(minwidth), ..self.size }, ..self }),
    {
        let mut s = self;
        s.size.minwidth = Some(minwidth);
        s
    }

    pub fn with_minheight(self, minheight: u32) -> (r: Self)
        ensures
            r == (Element { size: Size { minheight: Some(minheight), ..self.size }, ..self }),
    {
        let mut s = self;
        s.size.minheight = Some(minheight);
        s
    }

    pub fn with_maxwidth(self, maxwidth: u32) -> (r: Self)
        ensures
            r == (Element { size: Size { maxwidth: Some(maxwidth), ..self.size }, ..self }),
    {
        let mut s = self;
        s.size.maxwidth = Some(maxwidth);
        s
    }

    pub fn with_maxheight(self, maxheight: u32) -> (r: Self)
        ensures
            r == (Element { size: Size { maxheight: Some(maxheight), ..self.size }, ..self }),
    {
        let mut s = self;
        s.size.maxheight = Some(maxheight);
        s
    }

    /// Fixes the width: both its minimum and its maximum become `width`.
    pub fn with_fixedwidth(self, width: u32) -> (r: Self)
        ensures
            r == (Element {
                size: Size { minwidth: Some(width), maxwidth: Some(width), ..self.size },
                ..self
            }),
    {
        let mut s = self;
        s.size.minwidth = Some(width);
        s.size.maxwidth = Some(width);
        s
    }

    /// Fixes the height: both its minimum and its maximum become `height`.
    pub fn with_fixedheight(self, height: u32) -> (r: Self)
        ensures
            r == (Element {
                size: Size { minheight: Some(height), maxheight: Some(height), ..self.size },
                ..self
            }),
    {
        let mut s = self;
        s.size.minheight = Some(height);
        s.size.maxheight = Some(height);
        s
    }

    pub fn with_strategy(self, strategy: SizingStrategy) -> (r: Self)
        ensures
            r == (Element { size: Size { strategy, ..self.size }, ..self }),
    {
        let mut s = self;
        s.size.strategy = strategy;
        s
    }

    pub fn with_padding_top(self, padding: Pad) -> (r: Self)
        ensures
            r == (Element { padding: Padding { top: padding, ..self.padding }, ..self }),
    {
        let mut s = self;
        s.padding.top = padding;
        s
    }

    pub fn with_padding_bottom(self, padding: Pad) -> (r: Self)
        ensures
            r == (Element { padding: Padding { bottom: padding, ..self.padding }, ..self }),
    {
        let mut s = self;
        s.padding.bottom = padding;
        s
    }

    pub fn with_padding_left(self, padding: Pad) -> (r: Self)
        ensures
            r == (Element { padding: Padding { left: padding, ..self.padding }, ..self }),
    {
        let mut s = self;
        s.padding.left = padding;
        s
    }

    pub fn with_padding_right(self, padding: Pad) -> (r: Self)
        ensures
            r == (Element { padding: Padding { right: padding, ..self.padding }, ..self }),
    {
        let mut s = self;
        s.padding.right = padding;
        s
    }

    pub fn with_flex_top(self, flex: bool) -> (r: Self)
        ensures
            r == (Element { flex: Flex { top: flex, ..self.flex }, ..self }),
    {
        let mut s = self;
        s.flex.top = flex;
        s
    }

    pub fn with_flex_bottom(self, flex: bool) -> (r: Self)
        ensures
            r == (Element { flex: Flex { bottom: flex, ..self.flex }, ..self }),
    {
        let mut s = self;
        s.flex.bottom = flex;
        s
    }

    pub fn with_flex_left(self, flex: bool) -> (r: Self)
        ensures
            r == (Element { flex: Flex { left: flex, ..self.flex }, ..self }),
    {
        let mut s = self;
        s.flex.left = flex;
        s
    }

    pub fn with_flex_right(self, flex: bool) -> (r: Self)
        ensures
            r == (Element { flex: Flex { right: flex, ..self.flex }, ..self }),
    {
        let mut s = self;
        s.flex.right = flex;
        s
    }

    pub fn with_style(self, style: Style) -> (r: Self)
        ensures
            r == (Element { style, ..self }),
    {
        let mut s = self;
        s.style = style;
        s
    }

    pub fn with_foreground(self, foreground: Pixel) -> (r: Self)
        ensures
            r.style.foreground == foreground,
            r.style.background == self.style.background,
            r.style.font == self.style.font,
            r.size == self.size && r.padding == self.padding && r.flex == self.flex,
            r.content == self.content && r.update == self.update && r.scroll == self.scroll,
    {
        let mut s = self;
        s.style.foreground = foreground;
        s
    }

    pub fn with_background(self, background: Pixel) -> (r: Self)
        ensures
            r.style.background == background,
            r.style.foreground == self.style.foreground,
            r.style.font == self.style.font,
            r.size == self.size && r.padding == self.padding && r.flex == self.flex,
            r.content == self.content && r.update == self.update && r.scroll == self.scroll,
    {
        let mut s = self;
        s.style.background = background;
        s
    }

    pub fn with_scroll(self, scroll: u32) -> (r: Self)
        ensures
            r == (Element { scroll: Some(scroll), ..self }),
    {
        let mut s = self;
        s.scroll = Some(scroll);
        s
    }
}

/// An element without minimum or maximum dimensions fills exactly its baked size, and its
/// overall size is its baked size with the padding added (where that sum fits in a `u32`).
pub proof fn lemma_unconstrained_fill<D>(e: Element<D>)
    requires
        e.size.minwidth is None,
        e.size.maxwidth is None,
        e.size.minheight is None,
        e.size.maxheight is None,
        e.size.baked_width + e.padding.left + e.padding.right <= u32::MAX,
        e.size.baked_height + e.padding.top + e.padding.bottom <= u32::MAX,
    ensures
        e.fill_spec() == (e.size.baked_width as int, e.size.baked_height as int),
        e.overall_spec() == (
            e.size.baked_width + e.padding.left + e.padding.right,
            e.size.baked_height + e.padding.top + e.padding.bottom,
        ),
{
}

/// The overall size is the fill size with the padding added on each side, wherever that sum
/// fits in a `u32`.
pub proof fn lemma_padding_adds<D>(e: Element<D>)
    requires
        e.fill_spec().0 + e.padding.left + e.padding.right <= u32::MAX,
        e.fill_spec().1 + e.padding.top + e.padding.bottom <= u32::MAX,
    ensures
        e.overall_spec().0 == e.fill_spec().0 + e.padding.left + e.padding.right,
        e.overall_spec().1 == e.fill_spec().1 + e.padding.top + e.padding.bottom,
{
}

/// With both a minimum and a maximum set on an axis (the minimum not above the maximum), the
/// fill size lies between the smallest and the largest fill size on that axis.
pub proof fn lemma_fill_between_extremes<D>(e: Element<D>)
    requires
        e.size.wf(),
        e.size.minwidth is Some,
        e.size.maxwidth is Some,
        e.size.minheight is Some,
        e.size.maxheight is Some,
    ensures
        lowest_opt(e.size.baked_width as int, e.size.minwidth, e.size.maxwidth) <= e.fill_spec().0
            <= highest_opt(e.size.baked_width as int, e.size.minwidth, e.size.maxwidth),
        lowest_opt(e.size.baked_height as int, e.size.minheight, e.size.maxheight) <= e.fill_spec().1
            <= highest_opt(e.size.baked_height as int, e.size.minheight, e.size.maxheight),
{
}

} // verus!
