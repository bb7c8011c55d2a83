//! A retained-mode layout and rasterisation engine for small pixel-buffer panels.
//!
//! A tree of [`elements::Element`]s is sized bottom-up, wrapped to its width budget and
//! composited into [`block::Block`]s of RGBA pixels.
use vstd::prelude::*;

use crate::block::{lemma_offset_in_bounds, offset, painted_pixel, wide_usize, Block};
use crate::elements::compose::block_pixel;
use crate::elements::Element;

pub mod block;
pub mod elements;
pub mod font;

verus! {

/// The number of bytes per [`Pixel`].
pub const PIXEL_SIZE: usize = 4;

/// A pixel in the form `[r, g, b, a]`.
pub type Pixel = [u8; 4];

/// The window's panel: its size and colours, the application's data of type `D`, and the
/// element tree that is laid out and drawn into it.
#[verifier::reject_recursive_types(D)]
pub struct Panel<D> {
    pub width: u32,
    pub height: u32,
    pub foreground: Pixel,
    pub background: Pixel,
    pub data: D,
    pub elements: Element<D>,
}

impl<D> Panel<D> {
    /// Pixel `(x, y)` of the panel: the element tree's block where it reaches, the panel's
    /// background elsewhere.
    pub open spec fn panel_pixel(&self, x: int, y: int) -> Pixel {
        if x < self.elements.overall_spec().0 && y < self.elements.overall_spec().1 {
            block_pixel(self.elements, x, y)
        } else {
            self.background
        }
    }

    /// Creates a new [`Panel`], laying out `elements` with no width hint; the panel takes the
    /// overall size of the tree.
    pub fn new(elements: Element<D>, foreground: Pixel, background: Pixel, data: D) -> (r: Self)
        requires
            elements.wf(),
        ensures
            r.elements.wf(),
            r.elements.baked_from(elements, None),
            (r.width as int, r.height as int) == r.elements.overall_spec(),
            r.foreground == foreground,
            r.background == background,
            r.data == data,
    {
        let mut elements = elements;
        elements.bake_size(None);
        let size = elements.overall_size();
        Panel { width: size.width, height: size.height, foreground, background, data, elements }
    }

    /// Returns a mutable reference to the data of this [`Panel`].
    pub fn data_mut(&mut self) -> (r: &mut D)
        ensures
            *r == old(self).data,
            final(self).data == *final(r),
            final(self).elements == old(self).elements,
            final(self).width == old(self).width,
            final(self).height == old(self).height,
            final(self).foreground == old(self).foreground,
            final(self).background == old(self).background,
    {
        &mut self.data
    }

    /// Runs the update pass of the element tree with the panel's data, then lays the tree out
    /// with the panel's width as the hint.
    ///
    /// Returns `false`, and lays nothing out, where the update functions left a node whose
    /// constraints cannot be met or a custom block that is not a whole number of rows.
    pub fn update(&mut self) -> (r: bool)
        ensures
            final(self).width == old(self).width,
            final(self).height == old(self).height,
            final(self).foreground == old(self).foreground,
            final(self).background == old(self).background,
            r == final(self).elements.wf(),
            r ==> exists|updated: Element<D>| #[trigger] updated.wf() && final(self).elements.baked_from(
                updated,
                Some(old(self).width),
            ),
    {
        self.elements.update(&self.data);
        if !self.elements.is_wf() {
            return false;
        }
        let ghost updated = self.elements;
        self.elements.bake_size(Some(self.width));
        assert(updated.wf() && self.elements.baked_from(updated, Some(self.width)));
        true
    }

    /// Draws the panel into `pixels`, four bytes (`[r, g, b, a]`) per pixel, row by row: the
    /// element tree's block at the top left, the panel's background elsewhere. The bytes past
    /// the panel's own are left as they were.
    pub fn draw(&self, pixels: &mut [u8])
        requires
            wide_usize(),
            self.elements.wf(),
            self.elements.customs_fit(),
            old(pixels)@.len() >= 4 * (self.width as int) * (self.height as int),
        ensures
            final(pixels)@.len() == old(pixels)@.len(),
            forall|i: int|
                4 * (self.width as int) * (self.height as int) <= i < final(pixels)@.len()
                    ==> #[trigger] final(pixels)@[i] == old(pixels)@[i],
            forall|x: int, y: int, c: int|
                0 <= x < self.width && 0 <= y < self.height && 0 <= c < 4
                    ==> #[trigger] final(pixels)@[4 * offset(self.width as int, x, y) + c]
                    == self.panel_pixel(x, y)[c],
    {
        proof {
            crate::block::lemma_area_fits(self.width, self.height);
        }
        let mut block = Block::new(self.width, self.height, self.background);
        let ghost blank = block;
        let element_block = self.elements.block();
        block.paint(&element_block, 0, 0);
        proof {
            assert((self.width as int) * (self.height as int) == block.buf@.len());
            assert(4 * (self.width as int) * (self.height as int) == 4 * block.buf@.len()) by (nonlinear_arith)
                requires
                    (self.width as int) * (self.height as int) == block.buf@.len(),
            ;
        }
        block.draw_onto_pixels(pixels);
        proof {
            assert forall|x: int, y: int, c: int|
                0 <= x < self.width && 0 <= y < self.height && 0 <= c < 4
                    implies #[trigger] pixels@[4 * offset(self.width as int, x, y) + c]
                    == self.panel_pixel(x, y)[c] by {
                lemma_offset_in_bounds(self.width as int, self.height as int, x, y);
                let k = offset(self.width as int, x, y);
                assert((4 * k + c) / 4 == k);
                assert((4 * k + c) % 4 == c);
                assert(block.pixel(x, y) == painted_pixel(blank, element_block, 0, 0, x, y));
                assert(blank.pixel(x, y) == self.background);
            }
        }
    }

    /// Resizes the [`Panel`]. The next [`Panel::update`] lays the tree out for the new width.
    pub fn resize(&mut self, width: u32, height: u32)
        ensures
            final(self).width == width,
            final(self).height == height,
            final(self).foreground == old(self).foreground,
            final(self).background == old(self).background,
            final(self).data == old(self).data,
            final(self).elements == old(self).elements,
    {
        self.width = width;
        self.height = height;
    }
}

} // verus!
