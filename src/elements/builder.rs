//! Fluent construction of element trees.
use std::rc::Rc;

use vstd::prelude::*;

use fleck::Font;

use crate::elements::wrapped_text::wrap_points;
use crate::elements::{Alignment, Content, Element, Flex, Padding, SizingStrategy, UpdateFn, WrappedText};

verus! {

/// `e` is as [`Element::new`] makes it in `font`: default constraints, no padding, no flex
/// edges, black on white, no scroll.
pub open spec fn fresh<D>(e: Element<D>, font: Rc<Font>) -> bool {
    &&& e.style.font == font
    &&& e.style.foreground == [0x00u8, 0x00u8, 0x00u8, 0xffu8]
    &&& e.style.background == [0xffu8, 0xffu8, 0xffu8, 0xffu8]
    &&& e.size.strategy == SizingStrategy::Whatever
    &&& e.size.baked_width == 0 && e.size.baked_height == 0
    &&& e.size.minwidth is None && e.size.maxwidth is None
    &&& e.size.minheight is None && e.size.maxheight is None
    &&& e.padding == (Padding { top: 0, bottom: 0, left: 0, right: 0 })
    &&& e.flex == (Flex { top: false, bottom: false, left: false, right: false })
    &&& e.scroll is None
}

/// A builder that ends in an [`Element`].
pub trait ElementBuilder<D>: Sized {
    /// The update function that the built element will have.
    spec fn update_of(&self) -> Option<UpdateFn<D>>;

    /// `e` is the element that this builder builds, but for its update function.
    spec fn builds(&self, e: Element<D>) -> bool;

    /// Gives the element an update function.
    fn with_update(self, update: UpdateFn<D>) -> (r: Self)
        ensures
            r.update_of() == Some(update),
            forall|e: Element<D>| r.builds(e) == self.builds(e),
    ;

    /// Builds the element.
    fn build(self) -> (r: Element<D>)
        ensures
            r.update == self.update_of(),
            self.builds(r),
    ;
}

/// Whether a [`ContainerBuilder`] builds a stack or a row.
#[derive(Debug, Clone, Copy, PartialEq, Eq, Structural)]
pub enum ContainerKind {
    Stack,
    Row,
}

/// Builds a row or a stack, one child at a time.
#[verifier::reject_recursive_types(D)]
pub struct ContainerBuilder<D> {
    pub font: Rc<Font>,
    pub update: Option<UpdateFn<D>>,
    pub kind: ContainerKind,
    pub children: Vec<Element<D>>,
}

impl<D> ElementBuilder<D> for ContainerBuilder<D> {
    open spec fn update_of(&self) -> Option<UpdateFn<D>> {
        self.update
    }

    open spec fn builds(&self, e: Element<D>) -> bool {
        &&& fresh(e, self.font)
        &&& e.content == match self.kind {
            ContainerKind::Stack => Content::<D>::Stack(self.children),
            ContainerKind::Row => Content::<D>::Row(self.children),
        }
    }

    fn with_update(self, update: UpdateFn<D>) -> (r: Self) {
        let mut s = self;
        s.update = Some(update);
        s
    }

    fn build(self) -> (r: Element<D>) {
        let content = match self.kind {
            ContainerKind::Stack => Content::Stack(self.children),
            ContainerKind::Row => Content::Row(self.children),
        };
        Element::new(self.update, content, self.font)
    }
}

impl<D> ContainerBuilder<D> {
    fn row(font: &Rc<Font>) -> (r: Self)
        ensures
            r.font == *font,
            r.update is None,
            r.kind == ContainerKind::Row,
            r.children@.len() == 0,
    {
        Self { font: Rc::clone(font), update: None, kind: ContainerKind::Row, children: Vec::new() }
    }

    fn stack(font: &Rc<Font>) -> (r: Self)
        ensures
            r.font == *font,
            r.update is None,
            r.kind == ContainerKind::Stack,
            r.children@.len() == 0,
    {
        Self { font: Rc::clone(font), update: None, kind: ContainerKind::Stack, children: Vec::new() }
    }

    /// Adds `child` after the children so far.
    pub fn add_child(self, child: Element<D>) -> (r: Self)
        ensures
            r.children@ == self.children@.push(child),
            r.font == self.font,
            r.update == self.update,
            r.kind == self.kind,
    {
        let mut s = self;
        s.children.push(child);
        s
    }

    /// Adds `children`, in order, after the children so far.
    pub fn add_children(self, children: Vec<Element<D>>) -> (r: Self)
        ensures
            r.children@ == self.children@ + children@,
            r.font == self.font,
            r.update == self.update,
            r.kind == self.kind,
    {
        let mut s = self;
        let mut more = children;
        s.children.append(&mut more);
        s
    }
}

/// Builds a line of text.
#[verifier::reject_recursive_types(D)]
pub struct TextBuilder<D> {
    pub font: Rc<Font>,
    pub update: Option<UpdateFn<D>>,
    pub alignment: Alignment,
    pub string: String,
}

impl<D> ElementBuilder<D> for TextBuilder<D> {
    open spec fn update_of(&self) -> Option<UpdateFn<D>> {
        self.update
    }

    open spec fn builds(&self, e: Element<D>) -> bool {
        fresh(e, self.font) && e.content == Content::<D>::Text(self.string, self.alignment)
    }

    fn with_update(self, update: UpdateFn<D>) -> (r: Self) {
        let mut s = self;
        s.update = Some(update);
        s
    }

    fn build(self) -> (r: Element<D>) {
        let content = Content::Text(self.string, self.alignment);
        Element::new(self.update, content, self.font)
    }
}

impl<D> TextBuilder<D> {
    fn text(font: &Rc<Font>) -> (r: Self)
        ensures
            r.font == *font,
            r.update is None,
            r.alignment == Alignment::Left,
            r.string@.len() == 0,
    {
        Self { font: Rc::clone(font), update: None, alignment: Alignment::Left, string: String::new() }
    }

    /// Sets the text to a copy of `s`.
    pub fn with_string(self, s: &str) -> (r: Self)
        ensures
            r.string@ == s@,
            r.font == self.font,
            r.update == self.update,
            r.alignment == self.alignment,
    {
        let mut b = self;
        b.string = s.to_owned();
        b
    }

    pub fn with_alignment(self, alignment: Alignment) -> (r: Self)
        ensures
            r.alignment == alignment,
            r.font == self.font,
            r.update == self.update,
            r.string == self.string,
    {
        let mut b = self;
        b.alignment = alignment;
        b
    }
}

/// Builds a paragraph of wrapped text.
#[verifier::reject_recursive_types(D)]
pub struct ParagraphBuilder<D> {
    pub font: Rc<Font>,
    pub update: Option<UpdateFn<D>>,
    pub alignment: Alignment,
    pub width: Option<u32>,
    pub string: String,
}

impl<D> ElementBuilder<D> for ParagraphBuilder<D> {
    open spec fn update_of(&self) -> Option<UpdateFn<D>> {
        self.update
    }

    open spec fn builds(&self, e: Element<D>) -> bool {
        &&& fresh(e, self.font)
        &&& e.content matches Content::Paragraph(w, a)
        &&& a == self.alignment
        &&& w.text_view() == self.string@
        &&& w.breakpoints() == wrap_points(self.string@, *self.font, self.width)
    }

    fn with_update(self, update: UpdateFn<D>) -> (r: Self) {
        let mut s = self;
        s.update = Some(update);
        s
    }

    fn build(self) -> (r: Element<D>) {
        let wrapped = WrappedText::new_without_width(self.string, self.width, &*self.font);
        let content = Content::Paragraph(wrapped, self.alignment);
        Element::new(self.update, content, self.font)
    }
}

impl<D> ParagraphBuilder<D> {
    fn paragraph(font: &Rc<Font>) -> (r: Self)
        ensures
            r.font == *font,
            r.update is None,
            r.alignment == Alignment::Left,
            r.width is None,
            r.string@.len() == 0,
    {
        Self {
            font: Rc::clone(font),
            update: None,
            alignment: Alignment::Left,
            width: None,
            string: String::new(),
        }
    }

    /// Sets the text to a copy of `s`.
    pub fn with_string(self, s: &str) -> (r: Self)
        ensures
            r.string@ == s@,
            r.font == self.font,
            r.update == self.update,
            r.alignment == self.alignment,
            r.width == self.width,
    {
        let mut b = self;
        b.string = s.to_owned();
        b
    }

    /// Sets the width that the paragraph is first wrapped to.
    pub fn with_width(self, width: u32) -> (r: Self)
        ensures
            r.width == Some(width),
            r.font == self.font,
            r.update == self.update,
            r.alignment == self.alignment,
            r.string == self.string,
    {
        let mut b = self;
        b.width = Some(width);
        b
    }

    pub fn with_alignment(self, alignment: Alignment) -> (r: Self)
        ensures
            r.alignment == alignment,
            r.font == self.font,
            r.update == self.update,
            r.width == self.width,
            r.string == self.string,
    {
        let mut b = self;
        b.alignment = alignment;
        b
    }
}

impl<D> Element<D> {
    /// Starts a row of children.
    pub fn row_builder(font: &Rc<Font>) -> (r: ContainerBuilder<D>)
        ensures
            r.font == *font && r.update is None && r.kind == ContainerKind::Row && r.children@.len() == 0,
    {
        ContainerBuilder::row(font)
    }

    /// Starts a stack of children.
    pub fn stack_builder(font: &Rc<Font>) -> (r: ContainerBuilder<D>)
        ensures
            r.font == *font && r.update is None && r.kind == ContainerKind::Stack && r.children@.len() == 0,
    {
        ContainerBuilder::stack(font)
    }

    /// Starts a line of text holding `s`.
    pub fn text(s: &str, font: &Rc<Font>) -> (r: TextBuilder<D>)
        ensures
            r.font == *font && r.update is None && r.alignment == Alignment::Left && r.string@ == s@,
    {
        TextBuilder::text(font).with_string(s)
    }

    /// Starts a paragraph holding `s`.
    pub fn paragraph(s: &str, font: &Rc<Font>) -> (r: ParagraphBuilder<D>)
        ensures
            r.font == *font && r.update is None && r.alignment == Alignment::Left && r.width is None
                && r.string@ == s@,
    {
        ParagraphBuilder::paragraph(font).with_string(s)
    }

    /// Starts an empty line of text.
    pub fn empty_text(font: &Rc<Font>) -> (r: TextBuilder<D>)
        ensures
            r.font == *font && r.update is None && r.alignment == Alignment::Left && r.string@.len() == 0,
    {
        TextBuilder::text(font)
    }

    /// Starts an empty paragraph.
    pub fn empty_paragraph(font: &Rc<Font>) -> (r: ParagraphBuilder<D>)
        ensures
            r.font == *font && r.update is None && r.alignment == Alignment::Left && r.width is None
                && r.string@.len() == 0,
    {
        ParagraphBuilder::paragraph(font)
    }
}

} // verus!
