//! Layout, wrapping and rendering, set in the cream12 font.
use std::rc::Rc;

use fleck::Font;
use stammer::block::Block;
use stammer::elements::builder::ElementBuilder;
use stammer::elements::{
    Alignment, Content, Dimensions, Element, SizingStrategy, UpdateFn, WrappedText,
};
use stammer::font::is_whitespace;
use stammer::Panel;

type Data = ();

/// A paragraph of filler text, on one line.
const LOREM: &str = "Lorem ipsum dolor sit amet, officia excepteur ex fugiat reprehenderit enim \
    labore culpa sint ad nisi Lorem pariatur mollit ex esse exercitation amet. Nisi \
    anim cupidatat excepteur officia. Reprehenderit nostrud nostrud ipsum Lorem est \
    aliquip amet voluptate voluptate dolor minim nulla est proident. Nostrud officia \
    pariatur ut officia. Sit irure elit esse ea nulla sunt ex occaecat reprehenderit \
    commodo officia dolor Lorem duis laboris cupidatat officia voluptate. Culpa \
    proident adipisicing id nulla nisi laboris ex in Lorem sunt duis officia \
    eiusmod. Aliqua reprehenderit commodo ex non excepteur duis sunt velit enim. \
    Voluptate laboris sint cupidatat ullamco ut ea consectetur et est culpa et culpa \
    duis.\n";

fn font() -> Font {
    Font::new(&cream12())
}

fn create_element() -> Element<Data> {
    Element::<Data>::still(
        Rc::new(font()),
        Content::Text("Hello, world.".to_string(), Alignment::default()),
    )
}

#[test]
fn fill_size() {
    let mut elem = create_element();
    elem.bake_size(None);

    assert_eq!(elem.fill_size(), Dimensions::new(69, 16));
}

#[test]
fn min_fill_size() {
    let mut elem = create_element();
    elem.bake_size(None);
    assert_eq!(elem.min_fill_size(), Dimensions::new(69, 16));

    elem = elem.with_minwidth(40).with_minheight(10);
    elem.bake_size(None);
    assert_eq!(elem.min_fill_size(), Dimensions::new(40, 10));

    elem = elem.with_maxwidth(40).with_maxheight(10);
    elem.bake_size(None);
    assert_eq!(elem.min_fill_size(), Dimensions::new(40, 10));

    elem = elem.with_maxwidth(300).with_maxheight(48);
    elem.bake_size(None);
    assert_eq!(elem.min_fill_size(), Dimensions::new(40, 10));

    elem = elem.with_minwidth(200).with_minheight(32);
    elem.bake_size(None);
    assert_eq!(elem.min_fill_size(), Dimensions::new(200, 32));
}

#[test]
fn max_fill_size() {
    let mut elem = create_element();
    elem.bake_size(None);
    assert_eq!(elem.max_fill_size(), Dimensions::new(69, 16));

    elem = elem.with_minwidth(40).with_minheight(10);
    elem.bake_size(None);
    assert_eq!(elem.max_fill_size(), Dimensions::new(69, 16));

    elem = elem.with_maxwidth(40).with_maxheight(10);
    elem.bake_size(None);
    assert_eq!(elem.max_fill_size(), Dimensions::new(40, 10));

    elem = elem.with_maxwidth(300).with_maxheight(48);
    elem.bake_size(None);
    assert_eq!(elem.max_fill_size(), Dimensions::new(300, 48));

    elem = elem.with_minwidth(200).with_minheight(32);
    elem.bake_size(None);
    assert_eq!(elem.max_fill_size(), Dimensions::new(300, 48));
}

#[test]
fn zero_padding() {
    let mut elem = create_element();
    elem.bake_size(None);
    assert_eq!(elem.overall_size(), Dimensions::new(69, 16));

    elem = elem
        .with_padding_top(0)
        .with_padding_bottom(0)
        .with_padding_left(0)
        .with_padding_right(0);
    elem.bake_size(None);
    assert_eq!(elem.overall_size(), Dimensions::new(69, 16));
    assert_eq!(elem.overall_size(), elem.fill_size(),);
}

#[test]
fn with_padding() {
    let mut elem = create_element();
    elem.bake_size(None);
    assert_eq!(elem.overall_size(), Dimensions::new(69, 16));

    elem = elem
        .with_padding_top(12)
        .with_padding_bottom(34)
        .with_padding_left(56)
        .with_padding_right(78);
    elem.bake_size(None);
    assert_eq!(elem.overall_size(), Dimensions::new(203, 62));
}

#[test]
fn minimal() {
    let font = font();
    let text = "hello dear\nworld".to_string();
    let enough_width = WrappedText::new(text.clone(), 200, &font);
    assert_eq!(enough_width.wrapped(), text);
    let wrapped = WrappedText::new(text, 50, &font);
    assert_eq!(wrapped.wrapped(), "hello\ndear\nworld");
}

#[test]
fn lorem() {
    let font = font();
    let lorem = LOREM.to_string();
    let wrapped = WrappedText::new(lorem, 300, &font);
    let correct = "Lorem ipsum dolor sit amet, officia excepteur ex\nfugiat reprehenderit \
        enim labore culpa sint ad\nnisi Lorem pariatur mollit ex esse exercitation\namet. \
        Nisi anim cupidatat excepteur officia.\nReprehenderit nostrud nostrud ipsum Lorem \
        est\naliquip amet voluptate voluptate dolor minim\nnulla est proident. Nostrud off\
        icia pariatur ut\nofficia. Sit irure elit esse ea nulla sunt ex\noccaecat reprehen\
        derit commodo officia dolor\nLorem duis laboris cupidatat officia voluptate.\nCulp\
        a proident adipisicing id nulla nisi laboris ex\nin Lorem sunt duis officia eiusmo\
        d. Aliqua\nreprehenderit commodo ex non excepteur duis\nsunt velit enim. Voluptate \
        laboris sint cupidatat\nullamco ut ea consectetur et est culpa et culpa\nduis.\n";
    assert_eq!(wrapped.wrapped(), correct);
}

#[test]
fn short_lines() {
    let font = font();
    let text = "This is some text
with some lines that
are obvious quite short.
In fact, they are much
shorter than 400 pixels.";
    let wrapped = WrappedText::new(text.to_string(), 400, &font);
    assert_eq!(wrapped.wrapped(), text);
}

#[test]
fn long_lines() {
    let font = font();
    let text = "Thequickbrownfoxjumpsoverthelazydog!!!!!
0123456789012345678901234567890123456789

abcdefghijklmnopqrstuvwxyzABCDEFGHIJKLMNOPQRSTUVWXYZ

";
    let correct = "Thequickbrownfoxjumpsoverthela
zydog!!!!!
012345678901234567890123456789
0123456789

abcdefghijklmnopqrstuvwxyzABCD
EFGHIJKLMNOPQRSTUVWXYZ

";
    let wrapped = WrappedText::new(text.to_string(), 200, &font);
    assert_eq!(wrapped.wrapped(), correct);
}

#[test]
fn messy_whitespace() {
    let font = font();
    // Quote from  Sadie Plant (1997), Zeros+Ones, p. 127.
    let text = r#"

Or does the error always come first? It was, after all, Grace
Hopper who, writing the software for the first electronic




programmable computer, introduced the terms "bug" and 
"debug" to computer programming when she found a



moth interrupting the smooth circuits of her new machine.



"#;
    let wrapped = WrappedText::new(text.to_string(), 300, &font);
    let correct = r#"

Or does the error always come first? It was, after
all, Grace
Hopper who, writing the software for the first
electronic




programmable computer, introduced the terms
"bug" and 
"debug" to computer programming when she
found a



moth interrupting the smooth circuits of her new
machine.



"#;
    assert_eq!(wrapped.wrapped(), correct);
}

#[test]
fn lines_count() {
    let font = font();
    let lorem = LOREM.to_string();
    let wrapped = WrappedText::new(lorem, 300, &font);
    assert_eq!(wrapped.lines_count(), wrapped.lines().len());
    assert_eq!(wrapped.lines_count(), 17);
}

#[test]
fn rewrap() {
    let font = font();
    let lorem = LOREM.to_string();
    let wrapped = WrappedText::new(lorem, 690, &font);
    let mut rewrapped = wrapped.clone();
    rewrapped.rewrap(Some(420), &font);
    rewrapped.rewrap(Some(690), &font);
    assert_eq!(wrapped.lines(), rewrapped.lines());
}

#[test]
fn rewrap_narrow_wide_narrow() {
    let font = font();
    let text = "hello dear\nworld and more words".to_string();
    let once = WrappedText::new(text.clone(), 50, &font);
    let mut thrice = WrappedText::new(text, 50, &font);
    thrice.rewrap(Some(400), &font);
    assert_eq!(thrice.lines(), vec!["hello dear", "world and more words"]);
    thrice.rewrap(Some(50), &font);
    assert_eq!(once.lines(), thrice.lines());
    assert_eq!(once.lines_count(), thrice.lines_count());
}

#[test]
fn rewrap_without_budget_breaks_only_at_newlines() {
    let font = font();
    let mut t = WrappedText::new("a b c\nd e".to_string(), 1, &font);
    assert!(t.lines_count() > 2);
    t.rewrap(None, &font);
    assert_eq!(t.lines(), vec!["a b c", "d e"]);
}

#[test]
fn lines_give_back_the_text() {
    let font = font();
    let wrapped = WrappedText::new(LOREM.to_string(), 300, &font);
    let lines = wrapped.lines();
    assert_eq!(lines.len(), wrapped.lines_count());
    // Every break consumed one space; put it back and the text returns.
    assert_eq!(lines.join(" "), LOREM.replace('\n', " "));
}

#[test]
fn empty_text_has_one_empty_line() {
    let font = font();
    let wrapped = WrappedText::new(String::new(), 10, &font);
    assert_eq!(wrapped.lines_count(), 1);
    assert_eq!(wrapped.lines(), vec![String::new()]);
    assert_eq!(wrapped.wrapped(), "");
}

#[test]
fn word_wider_than_budget_is_split() {
    let font = font();
    // 'a' is 7 pixels wide: two fit in 14.
    let wrapped = WrappedText::new("aaaaa".to_string(), 14, &font);
    assert_eq!(wrapped.lines(), vec!["aa", "aa", "a"]);
}

#[test]
fn unveil_returns_the_text() {
    let font = font();
    let wrapped = WrappedText::new("hello dear\nworld".to_string(), 50, &font);
    assert_eq!(wrapped.unveil(), "hello dear\nworld");
}

#[test]
fn whitespace_characters() {
    assert!(is_whitespace(' '));
    assert!(is_whitespace('\n'));
    assert!(is_whitespace('\t'));
    assert!(is_whitespace('\u{3000}'));
    assert!(!is_whitespace('a'));
    assert!(!is_whitespace('\u{200b}'));
}

#[test]
fn unconstrained_fill_is_baked_size() {
    let mut elem = create_element()
        .with_padding_top(1)
        .with_padding_bottom(2)
        .with_padding_left(3)
        .with_padding_right(4);
    elem.bake_size(None);
    let size = elem.size();
    assert_eq!(elem.fill_size(), Dimensions::new(size.baked_width, size.baked_height));
    assert_eq!(elem.overall_size(), Dimensions::new(69 + 3 + 4, 16 + 1 + 2));
}

#[test]
fn fill_between_min_and_max() {
    let mut elem = create_element()
        .with_minwidth(10)
        .with_maxwidth(50)
        .with_minheight(20)
        .with_maxheight(30);
    elem.bake_size(None);
    let (lo, fill, hi) = (elem.min_fill_size(), elem.fill_size(), elem.max_fill_size());
    assert_eq!(fill, Dimensions::new(50, 20));
    assert!(lo.width <= fill.width && fill.width <= hi.width);
    assert!(lo.height <= fill.height && fill.height <= hi.height);
}

#[test]
fn strategies_pick_the_baked_size() {
    let mut chonker = create_element().with_maxwidth(100).with_strategy(SizingStrategy::Chonker);
    chonker.bake_size(None);
    assert_eq!(chonker.size().baked_width, 100);
    assert_eq!(chonker.fill_size(), Dimensions::new(100, 16));

    let mut smollest = create_element().with_minwidth(10).with_strategy(SizingStrategy::Smollest);
    smollest.bake_size(None);
    assert_eq!(smollest.size().baked_width, 10);
    assert_eq!(smollest.fill_size(), Dimensions::new(10, 16));
}

#[test]
fn paragraph_wraps_to_its_maxwidth() {
    let font = Rc::new(font());
    let mut elem: Element<Data> = Element::paragraph("hello dear\nworld", &font)
        .build()
        .with_maxwidth(50);
    elem.bake_size(None);
    // Lines "hello", "dear", "world": 26, 27 and 33 pixels wide.
    assert_eq!(elem.fill_size(), Dimensions::new(33, 48));
}

#[test]
fn paragraph_takes_the_width_hint() {
    let font = Rc::new(font());
    let para: Element<Data> = Element::paragraph("hello dear\nworld", &font).build();
    let mut stack = Element::stack_builder(&font).add_child(para).build().with_maxwidth(50);
    stack.bake_size(None);
    assert_eq!(stack.fill_size(), Dimensions::new(33, 48));
}

#[test]
fn row_and_stack_sizes() {
    let font = Rc::new(font());
    let a: Element<Data> = Element::text("ab", &font).build();
    let b: Element<Data> = Element::text("Hi", &font).build().with_padding_top(4);
    let mut row = Element::row_builder(&font).add_child(a).add_child(b).build();
    row.bake_size(None);
    assert_eq!(row.fill_size(), Dimensions::new(13 + 11, 20));

    let a: Element<Data> = Element::text("ab", &font).build();
    let b: Element<Data> = Element::text("Hi", &font).build().with_padding_top(4);
    let mut stack = Element::stack_builder(&font).add_children(vec![a, b]).build();
    stack.bake_size(None);
    assert_eq!(stack.fill_size(), Dimensions::new(13, 16 + 20));
}

const RED: [u8; 4] = [0xff, 0x00, 0x00, 0xff];
const BLUE: [u8; 4] = [0x00, 0x00, 0xff, 0xff];
const WHITE: [u8; 4] = [0xff, 0xff, 0xff, 0xff];
const BLACK: [u8; 4] = [0x00, 0x00, 0x00, 0xff];

fn swatch(font: &Rc<Font>, colour: [u8; 4]) -> Element<Data> {
    Element::still(Rc::clone(font), Content::Custom { buf: vec![colour; 2], height: 1 })
}

fn pixel(block: &Block, x: usize, y: usize) -> [u8; 4] {
    block.buf[y * block.width as usize + x]
}

#[test]
fn custom_block_is_copied() {
    let font = Rc::new(font());
    let buf = vec![RED, BLUE, BLACK, RED, BLUE, BLACK];
    let mut elem: Element<Data> =
        Element::still(font, Content::Custom { buf: buf.clone(), height: 2 }).with_padding_left(1);
    elem.bake_size(None);
    assert_eq!(elem.fill_size(), Dimensions::new(3, 2));
    let block = elem.block();
    assert_eq!((block.width, block.height), (4, 2));
    assert_eq!(block.buf, vec![WHITE, RED, BLUE, BLACK, WHITE, RED, BLUE, BLACK]);
}

#[test]
fn flex_room_goes_to_the_only_flex_edge() {
    let font = Rc::new(font());
    let first = swatch(&font, RED);
    let second = swatch(&font, BLUE).with_flex_left(true);
    let mut row = Element::row_builder(&font)
        .add_child(first)
        .add_child(second)
        .build()
        .with_fixedwidth(44);
    row.bake_size(None);
    let block = row.block();
    assert_eq!((block.width, block.height), (44, 1));
    assert_eq!(pixel(&block, 0, 0), RED);
    assert_eq!(pixel(&block, 1, 0), RED);
    for x in 2..42 {
        assert_eq!(pixel(&block, x, 0), WHITE);
    }
    assert_eq!(pixel(&block, 42, 0), BLUE);
    assert_eq!(pixel(&block, 43, 0), BLUE);
}

#[test]
fn flex_right_on_first_child_pushes_the_second() {
    let font = Rc::new(font());
    let first = swatch(&font, RED).with_flex_right(true);
    let second = swatch(&font, BLUE).with_flex_right(true);
    let mut row = Element::row_builder(&font)
        .add_child(first)
        .add_child(second)
        .build()
        .with_fixedwidth(44);
    row.bake_size(None);
    let block = row.block();
    // Two flex edges share the 40 pixels of room: 20 after each child.
    assert_eq!(pixel(&block, 0, 0), RED);
    assert_eq!(pixel(&block, 21, 0), WHITE);
    assert_eq!(pixel(&block, 22, 0), BLUE);
    assert_eq!(pixel(&block, 23, 0), BLUE);
    assert_eq!(pixel(&block, 24, 0), WHITE);
}

#[test]
fn stack_scrolls_by_rows() {
    let font = Rc::new(font());
    let mut stack = Element::stack_builder(&font)
        .add_child(swatch(&font, RED))
        .add_child(swatch(&font, BLUE))
        .build()
        .with_scroll(1);
    stack.bake_size(None);
    let block = stack.block();
    assert_eq!((block.width, block.height), (2, 2));
    assert_eq!(block.buf, vec![BLUE, BLUE, WHITE, WHITE]);
}

#[test]
fn text_glyphs_are_drawn() {
    let font = Rc::new(font());
    let mut elem: Element<Data> = Element::text("Hi", &font).build().with_padding_top(1);
    elem.bake_size(None);
    let block = elem.block();
    assert_eq!((block.width, block.height), (11, 17));
    assert_eq!(pixel(&block, 0, 0), WHITE);
    // Row 3 of "H" has its two uprights at columns 0 and 5; "i" starts at column 7.
    assert_eq!(pixel(&block, 0, 4), BLACK);
    assert_eq!(pixel(&block, 1, 4), WHITE);
    assert_eq!(pixel(&block, 5, 4), BLACK);
    assert_eq!(pixel(&block, 8, 4), BLACK);
    assert_eq!(pixel(&block, 7, 4), WHITE);
}

#[test]
fn right_aligned_text_ends_at_the_right_edge() {
    let font = Rc::new(font());
    let mut elem: Element<Data> = Element::text("H", &font)
        .with_alignment(Alignment::Right)
        .build()
        .with_fixedwidth(20);
    elem.bake_size(None);
    let block = elem.block();
    assert_eq!((block.width, block.height), (20, 16));
    // "H" is 7 pixels wide, so it starts at column 13.
    assert_eq!(pixel(&block, 13, 3), BLACK);
    assert_eq!(pixel(&block, 18, 3), BLACK);
    assert_eq!(pixel(&block, 0, 3), WHITE);
}

#[test]
fn centred_text_sits_in_the_middle() {
    let font = Rc::new(font());
    let mut elem: Element<Data> = Element::text("H", &font)
        .with_alignment(Alignment::Center)
        .build()
        .with_fixedwidth(21);
    elem.bake_size(None);
    let block = elem.block();
    // (21 - 7) / 2 = 7.
    assert_eq!(pixel(&block, 7, 3), BLACK);
    assert_eq!(pixel(&block, 6, 3), WHITE);
}

#[test]
fn characters_without_glyphs_take_no_room() {
    let font = Rc::new(font());
    let mut elem: Element<Data> = Element::text("\u{1f407}", &font).build();
    elem.bake_size(None);
    assert_eq!(elem.fill_size(), Dimensions::new(0, 16));
    let block = elem.block();
    assert_eq!((block.width, block.height), (0, 16));
    assert!(block.buf.is_empty());
}

#[test]
fn zero_width_element_draws_nothing() {
    let font = Rc::new(font());
    let mut elem: Element<Data> = Element::text("Hi", &font).build().with_fixedwidth(0);
    elem.bake_size(None);
    assert_eq!(elem.fill_size(), Dimensions::new(0, 16));
    let mut panel = Panel::new(elem, BLACK, RED, ());
    panel.resize(2, 2);
    let mut pixels = vec![0u8; 16];
    panel.draw(&mut pixels);
    assert_eq!(pixels, [RED, RED, RED, RED].concat());
}

#[test]
fn scrolling_past_the_end_shows_background() {
    let font = Rc::new(font());
    let mut stack = Element::stack_builder(&font)
        .add_child(swatch(&font, RED))
        .add_child(swatch(&font, BLUE))
        .build()
        .with_scroll(10);
    stack.bake_size(None);
    let block = stack.block();
    assert_eq!((block.width, block.height), (2, 2));
    assert_eq!(block.buf, vec![WHITE; 4]);
}

#[test]
fn centred_text_wider_than_its_box_is_left_aligned() {
    let font = Rc::new(font());
    let mut centred: Element<Data> = Element::text("Hi", &font)
        .with_alignment(Alignment::Center)
        .build()
        .with_fixedwidth(9);
    let mut left: Element<Data> = Element::text("Hi", &font).build().with_fixedwidth(9);
    centred.bake_size(None);
    left.bake_size(None);
    assert_eq!(centred.block().buf, left.block().buf);
}

fn dot(font: &Rc<Font>, colour: [u8; 4]) -> Element<Data> {
    Element::still(Rc::clone(font), Content::Custom { buf: vec![colour], height: 1 })
}

#[test]
fn custom_fill_is_clamped_to_its_constraints() {
    let font = Rc::new(font());
    let mut small = dot(&font, RED).with_minwidth(5).with_maxwidth(10);
    small.bake_size(None);
    assert_eq!(small.fill_size(), Dimensions::new(5, 1));
    assert!(small.min_fill_size().width <= small.fill_size().width);
    assert!(!small.customs_fit_check());

    let mut wide: Element<Data> = Element::still(
        Rc::clone(&font),
        Content::Custom { buf: vec![RED; 4], height: 1 },
    )
    .with_maxwidth(2);
    wide.bake_size(None);
    assert_eq!(wide.fill_size(), Dimensions::new(2, 1));
    assert!(wide.fill_size().width <= wide.max_fill_size().width);
    assert!(!wide.customs_fit_check());

    let mut exact = dot(&font, RED).with_minwidth(1).with_maxwidth(3);
    exact.bake_size(None);
    assert!(exact.customs_fit_check());
}

#[test]
fn flex_room_is_measured_in_the_content_box() {
    let font = Rc::new(font());
    let mut row = Element::row_builder(&font)
        .add_child(dot(&font, RED).with_flex_right(true))
        .add_child(dot(&font, BLUE))
        .build()
        .with_fixedwidth(42)
        .with_padding_left(1);
    row.bake_size(None);
    let block = row.block();
    assert_eq!((block.width, block.height), (43, 1));
    assert_eq!(pixel(&block, 1, 0), RED);
    // 40 pixels of room after the first child: the second sits at content column 41.
    assert_eq!(pixel(&block, 41, 0), WHITE);
    assert_eq!(pixel(&block, 42, 0), BLUE);
}

#[test]
fn stack_flex_room_pushes_children_down() {
    let font = Rc::new(font());
    let mut stack = Element::stack_builder(&font)
        .add_child(dot(&font, RED).with_flex_bottom(true))
        .add_child(dot(&font, BLUE))
        .build()
        .with_fixedheight(42);
    stack.bake_size(None);
    let block = stack.block();
    assert_eq!((block.width, block.height), (1, 42));
    assert_eq!(pixel(&block, 0, 0), RED);
    assert_eq!(pixel(&block, 0, 1), WHITE);
    assert_eq!(pixel(&block, 0, 40), WHITE);
    assert_eq!(pixel(&block, 0, 41), BLUE);
}

#[test]
fn padded_stack_scrolls_by_whole_rows() {
    let font = Rc::new(font());
    let mut stack = Element::stack_builder(&font)
        .add_child(swatch(&font, RED))
        .add_child(swatch(&font, BLUE))
        .add_child(swatch(&font, BLACK))
        .build()
        .with_padding_left(1)
        .with_padding_right(2)
        .with_scroll(1);
    stack.bake_size(None);
    let block = stack.block();
    assert_eq!((block.width, block.height), (5, 3));
    assert_eq!(
        block.buf,
        vec![
            WHITE, BLUE, BLUE, WHITE, WHITE, //
            WHITE, BLACK, BLACK, WHITE, WHITE, //
            WHITE, WHITE, WHITE, WHITE, WHITE,
        ]
    );
}

fn shout(element: &mut Element<u32>, data: &u32) {
    element.content = Content::Text(format!("{data}"), Alignment::Left);
}

fn break_constraints(element: &mut Element<u32>, _data: &u32) {
    element.size.minwidth = Some(10);
    element.size.maxwidth = Some(5);
}

#[test]
fn panel_lays_out_and_draws() {
    let font = Rc::new(font());
    let elem: Element<u32> = Element::dynamic(UpdateFn(shout), Rc::clone(&font), Content::Text(
        "Hi".to_string(),
        Alignment::Left,
    ));
    let mut panel = Panel::new(elem, BLACK, RED, 0);
    assert_eq!((panel.width, panel.height), (11, 16));
    panel.resize(20, 16);
    *panel.data_mut() = 7;
    assert!(panel.update());
    assert_eq!(panel.elements.fill_size(), Dimensions::new(font.determine_width("7") as u32, 16));
    let mut pixels = vec![0u8; 20 * 16 * 4 + 4];
    panel.draw(&mut pixels);
    // Past the element's width the panel's background shows; past the panel nothing is drawn.
    let x = 19;
    assert_eq!(&pixels[4 * x..4 * x + 4], &RED);
    assert_eq!(&pixels[20 * 16 * 4..], &[0u8; 4]);
}

#[test]
fn panel_refuses_conflicting_constraints() {
    let font = Rc::new(font());
    let elem: Element<u32> = Element::dynamic(UpdateFn(break_constraints), font, Content::Text(
        "Hi".to_string(),
        Alignment::Left,
    ));
    let mut panel = Panel::new(elem, BLACK, WHITE, 0);
    assert!(!panel.update());
}

/// The cream12 uf2 font (MIT licence, copyright Devine Lu Linvega), as fleck ships it, in
/// hexadecimal.
const CREAM12_HEX: &str = "0808080808080808080f0808080808080808080808080808080808080808080804030509060608030505080603060306\
    07030707070707070707030304060406090807070706060707030407070a0708070908070708080c0808070406040605\
    030706060707050607040407030c0806070706060508070b060706050305080800000000000000000000000008080808\
    000000000000000000000000000808080000000000000000000000000000000000000000000000000000000000000000\
    000000000000000000000000000000000000000000000000000000000000000000000000000000000000000000000000\
    00000000000000000000000000000000aa55aa55aa55aa55aa55aa55aa55aa5500000000000000000000000000000000\
    aa55aa55aa55aa55aa55aa55aa55aa5500000000000000000000000000000000aa55aa55aa55aa55aa55aa55aa55aa55\
    00000000000000000000000000000000aa55aa55aa55aa55aa55aa55aa55aa5500000000000000000000000000000000\
    aa55aa55aa55aa55aa55aa55aa55aa5500000000000000000000000000000000aa55aa55aa55aa55aa55aa55aa55aa55\
    00000000000000000000000000000000aa55aa55aa55aa55aa55aa55aa55aa5500000000000000000000000000000000\
    aa55aa55aa55aa55aa55aa55aa55aa5500000000000000000000000000000000aa55aa55aa55aa55aa55aa55aa55aa55\
    000000000000000000000000000000000000000000804020408000000000000000000000000000000000000000000000\
    0000000000001028100000000000000000000000000000000000000000000000aa55aa55aa55aa55aa55aa55aa55aa55\
    00000000000000000000000000000000aa55aa55aa55aa55aa55aa55aa55aa5500000000000000000000000000000000\
    aa55aa55aa55aa55aa55aa55aa55aa5500000000000000000000000000000000aa55aa55aa55aa55aa55aa55aa55aa55\
    00000000000000000000000000000000aa55aa55aa55aa55aa55aa55aa55aa5500000000000000000000000000000000\
    aa55aa55aa55aa55aa55aa55aa55aa5500000000000000000000000000000000aa55aa55aa55aa55aa55aa55aa55aa55\
    00000000000000000000000000000000aa55aa55aa55aa55aa55aa55aa55aa5500000000000000000000000000000000\
    aa55aa55aa55aa55aa55aa55aa55aa5500000000000000000000000000000000aa55aa55aa55aa55aa55aa55aa55aa55\
    00000000000000000000000000000000aa55aa55aa55aa55aa55aa55aa55aa5500000000000000000000000000000000\
    aa55aa55aa55aa55aa55aa55aa55aa5500000000000000000000000000000000aa55aa55aa55aa55aa55aa55aa55aa55\
    00000000000000000000000000000000aa55aa55aa55aa55aa55aa55aa55aa5500000000000000000000000000000000\
    aa55aa55aa55aa55aa55aa55aa55aa5500000000000000000000000000000000aa55aa55aa55aa55aa55aa55aa55aa55\
    00000000000000000000000000000000aa55aa55aa55aa55aa55aa55aa55aa5500000000000000000000000000000000\
    aa55aa55aa55aa55aa55aa55aa55aa5500000000000000000000000000000000aa55aa55aa55aa55aa55aa55aa55aa55\
    00000000000000000000000000000000aa55aa55aa55aa55aa55aa55aa55aa5500000000000000000000000000000000\
    aa55aa55aa55aa55aa55aa55aa55aa550000000000000000000000000000000000000000000000000000000000000000\
    000000000000000000000000000000000000004040404040404000400000000000000000000000000000000000000000\
    00000050505000000000000000000000000000000000000000000000000000000000000012127f2424fe484800000000\
    000000000000000000000000000000000000002070a8a07028a870200000000000000000000000000000000000000000\
    00000048a8b050205068a8900000000000000000000000000000000000000000000000609090a040a094887400000000\
    000000000000000000000000000000000000004040400000000000000000000000000000000000000000000000000000\
    000010202040404040404020201000000000000000000000000000000000000000004020201010101010102020400000\
    0000000000000000000000000000000000000000105438ee385410000000000000000000000000000000000000000000\
    00000000002020f820200000000000000000000000000000000000000000000000000000000000000000004040800000\
    0000000000000000000000000000000000000000000000f8000000000000000000000000000000000000000000000000\
    000000000000000000000040000000000000000000000000000000000000000000000008081010202040408080000000\
    000000000000000000000000000000000000007884848484848484780000000000000000000000000000000000000000\
    00000040c04040404040404000000000000000000000000000000000000000000000007884040418608080fc00000000\
    00000000000000000000000000000000000000fc04081804040484780000000000000000000000000000000000000000\
    000000182828484888fc08080000000000000000000000000000000000000000000000fc8080f8040404847800000000\
    00000000000000000000000000000000000000384080f884848484780000000000000000000000000000000000000000\
    000000fc0404080810102020000000000000000000000000000000000000000000000078848478848484847800000000\
    0000000000000000000000000000000000000078848484847c0408700000000000000000000000000000000000000000\
    000000000040000000400000000000000000000000000000000000000000000000000000004000000040408000000000\
    000000000000000000000000000000000000000000204080402000000000000000000000000000000000000000000000\
    000000000000f800f8000000000000000000000000000000000000000000000000000000008040204080000000000000\
    000000000000000000000000000000000000007088880810202000200000000000000000000000000000000000000000\
    000000003c4299a5a5a5ad96403000000000000000000000000000000000000000000010102828447c82828200000000\
    00000000000000000000000000000000000000f8848484f8848484f80000000000000000000000000000000000000000\
    0000003844808080808044380000000000000000000000000000000000000000000000f088848484848488f000000000\
    00000000000000000000000000000000000000f8808080f0808084f80000000000000000000000000000000000000000\
    000000f8808080f0808080800000000000000000000000000000000000000000000000384480808c8484443c00000000\
    0000000000000000000000000000000000000084848484fc848484840000000000000000000000000000000000000000\
    000000404040404040404040000000000000000000000000000000000000000000000020202020202020202040800000\
    00000000000000000000000000000000000000848890a0c0a09088840000000000000000000000000000000000000000\
    0000008080808080808080fc000000000000000000000000000000000000000000000080c1c1a2a29494888800000000\
    0000008080808080808080800000000000000084c4c4a4a4948c8c840000000000000000000000000000000000000000\
    0000003844828282828244380000000000000000000000000000000000000000000000f8848484f88080808000000000\
    000000000000000000000000000000000000003844828282828a443b0000000000000000000000000000800000000000\
    000000f8848484f890888986000000000000000000000000000000000000000000000078848040300804847800000000\
    00000000000000000000000000000000000000fe10101010101010100000000000000000000000000000000000000000\
    0000008484848484848c9566000000000000000000000000000000000000000000000082824444282828101000000000\
    0000000000000000000000000000000000000084844444442a2a11110000000000000020204040408080000000000000\
    000000824444281028444482000000000000000000000000000000000000000000000082444428101010101000000000\
    00000000000000000000000000000000000000fc04081020408082fc0000000000000000000000000000000000000000\
    000060404040404040404040406000000000000000000000000000000000000000000080804040202010100808000000\
    000000000000000000000000000000000000602020202020202020202060000000000000000000000000000000000000\
    00000020508800000000000000000000000000000000000000000000000000000000000000000000000000f800000000\
    000000000000000000000000000000000000008040000000000000000000000000000000000000000000000000000000\
    00000000003848888898aa4c00000000000000000000000000000000000000000000008080b0c888888890e000000000\
    000000000000000000000000000000000000000000304880808890600000000000000000000000000000000000000000\
    00000008083848888898aa4c000000000000000000000000000000000000000000000000001824485064c83000000000\
    0000000000000000000000000000000000000000304040f0404040404040400000000000000000000000000000000000\
    00000000003848888898a84808106000000000000000000000000000000000000000008080b0c88888888a8c00000000\
    00000000000000000000000000000000000000400040c040404050600000000000000000000000000000000000000000\
    00000020002060202020202020408000000000000000000000000000000000000000008080b0c888f0a0928c00000000\
    0000000000000000000000000000000000000080808080808080a0c00000000000000000000000000000000000000000\
    0000000000d966444444444400000000000000000080404040405060000000000000000000d864444444454600000000\
    000000000000000000000000000000000000000000708888888888700000000000000000000000000000000000000000\
    000000000058e44444444870404040000000000000000000000000000000000000000000003848888898a848080a0c00\
    00000000000000000000000000000000000000000058e040404040400000000000000000000000000000000000000000\
    0000000000708880700888700000000000000000000000000000000000000000000000004070c0404040506000000000\
    00000000000000000000000000000000000000000044c444444c55260000000000000000000000000000000000000000\
    0000000000c844444448506000000000000000000000000000000000000000000000000000c444444c54654600000000\
    000000000080404040800000000000000000000000885050205050880000000000000000000000000000000000000000\
    000000000044c444444c542404083000000000000000000000000000000000000000000000f80810204084f800000000\
    000000000000000000000000000000000000102020202040402020202010000000000000000000000000000000000000\
    000040404040404040404040404000000000000000000000000000000000000000004020202020101020202020400000\
    0000000000000000000000000000000000000000000060920c0000000000000000000000000000000000000000000000\
    aa55aa55aa55aa55aa55aa55aa55aa5500000000000000000000000000000000ffffffffffffffffffffffffffffffff\
    ffffffffffffffffffffffffffffffff00000000000000000000000000ff000000000000000000000000000000ff0000\
    ffffffffffffffffffffffffffffffffffffffffffffffffffffffffffffffffffffffffffffffffffffffffffffffff\
    ffffffffffffffffffffffffffffffffffffffffffffffffffffffffffffffffffffffffffffffffffffffffffffffff\
    ffffffffffffffffffffffffffffffffffffffffffffffffffffffffffffffffffffffffffffffffffffffffffffffff\
    ffffffffffffffffffffffffffffffffffffffffffffffffffffffffffffffffffffffffffffffffffffffffffffffff\
    ffffffffffffffffffffffffffffffffffffffffffffffffffffffffffffffffffffffffffffffffffffffffffffffff\
    ffffffffffffffffffffffffffffffff0000000000000000000000000000000000000000000000000000000000000000\
    000000000000000000000000000000000000000000000000000000000000000000000000000000000000000000000000\
    000000000000000000000000000000000000000000100804fe0408100000000000000000000000000000000000000000\
    000000000038448292824438000000000000000000000000000000000000000000000000001008fc02fc081000000000\
    0000000000000000000000000000000000001824003c66667e60623c0000000000000000000000000000000000000000\
    00000024003c66667e60623c000000000000000000000000000000000000000000001020003030303030303000000000\
    000000000000000000000000000000000000201000303030303030300000000000000000000000000000000000000000\
    000030480030303030303030000000000000000000000000000000000000000000000048003030303030303000000000\
    000000000000000000000000000000000000324c007c6666666666660000000000000000000000000000000000000000\
    00000810003c66666666663c000000000000000000000000000000000000000000001008003c66666666663c00000000\
    0000000000000000000000000000000000001824003c66666666663c0000000000000000000000000000000000000000\
    00000024003c66666666663c00000000000000000000000000000000000000000000324c003c66666666663c00000000\
    0000000000000000000000000000000000000810006666666666663e0000000000000000000000000000000000000000\
    0000000000fe8282fe8282fe00000000000000000000000000000000000000000000000000fe8282928282fe00000000\
    000000000000000000000000000000000000000000fe82fe82fe82fe0000000000000000000000000000000000000000\
    000000207020202000000000000000000000000000000000000000000000000000000030484830000000000000000000\
    000000000000000000000000000000000000103854505054381000000000000000000000000000000000000000000000\
    0000001c323030783030317e0000000000000000000000000000000000000000000038446030584c6434180c44380000\
    000000000000000000000000000000000000000000387c7c7c3800000000000000000000000000000000000000000000\
    0000003f6565653d0505050500000000000000000000000000000000000000000000001e333336333333337600000000\
    000000000000000000000000000000000000001e215c525c5252211e0000000000000000008080808080000000000000\
    0000001e214c5250524c211e000000000000000000808080808000000000000000000074262524000000000000000000\
    00000040c040400000000000000000000000001020400000000000000000000000000000000000000000000000000000\
    00000048000000000000000000000000000000000000000000000000000000000000000000047f087f10000000000000\
    000000000000000000000000000000000000003f6666667f6666666700000000000000c000000080000000c000000000\
    0000001e3333373b3333739e00000000000000800000000000000000000000000000000000384543463c000000000000\
    0000000000f088088870000000000000000000000010107c1010007c0000000000000000000000000000000000000000\
    000000000010204020100078000000000000000000000000000000000000000000000000002010081020007800000000\
    0000000000000000000000000000000000000061337f0c7f0c0c0c0c0000000000000080008000800000000000000000\
    00000000003333333333333e204000000000000000000000000000800000000000000000380c1e366666643800000000\
    000000000000000000000000000000000000007f31180c060c18317f0000000000000000000000000000000000000000\
    0000007f3333333333333333000000000000008000000000000000000000000000000000003f59191919191100000000\
    000000004080808080808000000000000000001830303030303030303060000000000000000000000000000000000000\
    000000384c3c6c6c3c007c000000000000000000000000000000000000000000000000386c6c6c6c38007c0000000000\
    000000000000000000000000000000000000001e33616161211212330000000000000000008080800000000000000000\
    00000000003f463e6766663f000000000000000000c06060e00020c00000000000000000003d66666e7666bc00000000\
    0000000000000000000000000000000000000018180018183060623c0000000000000000000000000000000000000000\
    0000003030003030303030300000000000000000000000000000000000000000000000000000007c0404000000000000\
    00000000000000000000000000000000000000000101226214140808000000000000e080000000000000000000000000\
    00000018303078303030303030600000000000000000000000000000000000000000000000011e211e20000000000000\
    0000000000000000000000000000000000000000080814142222417f0000000000000000000000000000000000000000\
    000000000009122448241209000000000000000000000000000000000000000000000000004824120912244800000000\
    000000000000000000000000000000000000000000000000000033330000000000000000000000000000303000000000\
    00000000000000000000000000000000000000000000000000000000000000001008003c6666667e6666666600000000\
    00000000000000000000000000000000324c003c6666667e666666660000000000000000000000000000000000000000\
    324c003c666666666666663c00000000000000000000000000000000000000000000003f666666676666663f00000000\
    000000c000000080000000c00000000000000000003f66666766663f000000000000000000c06060e00020c000000000\
    0000000000000078000000000000000000000000000000000000000000000000000000000000007f0000000000000000\
    0000000000000080000000000000000000000024486c6c00000000000000000000000000000000000000000000000000\
    0000006c6c24480000000000000000000000000000000000000000000000000000000020406060000000000000000000\
    000000000000000000000000000000000000006060204000000000000000000000000000000000000000000000000000\
    000000000010007c00100000000000000000000000000000000000000000000000000000081422412214080000000000\
    0000000000000000000000000000000000000024006666666666663e06463c0000000000000000000000000000000000\
    000000000000000000000000000000000000000000000000000000000000000000000000000000000000000000000000\
    000000000000000000000000000000000000000000000000000000000000000000000000000000000000000000000000\
    000000000000000000000000000000000000000000000000000000000000000000000000000000000000000000000000\
    000000000000000000000000000000000000000000000000000000000000000000000000000000000000000000000000\
    000000000000000000000000000000000000000000000000000000000000000000000000000000000000000000000000\
    000000000000000000000000000000000000000000000000000000000000000000000000000000000000000000000000\
    000000000000000000000000000000000000000000000000000000000000000000000000000000000000000000000000\
    000000000000000000000000000000000000000000000000000000000000000000000000000000000000000000000000\
    000000000000000000000000000000000000000000000000000000000000000000000000000000000000000000000000\
    000000000000000000000000000000000000000000000000000000000000000000000000000000000000000000000000\
    000000000000000000000000000000000000000000000000000000000000000000000000000000000000000000000000\
    000000000000000000000000000000000000000000000000000000000000000000000000000000000000000000000000\
    000000000000000000000000000000000000000000000000000000000000000000000000000000000000000000000000\
    000000000000000000000000000000000000000000000000000000000000000000000000000000000000000000000000\
    000000000000000000000000000000000000000000000000000000000000000000000000000000000000000000000000\
    000000000000000000000000000000000000000000000000000000000000000000000000000000000000000000000000\
    000000000000000000000000000000000000000000000000000000000000000000000000000000000000000000000000\
    000000000000000000000000000000000000000000000000000000000000000000000000000000000000000000000000\
    000000000000000000000000000000000000000000000000000000000000000000000000000000000000000000000000\
    000000000000000000000000000000000000000000000000000000000000000000000000000000000000000000000000\
    000000000000000000000000000000000000000000000000000000000000000000000000000000000000000000000000\
    000000000000000000000000000000000000000000000000000000000000000000000000000000000000000000000000\
    000000000000000000000000000000000000000000000000000000000000000000000000000000000000000000000000\
    000000000000000000000000000000000000000000000000000000000000000000000000000000000000000000000000\
    000000000000000000000000000000000000000000000000000000000000000000000000000000000000000000000000\
    000000000000000000000000000000000000000000000000000000000000000000000000000000000000000000000000";

fn cream12() -> [u8; fleck::FILE_SIZE] {
    let digits = CREAM12_HEX.as_bytes();
    let mut bytes = [0u8; fleck::FILE_SIZE];
    for (i, b) in bytes.iter_mut().enumerate() {
        let pair = std::str::from_utf8(&digits[2 * i..2 * i + 2]).unwrap();
        *b = u8::from_str_radix(pair, 16).unwrap();
    }
    bytes
}
