//! Greedy word wrapping of a string to a pixel width, kept as a list of breakpoints.
use vstd::prelude::*;

use fleck::Font;

use crate::font::{char_width, char_width_of, chars_of, is_whitespace, str_width, string_of, white_space};

verus! {

/// Where the scan of [`wrap_points`] stands after some characters.
pub struct WrapState {
    /// Width of the run since the last breakpoint.
    pub scrap: int,
    /// Width of the current word, from its leading whitespace on.
    pub word: int,
    /// The most recent whitespace since the last breakpoint.
    pub last_ws: Option<int>,
    /// The breakpoints so far.
    pub breaks: Seq<int>,
}

/// One character of the scan: character `ch`, of width `g`, at position `idx`.
///
/// A newline always breaks. Otherwise, with a budget, a character that would make the run wider
/// than the budget breaks the line at the most recent whitespace since the last break (the word
/// in progress moves to the new line), or right before itself where there is none.
pub open spec fn wrap_step(st: WrapState, idx: int, ch: char, g: int, maxwidth: Option<u32>) -> WrapState {
    if ch == '\n' {
        WrapState { scrap: 0, word: 0, last_ws: None, breaks: st.breaks.push(idx) }
    } else if maxwidth is None {
        st
    } else {
        let word = if white_space(ch) { 0 } else { st.word };
        let last_ws = if white_space(ch) { Some(idx) } else { st.last_ws };
        if st.scrap + g > maxwidth->0 {
            let word = if last_ws is Some { word } else { 0 };
            let br = if last_ws is Some { last_ws->0 } else { idx };
            WrapState { scrap: word + g, word: word + g, last_ws: None, breaks: st.breaks.push(br) }
        } else {
            WrapState { scrap: st.scrap + g, word: word + g, last_ws, breaks: st.breaks }
        }
    }
}

/// The scan after the first `n` characters of `cs`, set in font `f`.
pub open spec fn wrap_prefix(cs: Seq<char>, f: Font, maxwidth: Option<u32>, n: int) -> WrapState
    decreases n,
{
    if n <= 0 {
        WrapState { scrap: 0, word: 0, last_ws: None, breaks: Seq::empty() }
    } else {
        wrap_step(
            wrap_prefix(cs, f, maxwidth, n - 1),
            n - 1,
            cs[n - 1],
            char_width(f, cs[n - 1]) as int,
            maxwidth,
        )
    }
}

/// The breakpoints of `cs` wrapped to `maxwidth` in font `f`: the ends of its display lines,
/// as character positions. The last one is the length of `cs`.
pub open spec fn wrap_points(cs: Seq<char>, f: Font, maxwidth: Option<u32>) -> Seq<int> {
    wrap_prefix(cs, f, maxwidth, cs.len() as int).breaks.push(cs.len() as int)
}

/// The characters of line `i` before its leading whitespace is dropped: those between the
/// previous breakpoint (or the start) and breakpoint `i`.
pub open spec fn segment(cs: Seq<char>, breaks: Seq<int>, i: int) -> Seq<char> {
    let start = if i == 0 { 0 } else { breaks[i - 1] };
    cs.subrange(start, breaks[i])
}

/// `s` without its first character where that is whitespace.
pub open spec fn strip_leading_space(s: Seq<char>) -> Seq<char> {
    if s.len() > 0 && white_space(s[0]) {
        s.drop_first()
    } else {
        s
    }
}

/// Display line `i`: its segment, with one leading whitespace character dropped.
pub open spec fn line_at(cs: Seq<char>, breaks: Seq<int>, i: int) -> Seq<char> {
    strip_leading_space(segment(cs, breaks, i))
}

/// The lines `ls` joined with a newline between each two.
pub open spec fn join_lines(ls: Seq<Seq<char>>) -> Seq<char>
    decreases ls.len(),
{
    if ls.len() == 0 {
        Seq::empty()
    } else if ls.len() == 1 {
        ls[0]
    } else {
        join_lines(ls.drop_last()) + seq!['\n'] + ls.last()
    }
}

/// The segments `0 .. k` one after another.
pub open spec fn concat_segments(cs: Seq<char>, breaks: Seq<int>, k: int) -> Seq<char>
    decreases k,
{
    if k <= 0 {
        Seq::empty()
    } else {
        concat_segments(cs, breaks, k - 1) + segment(cs, breaks, k - 1)
    }
}

/// Breakpoints that split `len` characters into lines: strictly increasing, ending at `len`.
pub open spec fn valid_breaks(breaks: Seq<int>, len: int) -> bool {
    &&& breaks.len() > 0
    &&& breaks.last() == len
    &&& 0 <= breaks[0]
    &&& forall|i: int, j: int| 0 <= i < j < breaks.len() ==> breaks[i] < breaks[j]
}

/// A [`String`] with the breakpoints that divide it into display lines.
///
/// The breakpoints are character positions; re-wrapping replaces them and leaves the string as
/// it is.
#[derive(Clone)]
pub struct WrappedText {
    text: String,
    breaks: Vec<usize>,
}

impl WrappedText {
    /// The characters of the text.
    pub closed spec fn text_view(&self) -> Seq<char> {
        self.text@
    }

    /// The breakpoints, as character positions.
    pub closed spec fn breakpoints(&self) -> Seq<int> {
        self.breaks@.map_values(|b: usize| b as int)
    }

    /// The breakpoints divide the text.
    pub open spec fn wf(&self) -> bool {
        valid_breaks(self.breakpoints(), self.text_view().len() as int)
    }

    /// The display lines.
    pub open spec fn lines_view(&self) -> Seq<Seq<char>> {
        Seq::new(
            self.breakpoints().len(),
            |i: int| line_at(self.text_view(), self.breakpoints(), i),
        )
    }

    /// Creates a new [`WrappedText`] from `text`, wrapped to `width` pixels in `font`.
    pub fn new(text: String, width: u32, font: &Font) -> (r: Self)
        ensures
            r.wf(),
            r.text_view() == text@,
            r.breakpoints() == wrap_points(text@, *font, Some(width)),
    {
        Self::new_without_width(text, Some(width), font)
    }

    /// Creates a new [`WrappedText`] from `text`, wrapped to `width` pixels in `font`, or only at
    /// its newlines where `width` is `None`.
    pub fn new_without_width(text: String, width: Option<u32>, font: &Font) -> (r: Self)
        ensures
            r.wf(),
            r.text_view() == text@,
            r.breakpoints() == wrap_points(text@, *font, width),
    {
        let mut ret = WrappedText { text, breaks: vec![0] };
        proof {
            assert(ret.breakpoints() =~= seq![0int]);
        }
        ret.rewrap(width, font);
        ret
    }

    /// Recomputes the breakpoints for a budget of `maxwidth` pixels in `font`; with `None`, only
    /// newlines break. The text is left as it is.
    pub fn rewrap(&mut self, maxwidth: Option<u32>, font: &Font)
        ensures
            final(self).text_view() == old(self).text_view(),
            final(self).breakpoints() == wrap_points(old(self).text_view(), *font, maxwidth),
            final(self).wf(),
    {
        let chars: Vec<char> = chars_of(self.text.as_str());
        let ghost cs = chars@;
        let n: usize = chars.len();
        let mut breaks: Vec<usize> = Vec::new();
        let mut scrap: u64 = 0;
        let mut word: u64 = 0;
        let mut last_ws: Option<usize> = None;
        let mut idx: usize = 0;
        while idx < n
            invariant
                cs == chars@,
                cs == self.text@,
                n == cs.len(),
                idx <= n,
                ({
                    let st = wrap_prefix(cs, *font, maxwidth, idx as int);
                    &&& st.scrap == scrap as int
                    &&& st.word == word as int
                    &&& st.last_ws == (match last_ws {
                        Some(b) => Some(b as int),
                        None => None,
                    })
                    &&& st.breaks == breaks@.map_values(|b: usize| b as int)
                }),
                word <= scrap,
                maxwidth is None ==> scrap == 0 && word == 0 && last_ws is None,
                maxwidth is Some ==> scrap <= maxwidth->0 + 255,
                maxwidth is Some && last_ws is Some ==> scrap <= maxwidth->0,
            decreases n - idx,
        {
            let ch: char = chars[idx];
            let ghost before = breaks@;
            if ch == '\n' {
                scrap = 0;
                word = 0;
                last_ws = None;
                breaks.push(idx);
            } else if let Some(max) = maxwidth {
                if is_whitespace(ch) {
                    last_ws = Some(idx);
                    word = 0;
                }
                let g: u64 = char_width_of(font, ch) as u64;
                if scrap + g > max as u64 {
                    let br: usize = match last_ws {
                        Some(b) => b,
                        None => {
                            word = 0;
                            idx
                        },
                    };
                    breaks.push(br);
                    word = word + g;
                    scrap = word;
                    last_ws = None;
                } else {
                    word = word + g;
                    scrap = scrap + g;
                }
            }
            proof {
                assert(breaks@.map_values(|b: usize| b as int) =~= wrap_prefix(
                    cs,
                    *font,
                    maxwidth,
                    idx + 1,
                ).breaks);
            }
            idx += 1;
        }
        breaks.push(n);
        proof {
            lemma_wrap_prefix_ordered(cs, *font, maxwidth, n as int);
            assert(breaks@.map_values(|b: usize| b as int) =~= wrap_points(cs, *font, maxwidth));
        }
        self.breaks = breaks;
    }

    /// Returns the display lines: for each breakpoint, the text from the previous breakpoint
    /// to it, without one leading whitespace character where there is one.
    pub fn lines(&self) -> (r: Vec<String>)
        requires
            self.wf(),
        ensures
            r@.len() == self.breakpoints().len(),
            forall|i: int| 0 <= i < r@.len() ==> (#[trigger] r@[i])@ == self.lines_view()[i],
    {
        let chars: Vec<char> = chars_of(self.text.as_str());
        let mut out: Vec<String> = Vec::new();
        let mut runner: usize = 0;
        let mut i: usize = 0;
        while i < self.breaks.len()
            invariant
                self.wf(),
                chars@ == self.text_view(),
                i <= self.breaks@.len(),
                out@.len() == i,
                runner == if i == 0 { 0 } else { self.breakpoints()[i - 1] },
                forall|k: int| 0 <= k < i ==> (#[trigger] out@[k])@ == self.lines_view()[k],
            decreases self.breaks@.len() - i,
        {
            proof {
                self.lemma_breaks_view();
            }
            let end: usize = self.breaks[i];
            let start: usize = if runner < end && is_whitespace(chars[runner]) {
                runner + 1
            } else {
                runner
            };
            let line: String = string_of(&chars.as_slice()[start..end]);
            proof {
                assert(line@ =~= self.lines_view()[i as int]);
            }
            out.push(line);
            runner = end;
            i += 1;
        }
        out
    }

    /// Returns the number of display lines.
    pub fn lines_count(&self) -> (r: usize)
        ensures
            r == self.breakpoints().len(),
    {
        proof {
            self.lemma_breaks_view();
        }
        self.breaks.len()
    }

    /// Returns the display lines joined by newlines.
    pub fn wrapped(&self) -> (r: String)
        requires
            self.wf(),
        ensures
            r@ == join_lines(self.lines_view()),
    {
        let lines: Vec<String> = self.lines();
        let mut out: Vec<char> = Vec::new();
        let mut i: usize = 0;
        while i < lines.len()
            invariant
                i <= lines@.len(),
                lines@.len() == self.lines_view().len(),
                forall|k: int| 0 <= k < lines@.len() ==> (#[trigger] lines@[k])@ == self.lines_view()[k],
                out@ == join_lines(self.lines_view().subrange(0, i as int)),
            decreases lines@.len() - i,
        {
            if i > 0 {
                out.push('\n');
            }
            let cs: Vec<char> = chars_of(lines[i].as_str());
            let mut j: usize = 0;
            let ghost base = out@;
            while j < cs.len()
                invariant
                    j <= cs@.len(),
                    out@ == base + cs@.subrange(0, j as int),
                decreases cs@.len() - j,
            {
                out.push(cs[j]);
                j += 1;
            }
            proof {
                let ls = self.lines_view().subrange(0, i + 1);
                assert(ls.drop_last() =~= self.lines_view().subrange(0, i as int));
                assert(cs@.subrange(0, cs@.len() as int) =~= cs@);
                if i == 0 {
                    assert(out@ =~= join_lines(ls));
                } else {
                    assert(out@ =~= join_lines(ls));
                }
            }
            i += 1;
        }
        proof {
            assert(self.lines_view().subrange(0, lines@.len() as int) =~= self.lines_view());
        }
        string_of(out.as_slice())
    }

    /// Gives up the [`WrappedText`] and returns its text.
    pub fn unveil(self) -> (r: String)
        ensures
            r@ == self.text_view(),
    {
        self.text
    }

    proof fn lemma_breaks_view(&self)
        ensures
            self.breaks@.len() == self.breakpoints().len(),
            forall|i: int|
                0 <= i < self.breaks@.len() ==> #[trigger] self.breaks@[i] as int
                    == self.breakpoints()[i],
    {
    }
}

impl WrappedText {
    /// Whether the breakpoints divide the text: strictly increasing, ending at its length.
    pub fn is_wf(&self) -> (r: bool)
        ensures
            r == self.wf(),
    {
        proof {
            self.lemma_breaks_view();
        }
        let n: usize = chars_of(self.text.as_str()).len();
        let k: usize = self.breaks.len();
        if k == 0 || self.breaks[k - 1] != n {
            return false;
        }
        let mut i: usize = 1;
        while i < k
            invariant
                k == self.breaks@.len(),
                1 <= i <= k,
                forall|a: int, b: int| 0 <= a < b < i ==> self.breakpoints()[a] < self.breakpoints()[b],
            decreases k - i,
        {
            proof {
                self.lemma_breaks_view();
            }
            if self.breaks[i - 1] >= self.breaks[i] {
                return false;
            }
            i += 1;
        }
        true
    }
}

/// Wrapping depends on the text, the font and the budget alone: wrapping to `w1`, then to `w2`,
/// then to `w1` again leaves the same text and the same breakpoints as wrapping to `w1` once.
pub proof fn lemma_rewrap_round_trip(
    a: WrappedText,
    b: WrappedText,
    c: WrappedText,
    d: WrappedText,
    f: Font,
    w1: Option<u32>,
    w2: Option<u32>,
)
    requires
        b.text_view() == a.text_view(),
        b.breakpoints() == wrap_points(a.text_view(), f, w1),
        c.text_view() == b.text_view(),
        c.breakpoints() == wrap_points(b.text_view(), f, w2),
        d.text_view() == c.text_view(),
        d.breakpoints() == wrap_points(c.text_view(), f, w1),
    ensures
        d.text_view() == b.text_view(),
        d.breakpoints() == b.breakpoints(),
        d.lines_view() == b.lines_view(),
{
}

/// The lines give back the text: the segments between breakpoints, one after another, are the
/// whole text, and each line is its segment, or its segment without the one whitespace
/// character that the break consumed.
pub proof fn lemma_lines_reconstruct(t: WrappedText)
    requires
        t.wf(),
    ensures
        t.lines_view().len() == t.breakpoints().len(),
        concat_segments(t.text_view(), t.breakpoints(), t.breakpoints().len() as int)
            == t.text_view(),
        forall|i: int|
            0 <= i < t.breakpoints().len() ==> {
                let seg = #[trigger] segment(t.text_view(), t.breakpoints(), i);
                seg == t.lines_view()[i] || (white_space(seg[0]) && seg == seq![seg[0]]
                    + t.lines_view()[i])
            },
{
    let cs = t.text_view();
    let br = t.breakpoints();
    lemma_concat_segments(cs, br, br.len() as int);
    assert(cs.subrange(0, br[br.len() - 1]) =~= cs);
    assert forall|i: int| 0 <= i < br.len() implies {
        let seg = #[trigger] segment(cs, br, i);
        seg == t.lines_view()[i] || (white_space(seg[0]) && seg == seq![seg[0]]
            + t.lines_view()[i])
    } by {
        let seg = segment(cs, br, i);
        if seg.len() > 0 && white_space(seg[0]) {
            assert(seg =~= seq![seg[0]] + seg.drop_first());
        }
    }
}

/// The first `k` segments, one after another, are the text up to breakpoint `k - 1`.
proof fn lemma_concat_segments(cs: Seq<char>, breaks: Seq<int>, k: int)
    requires
        valid_breaks(breaks, cs.len() as int),
        1 <= k <= breaks.len(),
    ensures
        concat_segments(cs, breaks, k) == cs.subrange(0, breaks[k - 1]),
    decreases k,
{
    assert(breaks[k - 1] <= breaks.last()) by {
        if k - 1 < breaks.len() - 1 {
            assert(breaks[k - 1] < breaks[breaks.len() - 1]);
        }
    }
    if k == 1 {
        assert(concat_segments(cs, breaks, 0) == Seq::<char>::empty());
        assert(concat_segments(cs, breaks, 1) =~= cs.subrange(0, breaks[0]));
    } else {
        lemma_concat_segments(cs, breaks, k - 1);
        assert(breaks[k - 2] < breaks[k - 1]);
        assert(cs.subrange(0, breaks[k - 2]) + cs.subrange(breaks[k - 2], breaks[k - 1])
            =~= cs.subrange(0, breaks[k - 1]));
    }
}

/// The first `k` display lines of `t`, one after another.
pub open spec fn concat_lines(t: WrappedText, k: int) -> Seq<char>
    decreases k,
{
    if k <= 0 {
        Seq::empty()
    } else {
        concat_lines(t, k - 1) + t.lines_view()[k - 1]
    }
}

/// `s` without its whitespace characters.
pub open spec fn without_space(s: Seq<char>) -> Seq<char> {
    s.filter(|c: char| !white_space(c))
}

/// Wrapping loses nothing but whitespace: the display lines one after another, without their
/// whitespace, are the text without its whitespace.
pub proof fn lemma_lines_keep_all_but_whitespace(t: WrappedText)
    requires
        t.wf(),
    ensures
        without_space(concat_lines(t, t.lines_view().len() as int)) == without_space(t.text_view()),
{
    lemma_lines_reconstruct(t);
    lemma_concat_lines_without_space(t, t.lines_view().len() as int);
}

/// The first `k` lines and the first `k` segments hold the same characters but whitespace.
proof fn lemma_concat_lines_without_space(t: WrappedText, k: int)
    requires
        t.wf(),
        0 <= k <= t.lines_view().len(),
    ensures
        without_space(concat_lines(t, k)) == without_space(
            concat_segments(t.text_view(), t.breakpoints(), k),
        ),
    decreases k,
{
    let pred = |c: char| !white_space(c);
    if k == 0 {
        assert(concat_lines(t, 0) =~= concat_segments(t.text_view(), t.breakpoints(), 0));
    } else {
        lemma_concat_lines_without_space(t, k - 1);
        lemma_lines_reconstruct(t);
        let seg = segment(t.text_view(), t.breakpoints(), k - 1);
        let line = t.lines_view()[k - 1];
        Seq::filter_distributes_over_add(concat_lines(t, k - 1), line, pred);
        Seq::filter_distributes_over_add(
            concat_segments(t.text_view(), t.breakpoints(), k - 1),
            seg,
            pred,
        );
        if seg != line {
            Seq::filter_distributes_over_add(seq![seg[0]], line, pred);
            assert(seq![seg[0]].filter(pred) =~= Seq::<char>::empty()) by {
                reveal_with_fuel(Seq::filter, 2);
            }
        }
    }
}

/// The positions of the newlines among the first `n` characters of `cs`, in order.
pub open spec fn newlines_upto(cs: Seq<char>, n: int) -> Seq<int>
    decreases n,
{
    if n <= 0 {
        Seq::empty()
    } else if cs[n - 1] == '\n' {
        newlines_upto(cs, n - 1).push(n - 1)
    } else {
        newlines_upto(cs, n - 1)
    }
}

/// Where the line holding position `n` of `cs` starts: just after the last newline before `n`.
pub open spec fn line_start(cs: Seq<char>, n: int) -> int
    decreases n,
{
    if n <= 0 {
        0
    } else if cs[n - 1] == '\n' {
        n
    } else {
        line_start(cs, n - 1)
    }
}

/// Text whose lines all fit: wrapping it to `w` breaks at its newlines alone, so every line
/// comes back as it was.
pub proof fn lemma_fitting_lines_break_at_newlines(cs: Seq<char>, f: Font, w: u32)
    requires
        forall|i: int, j: int|
            0 <= i <= j <= cs.len() && (forall|k: int| i <= k < j ==> cs[k] != '\n')
                ==> #[trigger] str_width(f, cs.subrange(i, j)) <= w,
    ensures
        wrap_points(cs, f, Some(w)) == newlines_upto(cs, cs.len() as int).push(cs.len() as int),
{
    lemma_fitting_prefix(cs, f, w, cs.len() as int);
}

/// The scan over the first `n` characters of text whose lines fit: the breaks so far are the
/// newlines, and the run is the width of the current line so far.
proof fn lemma_fitting_prefix(cs: Seq<char>, f: Font, w: u32, n: int)
    requires
        0 <= n <= cs.len(),
        forall|i: int, j: int|
            0 <= i <= j <= cs.len() && (forall|k: int| i <= k < j ==> cs[k] != '\n')
                ==> #[trigger] str_width(f, cs.subrange(i, j)) <= w,
    ensures
        wrap_prefix(cs, f, Some(w), n).breaks == newlines_upto(cs, n),
        wrap_prefix(cs, f, Some(w), n).scrap == str_width(f, cs.subrange(line_start(cs, n), n)),
        0 <= line_start(cs, n) <= n,
        forall|k: int| line_start(cs, n) <= k < n ==> cs[k] != '\n',
    decreases n,
{
    if n > 0 {
        lemma_fitting_prefix(cs, f, w, n - 1);
        let ls = line_start(cs, n - 1);
        if cs[n - 1] == '\n' {
            assert(cs.subrange(n, n) =~= Seq::<char>::empty());
        } else {
            assert(cs.subrange(ls, n).drop_last() =~= cs.subrange(ls, n - 1));
            assert(str_width(f, cs.subrange(ls, n)) <= w);
        }
    } else {
        assert(cs.subrange(0, 0) =~= Seq::<char>::empty());
    }
}

/// The scan keeps its breakpoints strictly increasing and below the number of characters read,
/// and its last whitespace after them.
proof fn lemma_wrap_prefix_ordered(cs: Seq<char>, f: Font, maxwidth: Option<u32>, n: int)
    requires
        0 <= n <= cs.len(),
    ensures
        ({
            let st = wrap_prefix(cs, f, maxwidth, n);
            &&& forall|i: int, j: int| 0 <= i < j < st.breaks.len() ==> st.breaks[i] < st.breaks[j]
            &&& forall|i: int| 0 <= i < st.breaks.len() ==> 0 <= #[trigger] st.breaks[i] < n
            &&& st.last_ws matches Some(w) ==> 0 <= w < n && (st.breaks.len() == 0 || st.breaks.last() < w)
        }),
    decreases n,
{
    if n > 0 {
        lemma_wrap_prefix_ordered(cs, f, maxwidth, n - 1);
        let prev = wrap_prefix(cs, f, maxwidth, n - 1);
        let st = wrap_prefix(cs, f, maxwidth, n);
        if st.breaks.len() > prev.breaks.len() {
            assert(st.breaks == prev.breaks.push(st.breaks.last()));
            let b = st.breaks.last();
            assert(b < n);
            assert(prev.breaks.len() > 0 ==> prev.breaks.last() < b);
            assert forall|i: int| 0 <= i < prev.breaks.len() implies prev.breaks[i] < b by {
                if i < prev.breaks.len() - 1 {
                    assert(prev.breaks[i] < prev.breaks[prev.breaks.len() - 1]);
                }
            }
            assert forall|i: int, j: int| 0 <= i < j < st.breaks.len() implies st.breaks[i]
                < st.breaks[j] by {
                if j == st.breaks.len() - 1 {
                    assert(st.breaks[i] == prev.breaks[i]);
                } else {
                    assert(st.breaks[i] == prev.breaks[i] && st.breaks[j] == prev.breaks[j]);
                }
            }
        } else {
            assert(st.breaks == prev.breaks);
        }
    }
}

} // verus!
