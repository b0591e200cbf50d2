//! Terminal cell widths of text, and the width-based helpers built on them.

use vstd::prelude::*;
use crate::text::{chars_of, push_char};

verus! {

/// Number of terminal cells that ratatui's `Span::width` reports for a span
/// whose content is the single character `c`.
pub uninterp spec fn cell_width(c: char) -> nat;

/// Calls `ratatui::text::Span::width` on a span holding just `c`.
///
/// Trusted: the result is `cell_width(c)`; ratatui measures the span with
/// `unicode_width::UnicodeWidthStr::width`, which for a one-character string
/// gives 1 to every character up to U+00A0, at most 3 to any other, and 1 to
/// the East Asian "Ambiguous" characters the layout draws: the box-drawing
/// border and tree connectors (U+2502, U+2514, U+251C), the ellipsis
/// (U+2026) and the arrow head (U+25B6).
#[verifier::external_body]
pub(crate) fn char_cells(c: char) -> (w: usize)
    ensures
        w == cell_width(c),
        w <= 3,
        c <= '\u{a0}' ==> w == 1,
        c == '\u{2502}' || c == '\u{2514}' || c == '\u{251c}' || c == '\u{2026}' || c
            == '\u{25b6}' ==> w == 1,
{
    ratatui::text::Span::raw(String::from(c)).width()
}

/// The characters the layout draws at a fixed width each take one cell:
/// the space, the border, the ellipsis, the response arrow head and the two
/// tree connectors.
pub open spec fn glyphs_one_cell() -> bool {
    &&& cell_width(' ') == 1
    &&& cell_width('\u{2502}') == 1
    &&& cell_width('\u{2026}') == 1
    &&& cell_width('\u{25b6}') == 1
    &&& cell_width('\u{2514}') == 1
    &&& cell_width('\u{251c}') == 1
}

/// Measures the characters the layout draws at a fixed width.
pub fn measure_layout_glyphs()
    ensures
        glyphs_one_cell(),
{
    let _ = char_cells(' ');
    let _ = char_cells('\u{2502}');
    let _ = char_cells('\u{2026}');
    let _ = char_cells('\u{25b6}');
    let _ = char_cells('\u{2514}');
    let _ = char_cells('\u{251c}');
}

/// Largest number of characters a text handled by this crate may hold: far
/// more than any terminal row, and small enough that sums of a few widths
/// never overflow a `usize`.
pub open spec fn text_limit() -> nat {
    (usize::MAX / 32) as nat
}

/// `s` is short enough for the width arithmetic of this crate.
pub open spec fn fits_limit(s: Seq<char>) -> bool {
    s.len() <= text_limit()
}

/// Display width of a sequence of characters: the sum of the cell widths of
/// its characters.
pub open spec fn text_width(s: Seq<char>) -> nat
    decreases s.len(),
{
    if s.len() == 0 {
        0
    } else {
        text_width(s.drop_last()) + cell_width(s.last())
    }
}

/// The width of a concatenation is the sum of the widths.
pub proof fn lemma_text_width_concat(a: Seq<char>, b: Seq<char>)
    ensures
        text_width(a + b) == text_width(a) + text_width(b),
    decreases b.len(),
{
    if b.len() == 0 {
        assert(a + b =~= a);
    } else {
        lemma_text_width_concat(a, b.drop_last());
        assert((a + b).drop_last() =~= a + b.drop_last());
        assert((a + b).last() == b.last());
    }
}

/// Appending one character adds its cell width.
pub proof fn lemma_text_width_push(a: Seq<char>, c: char)
    ensures
        text_width(a.push(c)) == text_width(a) + cell_width(c),
{
    assert(a.push(c).drop_last() =~= a);
}

/// A longer prefix is never narrower.
pub proof fn lemma_prefix_width_monotone(s: Seq<char>, i: int, j: int)
    requires
        0 <= i <= j <= s.len(),
    ensures
        text_width(s.take(i)) <= text_width(s.take(j)),
    decreases j - i,
{
    if i < j {
        lemma_prefix_width_monotone(s, i, j - 1);
        assert(s.take(j).drop_last() =~= s.take(j - 1));
    }
}

/// Width of the prefix of length `i + 1` from the prefix of length `i`.
pub proof fn lemma_prefix_width_step(s: Seq<char>, i: int)
    requires
        0 <= i < s.len(),
    ensures
        text_width(s.take(i + 1)) == text_width(s.take(i)) + cell_width(s[i]),
{
    assert(s.take(i + 1).drop_last() =~= s.take(i));
}

/// Length of the longest prefix of `s` whose width is at most `budget`.
pub open spec fn fit_len(s: Seq<char>, budget: int) -> nat
    decreases s.len(),
{
    if text_width(s) <= budget {
        s.len()
    } else if s.len() == 0 {
        0
    } else {
        fit_len(s.drop_last(), budget)
    }
}

/// `fit_len` is a prefix length, and that prefix fits in the budget.
pub proof fn lemma_fit_len_fits(s: Seq<char>, budget: int)
    requires
        budget >= 0,
    ensures
        fit_len(s, budget) <= s.len(),
        text_width(s.take(fit_len(s, budget) as int)) <= budget,
        fit_len(s, budget) < s.len() ==> text_width(s.take(fit_len(s, budget) as int + 1)) > budget,
    decreases s.len(),
{
    if text_width(s) <= budget {
        assert(s.take(s.len() as int) =~= s);
    } else if s.len() == 0 {
    } else {
        let t = s.drop_last();
        lemma_fit_len_fits(t, budget);
        let k = fit_len(t, budget);
        assert(t.take(k as int) =~= s.take(k as int));
        if k < t.len() {
            assert(t.take(k as int + 1) =~= s.take(k as int + 1));
        } else {
            assert(s.take(k as int + 1) =~= s);
        }
    }
}

/// A prefix that fits while the next longer one does not is the longest
/// fitting prefix.
pub proof fn lemma_fit_len_at(s: Seq<char>, budget: int, i: int)
    requires
        0 <= i <= s.len(),
        text_width(s.take(i)) <= budget,
        i < s.len() ==> text_width(s.take(i + 1)) > budget,
    ensures
        fit_len(s, budget) == i,
    decreases s.len(),
{
    if i == s.len() {
        assert(s.take(i) =~= s);
    } else {
        lemma_prefix_width_monotone(s, i + 1, s.len() as int);
        assert(s.take(s.len() as int) =~= s);
        let t = s.drop_last();
        assert(t.take(i) =~= s.take(i));
        if i < t.len() {
            assert(t.take(i + 1) =~= s.take(i + 1));
        }
        lemma_fit_len_at(t, budget, i);
    }
}

/// The one-character ellipsis that marks a cut.
pub open spec fn ellipsis() -> char {
    '\u{2026}'
}

/// `s` cut to at most `max` cells: unchanged when it fits, empty when
/// `max` is zero, and otherwise its longest prefix that leaves one cell
/// free, followed by an ellipsis.
pub open spec fn truncated(s: Seq<char>, max: nat) -> Seq<char> {
    if text_width(s) <= max {
        s
    } else if max == 0 {
        Seq::empty()
    } else {
        s.take(fit_len(s, max - 1) as int).push(ellipsis())
    }
}

/// A cut text is never wider than the room it was cut for (the ellipsis
/// being one cell wide), and what it keeps of the text is a prefix.
pub proof fn lemma_truncated_fits(s: Seq<char>, max: nat)
    ensures
        cell_width(ellipsis()) <= 1 ==> text_width(truncated(s, max)) <= max,
        text_width(s) <= max ==> truncated(s, max) == s,
        text_width(s) > max && max > 0 ==> truncated(s, max).drop_last()
            == s.take(truncated(s, max).len() - 1) && truncated(s, max).last() == ellipsis()
            && truncated(s, max).len() <= s.len(),
{
    if text_width(s) > max && max > 0 {
        lemma_fit_len_fits(s, max - 1);
        let k = fit_len(s, max - 1);
        lemma_text_width_push(s.take(k as int), ellipsis());
        assert(truncated(s, max).drop_last() =~= s.take(k as int));
        if k == s.len() {
            assert(s.take(k as int) =~= s);
        }
    }
}

/// `s` cut to fit in `max_width` cells, marking the cut with an ellipsis.
pub fn truncate_to_width(s: &str, max_width: usize) -> (r: String)
    requires
        s@.len() <= usize::MAX / 3,
    ensures
        r@ == truncated(s@, max_width as nat),
        text_width(r@) <= max_width,
        r@.len() <= s@.len() + 1,
{
    let cs = chars_of(s);
    truncate_chars(cs.as_slice(), max_width)
}

/// The characters of `cs` cut to fit in `max_width` cells.
pub fn truncate_chars(cs: &[char], max_width: usize) -> (r: String)
    requires
        cs@.len() <= usize::MAX / 3,
    ensures
        r@ == truncated(cs@, max_width as nat),
        text_width(r@) <= max_width,
        r@.len() <= cs@.len() + 1,
{
    measure_layout_glyphs();
    proof {
        lemma_truncated_fits(cs@, max_width as nat);
    }
    let total = chars_width(cs);
    if total <= max_width {
        assert(cs@.subrange(0, cs@.len() as int) =~= cs@);
        return string_of(cs, 0, cs.len());
    }
    if max_width == 0 {
        return String::new();
    }
    let budget = max_width - 1;
    let n = cs.len();
    let mut w: usize = 0;
    let mut i: usize = 0;
    while i < n
        invariant_except_break
            n == cs@.len(),
            i <= n,
            w == text_width(cs@.take(i as int)),
            w <= budget,
        ensures
            i <= n,
            w == text_width(cs@.take(i as int)),
            w <= budget,
            i < n ==> text_width(cs@.take(i + 1)) > budget,
        decreases n - i,
    {
        let cw = char_cells(cs[i]);
        proof {
            lemma_prefix_width_step(cs@, i as int);
        }
        if cw > budget - w {
            break;
        }
        w = w + cw;
        i = i + 1;
    }
    proof {
        lemma_fit_len_at(cs@, budget as int, i as int);
    }
    let mut out = string_of(cs, 0, i);
    push_char(&mut out, '\u{2026}');
    out
}

/// Length of the longest prefix of `cs[from..]` that fits in `budget`
/// cells, found from `from` on.
pub fn fit_len_from(cs: &[char], from: usize, budget: usize) -> (k: usize)
    requires
        from <= cs@.len(),
    ensures
        k == fit_len(cs@.skip(from as int), budget as int),
        from + k <= cs@.len(),
{
    let n = cs.len();
    let ghost t = cs@.skip(from as int);
    let mut w: usize = 0;
    let mut i: usize = from;
    while i < n
        invariant_except_break
            n == cs@.len(),
            t == cs@.skip(from as int),
            from <= i <= n,
            w == text_width(t.take(i - from)),
            w <= budget,
        ensures
            from <= i <= n,
            w == text_width(t.take(i - from)),
            w <= budget,
            i < n ==> text_width(t.take(i - from + 1)) > budget,
        decreases n - i,
    {
        let cw = char_cells(cs[i]);
        proof {
            lemma_prefix_width_step(t, i - from);
        }
        if cw > budget - w {
            break;
        }
        w = w + cw;
        i = i + 1;
    }
    proof {
        lemma_fit_len_at(t, budget as int, i - from);
    }
    i - from
}

/// The characters `cs[from..to]`, as a string.
pub fn string_of(cs: &[char], from: usize, to: usize) -> (r: String)
    requires
        from <= to <= cs@.len(),
    ensures
        r@ == cs@.subrange(from as int, to as int),
{
    let mut out = String::new();
    let mut i: usize = from;
    while i < to
        invariant
            from <= i <= to,
            to <= cs@.len(),
            out@ == cs@.subrange(from as int, i as int),
        decreases to - i,
    {
        push_char(&mut out, cs[i]);
        assert(out@ =~= cs@.subrange(from as int, i + 1));
        i = i + 1;
    }
    out
}

/// `n` spaces.
pub open spec fn spaces(n: nat) -> Seq<char> {
    Seq::new(n, |i: int| ' ')
}

/// Number of spaces that pad content of width `content_width` to
/// `inner_width` cells (none when the content is already as wide).
pub open spec fn pad_len(content_width: nat, inner_width: nat) -> nat {
    if content_width < inner_width {
        (inner_width - content_width) as nat
    } else {
        0
    }
}

/// The spaces that pad content of width `content_width` out to `inner_width`.
pub fn pad_to(content_width: usize, inner_width: usize) -> (r: String)
    ensures
        r@ == spaces(pad_len(content_width as nat, inner_width as nat)),
{
    let n = inner_width.saturating_sub(content_width);
    let mut out = String::new();
    let mut i: usize = 0;
    while i < n
        invariant
            i <= n,
            n == pad_len(content_width as nat, inner_width as nat),
            out@ == spaces(i as nat),
        decreases n - i,
    {
        push_char(&mut out, ' ');
        assert(out@ =~= spaces((i + 1) as nat));
        i = i + 1;
    }
    out
}

/// Display width of `s`, in terminal cells.
pub fn display_width(s: &str) -> (w: usize)
    requires
        s@.len() <= usize::MAX / 3,
    ensures
        w == text_width(s@),
        w <= 3 * s@.len(),
{
    let cs = chars_of(s);
    chars_width(cs.as_slice())
}

/// Display width of the characters `cs`, in terminal cells.
pub fn chars_width(cs: &[char]) -> (w: usize)
    requires
        cs@.len() <= usize::MAX / 3,
    ensures
        w == text_width(cs@),
        w <= 3 * cs@.len(),
{
    let n = cs.len();
    let mut w: usize = 0;
    let mut i: usize = 0;
    while i < n
        invariant
            n == cs@.len(),
            n <= usize::MAX / 3,
            i <= n,
            w == text_width(cs@.take(i as int)),
            w <= 3 * i,
        decreases n - i,
    {
        let cw = char_cells(cs[i]);
        proof {
            lemma_prefix_width_step(cs@, i as int);
        }
        w = w + cw;
        i = i + 1;
    }
    assert(cs@.take(n as int) =~= cs@);
    w
}

} // verus!
