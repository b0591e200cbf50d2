//! Wrapping text onto a bounded number of lines of a given width.

use vstd::prelude::*;
use crate::text::chars_of;
use crate::width::{
    cell_width, char_cells, chars_width, ellipsis, measure_layout_glyphs, fit_len, fit_len_from, fits_limit,
    lemma_text_width_concat, lemma_truncated_fits, string_of, text_limit, text_width,
    truncate_chars, truncated,
};

verus! {

/// The strings' contents.
pub open spec fn string_views(v: Seq<String>) -> Seq<Seq<char>> {
    v.map_values(|s: String| s@)
}

/// Length of the next piece when cutting by characters: the longest prefix
/// that fits in `w` cells, or one character when not even one fits.
pub open spec fn chunk_len(s: Seq<char>, w: nat) -> nat {
    if fit_len(s, w as int) == 0 {
        1
    } else {
        fit_len(s, w as int)
    }
}

/// `s` cut into at most `n` lines of at most `w` cells each, filling every
/// line as far as it goes; when the text does not fit, the last line is
/// the rest of it, cut with an ellipsis. Nothing for an empty text or a
/// zero width.
pub open spec fn char_wrap(s: Seq<char>, w: nat, n: nat) -> Seq<Seq<char>>
    decreases n,
{
    if n == 0 || w == 0 || s.len() == 0 {
        Seq::empty()
    } else if text_width(s) <= w {
        seq![s]
    } else if n == 1 {
        seq![truncated(s, w)]
    } else {
        seq![s.take(chunk_len(s, w) as int)] + char_wrap(
            s.skip(chunk_len(s, w) as int),
            w,
            (n - 1) as nat,
        )
    }
}

/// The next piece when cutting by characters is a non-empty prefix.
pub proof fn lemma_chunk_len(s: Seq<char>, w: nat)
    requires
        s.len() > 0,
        text_width(s) > w,
    ensures
        1 <= chunk_len(s, w) <= s.len(),
        chunk_len(s, w) > 1 ==> text_width(s.take(chunk_len(s, w) as int)) <= w,
{
    crate::width::lemma_fit_len_fits(s, w as int);
    if fit_len(s, w as int) == s.len() {
        assert(s.take(s.len() as int) =~= s);
    }
}

/// `text` wrapped by characters onto at most `max_lines` lines of
/// `width` cells.
pub fn wrap_text_char(text: &str, width: usize, max_lines: usize) -> (lines: Vec<String>)
    requires
        text@.len() <= usize::MAX / 3,
    ensures
        string_views(lines@) == char_wrap(text@, width as nat, max_lines as nat),
        lines@.len() <= max_lines,
        forall|i: int|
            0 <= i < lines@.len() ==> text_width(#[trigger] lines@[i]@) <= width || lines@[i]@.len()
                == 1,
{
    measure_layout_glyphs();
    proof {
        lemma_char_wrap_lines(text@, width as nat, max_lines as nat);
        lemma_char_wrap_widths(text@, width as nat, max_lines as nat);
    }
    let lines = wrap_chars(text, width, max_lines);
    assert forall|i: int| 0 <= i < lines@.len() implies text_width(#[trigger] lines@[i]@) <= width
        || lines@[i]@.len() == 1 by {
        assert(lines@[i]@ == string_views(lines@)[i]);
    }
    lines
}

fn wrap_chars(text: &str, width: usize, max_lines: usize) -> (lines: Vec<String>)
    requires
        text@.len() <= usize::MAX / 3,
    ensures
        string_views(lines@) == char_wrap(text@, width as nat, max_lines as nat),
{
    let cs = chars_of(text);
    let cs = cs.as_slice();
    let n = cs.len();
    let mut lines: Vec<String> = Vec::new();
    if width == 0 || max_lines == 0 || n == 0 {
        return lines;
    }
    let mut pos: usize = 0;
    let mut left: usize = max_lines;
    assert(cs@.skip(0) =~= cs@);
    assert(string_views(lines@) + char_wrap(cs@, width as nat, max_lines as nat) =~= char_wrap(
        cs@,
        width as nat,
        max_lines as nat,
    ));
    while pos < n && left > 0
        invariant_except_break
            n == cs@.len(),
            n <= usize::MAX / 3,
            width > 0,
            pos <= n,
            char_wrap(cs@, width as nat, max_lines as nat) == string_views(lines@) + char_wrap(
                cs@.skip(pos as int),
                width as nat,
                left as nat,
            ),
        ensures
            char_wrap(cs@, width as nat, max_lines as nat) == string_views(lines@),
        decreases left,
    {
        let ghost rest = cs@.skip(pos as int);
        let tail = &cs[pos..n];
        assert(tail@ =~= rest);
        let tw = chars_width(tail);
        if tw <= width {
            let line = string_of(cs, pos, n);
            assert(line@ =~= rest);
            let ghost before = lines@;
            lines.push(line);
            assert(string_views(lines@) =~= string_views(before).push(rest));
            break;
        }
        if left == 1 {
            let line = truncate_chars(tail, width);
            let ghost before = lines@;
            lines.push(line);
            assert(string_views(lines@) =~= string_views(before).push(truncated(rest, width as nat)));
            break;
        }
        let fit = fit_len_from(cs, pos, width);
        let k = if fit == 0 {
            1
        } else {
            fit
        };
        proof {
            lemma_chunk_len(rest, width as nat);
        }
        let line = string_of(cs, pos, pos + k);
        assert(line@ =~= rest.take(k as int));
        let ghost before = lines@;
        lines.push(line);
        assert(string_views(lines@) =~= string_views(before).push(rest.take(k as int)));
        assert(rest.skip(k as int) =~= cs@.skip(pos + k));
        assert(string_views(before) + char_wrap(rest, width as nat, left as nat) =~= string_views(lines@)
            + char_wrap(cs@.skip(pos + k), width as nat, (left - 1) as nat));
        pos = pos + k;
        left = left - 1;
    }
    lines
}

/// Characters that separate words.
pub open spec fn is_space(c: char) -> bool {
    c == ' ' || c == '\t' || c == '\n' || c == '\r'
}

/// The words of `s`: its maximal runs of non-space characters, in order.
pub open spec fn words_of(s: Seq<char>) -> Seq<Seq<char>>
    decreases s.len(),
{
    if s.len() == 0 {
        Seq::empty()
    } else {
        let d = s.drop_last();
        let c = s.last();
        let ws = words_of(d);
        if is_space(c) {
            ws
        } else if d.len() > 0 && !is_space(d.last()) && ws.len() > 0 {
            ws.drop_last().push(ws.last().push(c))
        } else {
            ws.push(seq![c])
        }
    }
}

/// Words joined by single spaces.
pub open spec fn join_words(ws: Seq<Seq<char>>) -> Seq<char>
    decreases ws.len(),
{
    if ws.len() == 0 {
        Seq::empty()
    } else if ws.len() == 1 {
        ws[0]
    } else {
        join_words(ws.drop_last()) + seq![' '] + ws.last()
    }
}

/// Number of leading words of `ws` that fit on one line of `w` cells.
pub open spec fn words_fit(ws: Seq<Seq<char>>, w: nat) -> nat
    decreases ws.len(),
{
    if text_width(join_words(ws)) <= w {
        ws.len()
    } else if ws.len() == 0 {
        0
    } else {
        words_fit(ws.drop_last(), w)
    }
}

/// The words left after cutting the first `k` characters off the first word.
pub open spec fn rest_after_cut(ws: Seq<Seq<char>>, k: nat) -> Seq<Seq<char>> {
    if ws[0].len() <= k {
        ws.drop_first()
    } else {
        seq![ws[0].skip(k as int)] + ws.drop_first()
    }
}

/// `ws` laid out on at most `n` lines of at most `w` cells: each line takes
/// as many words as fit, joined by single spaces; a word too wide for a
/// line on its own is cut by characters; when the words do not fit, the
/// last line holds the rest, cut with an ellipsis.
pub open spec fn word_wrap(ws: Seq<Seq<char>>, w: nat, n: nat) -> Seq<Seq<char>>
    decreases n,
{
    if n == 0 || w == 0 || ws.len() == 0 {
        Seq::empty()
    } else if text_width(join_words(ws)) <= w {
        seq![join_words(ws)]
    } else if n == 1 {
        seq![truncated(join_words(ws), w)]
    } else if words_fit(ws, w) == 0 {
        seq![ws[0].take(chunk_len(ws[0], w) as int)] + word_wrap(
            rest_after_cut(ws, chunk_len(ws[0], w)),
            w,
            (n - 1) as nat,
        )
    } else {
        seq![join_words(ws.take(words_fit(ws, w) as int))] + word_wrap(
            ws.skip(words_fit(ws, w) as int),
            w,
            (n - 1) as nat,
        )
    }
}

/// Joining two runs of words puts one space between them.
pub proof fn lemma_join_concat(a: Seq<Seq<char>>, b: Seq<Seq<char>>)
    ensures
        join_words(a + b) == (if a.len() == 0 {
            join_words(b)
        } else if b.len() == 0 {
            join_words(a)
        } else {
            join_words(a) + seq![' '] + join_words(b)
        }),
    decreases b.len(),
{
    if b.len() == 0 {
        assert(a + b =~= a);
    } else if a.len() == 0 {
        assert(a + b =~= b);
    } else if b.len() == 1 {
        assert((a + b).drop_last() =~= a);
    } else {
        lemma_join_concat(a, b.drop_last());
        assert((a + b).drop_last() =~= a + b.drop_last());
    }
}

/// Dropping leading words never lengthens the joined text.
pub proof fn lemma_join_skip_len(ws: Seq<Seq<char>>, j: int)
    requires
        0 <= j <= ws.len(),
    ensures
        join_words(ws.skip(j)).len() <= join_words(ws).len(),
{
    lemma_join_concat(ws.take(j), ws.skip(j));
    assert(ws.take(j) + ws.skip(j) =~= ws);
}

/// Cutting the front of the first word shortens the joined text.
pub proof fn lemma_join_cut_len(ws: Seq<Seq<char>>, k: nat)
    requires
        ws.len() > 0,
        1 <= k,
    ensures
        join_words(rest_after_cut(ws, k)).len() < join_words(ws).len() + (if ws[0].len() == 0 {
            1int
        } else {
            0int
        }),
{
    let tail = ws.drop_first();
    lemma_join_concat(seq![ws[0]], tail);
    assert(seq![ws[0]] + tail =~= ws);
    if ws[0].len() > k {
        lemma_join_concat(seq![ws[0].skip(k as int)], tail);
    }
}

/// Words never hold more characters, spaces included, than their text.
pub proof fn lemma_words_len(s: Seq<char>)
    ensures
        join_words(words_of(s)).len() <= s.len(),
        s.len() > 0 && is_space(s.last()) && words_of(s).len() > 0 ==> join_words(words_of(s)).len()
            < s.len(),
        forall|i: int| 0 <= i < words_of(s).len() ==> (#[trigger] words_of(s)[i]).len() > 0,
    decreases s.len(),
{
    if s.len() > 0 {
        let d = s.drop_last();
        let c = s.last();
        let ws = words_of(d);
        lemma_words_len(d);
        if is_space(c) {
        } else if d.len() > 0 && !is_space(d.last()) && ws.len() > 0 {
            let last = ws.last().push(c);
            lemma_join_concat(ws.drop_last(), seq![ws.last()]);
            lemma_join_concat(ws.drop_last(), seq![last]);
            assert(ws.drop_last() + seq![ws.last()] =~= ws);
            assert(ws.drop_last() + seq![last] =~= ws.drop_last().push(last));
        } else {
            lemma_join_concat(ws, seq![seq![c]]);
            assert(ws + seq![seq![c]] =~= ws.push(seq![c]));
        }
    }
}

/// The contents of vectors of characters.
pub open spec fn char_vec_views(v: Seq<Vec<char>>) -> Seq<Seq<char>> {
    v.map_values(|w: Vec<char>| w@)
}

/// The words of `cs`.
pub fn split_words(cs: &[char]) -> (ws: Vec<Vec<char>>)
    ensures
        char_vec_views(ws@) == words_of(cs@),
{
    let n = cs.len();
    let mut words: Vec<Vec<char>> = Vec::new();
    let mut cur: Vec<char> = Vec::new();
    let mut i: usize = 0;
    while i < n
        invariant
            n == cs@.len(),
            i <= n,
            cur@.len() > 0 <==> (i > 0 && !is_space(cs@[i - 1])),
            words_of(cs@.take(i as int)) == (if cur@.len() > 0 {
                char_vec_views(words@).push(cur@)
            } else {
                char_vec_views(words@)
            }),
        decreases n - i,
    {
        let c = cs[i];
        let ghost before = cs@.take(i as int);
        assert(cs@.take(i + 1).drop_last() =~= before);
        assert(cs@.take(i + 1).last() == c);
        if c == ' ' || c == '\t' || c == '\n' || c == '\r' {
            if cur.len() > 0 {
                let ghost ws0 = words@;
                words.push(cur);
                assert(char_vec_views(words@) =~= char_vec_views(ws0).push(cur@));
                cur = Vec::new();
            }
        } else {
            let ghost old_cur = cur@;
            let in_word = cur.len() > 0;
            cur.push(c);
            if in_word {
                assert(before.last() == cs@[i - 1]);
                assert(char_vec_views(words@).push(old_cur).drop_last().push(old_cur.push(c))
                    =~= char_vec_views(words@).push(cur@));
            } else {
                assert(cur@ =~= seq![c]);
            }
        }
        i = i + 1;
    }
    assert(cs@.take(n as int) =~= cs@);
    if cur.len() > 0 {
        let ghost ws0 = words@;
        words.push(cur);
        assert(char_vec_views(words@) =~= char_vec_views(ws0).push(cur@));
    }
    words
}

/// The words of `ws` joined by single spaces.
pub fn join_all(ws: &Vec<Vec<char>>) -> (r: Vec<char>)
    ensures
        r@ == join_words(char_vec_views(ws@)),
{
    let n = ws.len();
    let ghost vs = char_vec_views(ws@);
    let mut out: Vec<char> = Vec::new();
    let mut i: usize = 0;
    while i < n
        invariant
            n == ws@.len(),
            vs == char_vec_views(ws@),
            i <= n,
            out@ == join_words(vs.take(i as int)),
        decreases n - i,
    {
        let ghost prev = out@;
        if i > 0 {
            out.push(' ');
        }
        let word = &ws[i];
        let m = word.len();
        let ghost base = out@;
        let mut j: usize = 0;
        while j < m
            invariant
                m == word@.len(),
                j <= m,
                out@ == base + word@.take(j as int),
            decreases m - j,
        {
            out.push(word[j]);
            assert(out@ =~= base + word@.take(j + 1));
            j = j + 1;
        }
        assert(word@.take(m as int) =~= word@);
        assert(vs.take(i + 1).drop_last() =~= vs.take(i as int));
        if i == 0 {
            assert(out@ =~= join_words(vs.take(1)));
        } else {
            assert(out@ =~= join_words(vs.take(i + 1)));
        }
        i = i + 1;
    }
    assert(vs.take(n as int) =~= vs);
    out
}

/// Width of the first `j + 1` words, joined, from that of the first `j`.
pub proof fn lemma_join_take_step(ws: Seq<Seq<char>>, j: int)
    requires
        0 <= j < ws.len(),
    ensures
        text_width(join_words(ws.take(j + 1))) == text_width(join_words(ws.take(j))) + (if j == 0 {
            text_width(ws[0])
        } else {
            cell_width(' ') + text_width(ws[j])
        }),
{
    let t = ws.take(j + 1);
    assert(t.drop_last() =~= ws.take(j));
    assert(t.last() == ws[j]);
    if j == 0 {
        assert(t.len() == 1);
        assert(t[0] == ws[0]);
        assert(join_words(ws.take(0)) =~= Seq::<char>::empty());
    } else {
        lemma_text_width_concat(join_words(ws.take(j)), seq![' ']);
        lemma_text_width_concat(join_words(ws.take(j)) + seq![' '], ws[j]);
        assert(seq![' '].drop_last() =~= Seq::<char>::empty());
        assert(text_width(Seq::<char>::empty()) == 0);
        assert(text_width(seq![' ']) == cell_width(' '));
    }
}

/// More leading words, joined, are never narrower.
pub proof fn lemma_join_take_monotone(ws: Seq<Seq<char>>, a: int, b: int)
    requires
        0 <= a <= b <= ws.len(),
    ensures
        text_width(join_words(ws.take(a))) <= text_width(join_words(ws.take(b))),
    decreases b - a,
{
    if a < b {
        lemma_join_take_monotone(ws, a, b - 1);
        lemma_join_take_step(ws, b - 1);
    }
}

/// A number of leading words that fits while one more does not is the
/// number of words that fit.
pub proof fn lemma_words_fit_at(ws: Seq<Seq<char>>, w: nat, j: int)
    requires
        0 <= j <= ws.len(),
        text_width(join_words(ws.take(j))) <= w,
        j < ws.len() ==> text_width(join_words(ws.take(j + 1))) > w,
    ensures
        words_fit(ws, w) == j,
    decreases ws.len(),
{
    if j == ws.len() {
        assert(ws.take(j) =~= ws);
    } else {
        lemma_join_take_monotone(ws, j + 1, ws.len() as int);
        assert(ws.take(ws.len() as int) =~= ws);
        let t = ws.drop_last();
        assert(t.take(j) =~= ws.take(j));
        if j < t.len() {
            assert(t.take(j + 1) =~= ws.take(j + 1));
        }
        lemma_words_fit_at(t, w, j);
    }
}

/// Every word is within the joined text.
pub proof fn lemma_word_len(ws: Seq<Seq<char>>, j: int)
    requires
        0 <= j < ws.len(),
    ensures
        ws[j].len() <= join_words(ws).len(),
{
    lemma_join_concat(ws.take(j), ws.skip(j));
    assert(ws.take(j) + ws.skip(j) =~= ws);
    lemma_join_concat(seq![ws[j]], ws.skip(j + 1));
    assert(seq![ws[j]] + ws.skip(j + 1) =~= ws.skip(j));
}

/// `text` wrapped by words onto at most `max_lines` lines of `width` cells.
pub fn wrap_text(text: &str, width: usize, max_lines: usize) -> (lines: Vec<String>)
    requires
        fits_limit(text@),
    ensures
        string_views(lines@) == word_wrap(words_of(text@), width as nat, max_lines as nat),
        lines@.len() <= max_lines,
        forall|i: int|
            0 <= i < lines@.len() ==> text_width(#[trigger] lines@[i]@) <= width || lines@[i]@.len()
                == 1,
{
    measure_layout_glyphs();
    proof {
        lemma_word_wrap_lines(words_of(text@), width as nat, max_lines as nat);
        lemma_word_wrap_widths(words_of(text@), width as nat, max_lines as nat);
    }
    let lines = wrap_words(text, width, max_lines);
    assert forall|i: int| 0 <= i < lines@.len() implies text_width(#[trigger] lines@[i]@) <= width
        || lines@[i]@.len() == 1 by {
        assert(lines@[i]@ == string_views(lines@)[i]);
    }
    lines
}

fn wrap_words(text: &str, width: usize, max_lines: usize) -> (lines: Vec<String>)
    requires
        fits_limit(text@),
    ensures
        string_views(lines@) == word_wrap(words_of(text@), width as nat, max_lines as nat),
{
    let cs = chars_of(text);
    let mut rest = split_words(cs.as_slice());
    proof {
        lemma_words_len(text@);
    }
    let ghost all = words_of(text@);
    let mut lines: Vec<String> = Vec::new();
    if width == 0 || max_lines == 0 || rest.len() == 0 {
        return lines;
    }
    let space_w = char_cells(' ');
    let mut left: usize = max_lines;
    assert(string_views(lines@) + word_wrap(all, width as nat, max_lines as nat) =~= word_wrap(
        all,
        width as nat,
        max_lines as nat,
    ));
    while left > 0 && rest.len() > 0
        invariant_except_break
            width > 0,
            space_w == cell_width(' '),
            space_w <= 3,
            join_words(char_vec_views(rest@)).len() <= text_limit(),
            word_wrap(all, width as nat, max_lines as nat) == string_views(lines@) + word_wrap(
                char_vec_views(rest@),
                width as nat,
                left as nat,
            ),
        ensures
            word_wrap(all, width as nat, max_lines as nat) == string_views(lines@),
        decreases left,
    {
        let ghost ws = char_vec_views(rest@);
        let ghost before = lines@;
        let joined = join_all(&rest);
        let tw = chars_width(joined.as_slice());
        if tw <= width {
            let line = string_of(joined.as_slice(), 0, joined.len());
            assert(line@ =~= join_words(ws));
            lines.push(line);
            assert(string_views(lines@) =~= string_views(before).push(join_words(ws)));
            break;
        }
        if left == 1 {
            let line = truncate_chars(joined.as_slice(), width);
            lines.push(line);
            assert(string_views(lines@) =~= string_views(before).push(
                truncated(join_words(ws), width as nat),
            ));
            break;
        }
        let n = rest.len();
        let mut acc: usize = 0;
        let mut j: usize = 0;
        assert(ws.take(0) =~= Seq::<Seq<char>>::empty());
        while j < n
            invariant_except_break
                n == rest@.len(),
                ws == char_vec_views(rest@),
                join_words(ws).len() <= text_limit(),
                space_w == cell_width(' '),
                space_w <= 3,
                j <= n,
                acc == text_width(join_words(ws.take(j as int))),
                acc <= width,
            ensures
                j <= n,
                acc == text_width(join_words(ws.take(j as int))),
                acc <= width,
                j < n ==> text_width(join_words(ws.take(j + 1))) > width,
            decreases n - j,
        {
            proof {
                lemma_word_len(ws, j as int);
                lemma_join_take_step(ws, j as int);
            }
            let wj = chars_width(rest[j].as_slice());
            let add = if j == 0 {
                wj
            } else {
                space_w + wj
            };
            if add > width - acc {
                break;
            }
            acc = acc + add;
            j = j + 1;
        }
        proof {
            lemma_words_fit_at(ws, width as nat, j as int);
        }
        if j == 0 {
            let first = rest.remove(0);
            assert(first@ == ws[0]);
            assert(first@.skip(0) =~= first@);
            proof {
                lemma_word_len(ws, 0);
                lemma_chunk_len(ws[0], width as nat);
                lemma_join_cut_len(ws, chunk_len(ws[0], width as nat));
            }
            let fit = fit_len_from(first.as_slice(), 0, width);
            let k = if fit == 0 {
                1
            } else {
                fit
            };
            let piece = string_of(first.as_slice(), 0, k);
            assert(piece@ =~= ws[0].take(k as int));
            lines.push(piece);
            assert(string_views(lines@) =~= string_views(before).push(ws[0].take(k as int)));
            if k < first.len() {
                let mut first = first;
                let rem = first.split_off(k);
                assert(rem@ =~= ws[0].skip(k as int));
                let ghost tail = rest@;
                rest.insert(0, rem);
                assert(char_vec_views(rest@) =~= seq![ws[0].skip(k as int)] + char_vec_views(tail));
                assert(char_vec_views(tail) =~= ws.drop_first());
            } else {
                assert(char_vec_views(rest@) =~= ws.drop_first());
            }
            assert(char_vec_views(rest@) == rest_after_cut(ws, k as nat));
        } else {
            let tail = rest.split_off(j);
            let line_chars = join_all(&rest);
            assert(char_vec_views(rest@) =~= ws.take(j as int));
            let line = string_of(line_chars.as_slice(), 0, line_chars.len());
            assert(line@ =~= join_words(ws.take(j as int)));
            lines.push(line);
            assert(string_views(lines@) =~= string_views(before).push(join_words(ws.take(j as int))));
            rest = tail;
            assert(char_vec_views(rest@) =~= ws.skip(j as int));
            proof {
                lemma_join_skip_len(ws, j as int);
            }
        }
        assert(string_views(before) + word_wrap(ws, width as nat, left as nat) =~= string_views(lines@)
            + word_wrap(char_vec_views(rest@), width as nat, (left - 1) as nat));
        left = left - 1;
    }
    lines
}

/// Wrapping by characters gives at most `n` lines, none longer than the
/// text plus an ellipsis.
pub proof fn lemma_char_wrap_lines(s: Seq<char>, w: nat, n: nat)
    ensures
        char_wrap(s, w, n).len() <= n,
        forall|i: int|
            0 <= i < char_wrap(s, w, n).len() ==> (#[trigger] char_wrap(s, w, n)[i]).len() <= s.len()
                + 1,
    decreases n,
{
    if n == 0 || w == 0 || s.len() == 0 {
    } else if text_width(s) <= w {
    } else if n == 1 {
        crate::width::lemma_truncated_fits(s, w);
    } else {
        let k = chunk_len(s, w);
        lemma_chunk_len(s, w);
        lemma_char_wrap_lines(s.skip(k as int), w, (n - 1) as nat);
        let rest = char_wrap(s.skip(k as int), w, (n - 1) as nat);
        assert forall|i: int| 0 <= i < char_wrap(s, w, n).len() implies (#[trigger] char_wrap(
            s,
            w,
            n,
        )[i]).len() <= s.len() + 1 by {
            if i > 0 {
                assert(char_wrap(s, w, n)[i] == rest[i - 1]);
            }
        }
    }
}

/// Wrapping words gives at most `n` lines, none longer than the joined
/// words plus an ellipsis.
pub proof fn lemma_word_wrap_lines(ws: Seq<Seq<char>>, w: nat, n: nat)
    ensures
        word_wrap(ws, w, n).len() <= n,
        forall|i: int|
            0 <= i < word_wrap(ws, w, n).len() ==> (#[trigger] word_wrap(ws, w, n)[i]).len()
                <= join_words(ws).len() + 1,
    decreases n,
{
    if n == 0 || w == 0 || ws.len() == 0 {
    } else if text_width(join_words(ws)) <= w {
    } else if n == 1 {
        crate::width::lemma_truncated_fits(join_words(ws), w);
    } else {
        let j = words_fit(ws, w);
        let lines = word_wrap(ws, w, n);
        if j == 0 {
            let k = chunk_len(ws[0], w);
            lemma_words_fit_zero(ws, w);
            lemma_chunk_len(ws[0], w);
            lemma_word_len(ws, 0);
            lemma_join_cut_len(ws, k);
            lemma_word_wrap_lines(rest_after_cut(ws, k), w, (n - 1) as nat);
            let rest = word_wrap(rest_after_cut(ws, k), w, (n - 1) as nat);
            assert forall|i: int| 0 <= i < lines.len() implies (#[trigger] lines[i]).len()
                <= join_words(ws).len() + 1 by {
                if i > 0 {
                    assert(lines[i] == rest[i - 1]);
                }
            }
        } else {
            lemma_words_fit_le(ws, w);
            lemma_join_skip_len(ws, j as int);
            lemma_join_concat(ws.take(j as int), ws.skip(j as int));
            assert(ws.take(j as int) + ws.skip(j as int) =~= ws);
            lemma_word_wrap_lines(ws.skip(j as int), w, (n - 1) as nat);
            let rest = word_wrap(ws.skip(j as int), w, (n - 1) as nat);
            assert forall|i: int| 0 <= i < lines.len() implies (#[trigger] lines[i]).len()
                <= join_words(ws).len() + 1 by {
                if i > 0 {
                    assert(lines[i] == rest[i - 1]);
                }
            }
        }
    }
}

/// The number of words that fit is at most the number of words.
pub proof fn lemma_words_fit_le(ws: Seq<Seq<char>>, w: nat)
    ensures
        words_fit(ws, w) <= ws.len(),
    decreases ws.len(),
{
    if text_width(join_words(ws)) > w && ws.len() > 0 {
        lemma_words_fit_le(ws.drop_last(), w);
    }
}

/// When no word fits, the first word alone is too wide.
pub proof fn lemma_words_fit_zero(ws: Seq<Seq<char>>, w: nat)
    requires
        ws.len() > 0,
        words_fit(ws, w) == 0,
    ensures
        text_width(ws[0]) > w,
        ws[0].len() > 0,
    decreases ws.len(),
{
    if ws.len() == 1 {
        assert(join_words(ws) == ws[0]);
    } else {
        let t = ws.drop_last();
        lemma_words_fit_zero(t, w);
    }
}

/// Wrapping by characters keeps the text: every line but the last is the
/// next piece of the text, and the last line is the rest of it, whole or
/// cut with an ellipsis.
pub proof fn lemma_char_wrap_pieces(s: Seq<char>, w: nat, n: nat)
    requires
        w > 0,
        n > 0,
        s.len() > 0,
    ensures
        char_wrap(s, w, n).len() >= 1,
        s.take(char_wrap(s, w, n).drop_last().flatten().len() as int) == char_wrap(
            s,
            w,
            n,
        ).drop_last().flatten(),
        char_wrap(s, w, n).drop_last().flatten().len() <= s.len(),
        char_wrap(s, w, n).last() == s.skip(char_wrap(s, w, n).drop_last().flatten().len() as int)
            || char_wrap(s, w, n).last() == truncated(
            s.skip(char_wrap(s, w, n).drop_last().flatten().len() as int),
            w,
        ),
    decreases n,
{
    let lines = char_wrap(s, w, n);
    if text_width(s) <= w || n == 1 {
        assert(lines.drop_last() =~= Seq::<Seq<char>>::empty());
        assert(s.skip(0) =~= s);
        assert(s.take(0) =~= Seq::<char>::empty());
    } else {
        let k = chunk_len(s, w);
        lemma_chunk_len(s, w);
        let t = s.skip(k as int);
        if t.len() == 0 {
            assert(char_wrap(t, w, (n - 1) as nat) =~= Seq::<Seq<char>>::empty());
            assert(lines =~= seq![s.take(k as int)]);
            assert(s.take(k as int) =~= s);
            assert(lines.drop_last() =~= Seq::<Seq<char>>::empty());
            assert(s.skip(0) =~= s);
            assert(s.take(0) =~= Seq::<char>::empty());
        } else {
            let r = char_wrap(t, w, (n - 1) as nat);
            lemma_char_wrap_pieces(t, w, (n - 1) as nat);
            let pr = r.drop_last().flatten();
            assert(lines.drop_last() =~= seq![s.take(k as int)] + r.drop_last());
            vstd::seq_lib::lemma_flatten_concat(seq![s.take(k as int)], r.drop_last());
            seq![s.take(k as int)].lemma_flatten_one_element();
            let p = lines.drop_last().flatten();
            assert(p =~= s.take(k as int) + pr);
            assert(t.take(pr.len() as int) == pr);
            assert(s.take(p.len() as int) =~= s.take(k as int) + t.take(pr.len() as int));
            assert(s.skip(p.len() as int) =~= t.skip(pr.len() as int));
            assert(lines.last() == r.last());
        }
    }
}

/// Wrapping by characters never gives a line wider than the width, but for
/// a single character wider than the width (the ellipsis being one cell
/// wide).
pub proof fn lemma_char_wrap_widths(s: Seq<char>, w: nat, n: nat)
    ensures
        cell_width(ellipsis()) <= 1 ==> forall|i: int|
            0 <= i < char_wrap(s, w, n).len() ==> text_width(#[trigger] char_wrap(s, w, n)[i]) <= w
                || char_wrap(s, w, n)[i].len() == 1,
    decreases n,
{
    if n == 0 || w == 0 || s.len() == 0 {
    } else if text_width(s) <= w {
    } else if n == 1 {
        lemma_truncated_fits(s, w);
    } else {
        let k = chunk_len(s, w);
        lemma_chunk_len(s, w);
        let lines = char_wrap(s, w, n);
        let r = char_wrap(s.skip(k as int), w, (n - 1) as nat);
        lemma_char_wrap_widths(s.skip(k as int), w, (n - 1) as nat);
        if cell_width(ellipsis()) <= 1 {
            assert forall|i: int| 0 <= i < lines.len() implies text_width(#[trigger] lines[i]) <= w
                || lines[i].len() == 1 by {
                if i > 0 {
                    assert(lines[i] == r[i - 1]);
                }
            }
        }
    }
}

/// Wrapping words never gives a line wider than the width, but for a
/// single character wider than the width (the ellipsis being one cell
/// wide).
pub proof fn lemma_word_wrap_widths(ws: Seq<Seq<char>>, w: nat, n: nat)
    ensures
        cell_width(ellipsis()) <= 1 ==> forall|i: int|
            0 <= i < word_wrap(ws, w, n).len() ==> text_width(#[trigger] word_wrap(ws, w, n)[i]) <= w
                || word_wrap(ws, w, n)[i].len() == 1,
    decreases n,
{
    if n == 0 || w == 0 || ws.len() == 0 {
    } else if text_width(join_words(ws)) <= w {
    } else if n == 1 {
        lemma_truncated_fits(join_words(ws), w);
    } else {
        let j = words_fit(ws, w);
        let lines = word_wrap(ws, w, n);
        if j == 0 {
            let k = chunk_len(ws[0], w);
            lemma_words_fit_zero(ws, w);
            lemma_chunk_len(ws[0], w);
            lemma_word_wrap_widths(rest_after_cut(ws, k), w, (n - 1) as nat);
            let r = word_wrap(rest_after_cut(ws, k), w, (n - 1) as nat);
            if cell_width(ellipsis()) <= 1 {
                assert forall|i: int| 0 <= i < lines.len() implies text_width(#[trigger] lines[i])
                    <= w || lines[i].len() == 1 by {
                    if i > 0 {
                        assert(lines[i] == r[i - 1]);
                    }
                }
            }
        } else {
            lemma_words_fit_le(ws, w);
            lemma_words_fit_fits(ws, w);
            lemma_word_wrap_widths(ws.skip(j as int), w, (n - 1) as nat);
            let r = word_wrap(ws.skip(j as int), w, (n - 1) as nat);
            if cell_width(ellipsis()) <= 1 {
                assert forall|i: int| 0 <= i < lines.len() implies text_width(#[trigger] lines[i])
                    <= w || lines[i].len() == 1 by {
                    if i > 0 {
                        assert(lines[i] == r[i - 1]);
                    }
                }
            }
        }
    }
}

/// The words that fit do fit.
pub proof fn lemma_words_fit_fits(ws: Seq<Seq<char>>, w: nat)
    ensures
        text_width(join_words(ws.take(words_fit(ws, w) as int))) <= w,
    decreases ws.len(),
{
    if text_width(join_words(ws)) <= w {
        assert(ws.take(ws.len() as int) =~= ws);
    } else if ws.len() == 0 {
    } else {
        lemma_words_fit_fits(ws.drop_last(), w);
        lemma_words_fit_le(ws.drop_last(), w);
        assert(ws.drop_last().take(words_fit(ws.drop_last(), w) as int) =~= ws.take(
            words_fit(ws, w) as int,
        ));
    }
}

/// Wrapping by characters loses nothing when it needs fewer lines than
/// allowed: the lines, put back together, are the text.
pub proof fn lemma_char_wrap_complete(s: Seq<char>, w: nat, n: nat)
    requires
        w > 0,
    ensures
        char_wrap(s, w, n).len() < n ==> char_wrap(s, w, n).flatten() == s,
    decreases n,
{
    let lines = char_wrap(s, w, n);
    if n == 0 {
    } else if s.len() == 0 {
        assert(s =~= Seq::<char>::empty());
    } else if text_width(s) <= w {
        seq![s].lemma_flatten_one_element();
    } else if n == 1 {
    } else {
        let k = chunk_len(s, w);
        lemma_chunk_len(s, w);
        let r = char_wrap(s.skip(k as int), w, (n - 1) as nat);
        lemma_char_wrap_complete(s.skip(k as int), w, (n - 1) as nat);
        vstd::seq_lib::lemma_flatten_concat(seq![s.take(k as int)], r);
        seq![s.take(k as int)].lemma_flatten_one_element();
        assert(s.take(k as int) + s.skip(k as int) =~= s);
    }
}

/// No character of `s` separates words.
pub open spec fn spaceless(s: Seq<char>) -> bool {
    forall|i: int| 0 <= i < s.len() ==> !is_space(#[trigger] s[i])
}

/// The characters of `s` that do not separate words, in order.
pub open spec fn drop_spaces(s: Seq<char>) -> Seq<char>
    decreases s.len(),
{
    if s.len() == 0 {
        Seq::empty()
    } else if is_space(s.last()) {
        drop_spaces(s.drop_last())
    } else {
        drop_spaces(s.drop_last()).push(s.last())
    }
}

/// The pieces' characters, one piece after the other.
pub open spec fn glue(ws: Seq<Seq<char>>) -> Seq<char>
    decreases ws.len(),
{
    if ws.len() == 0 {
        Seq::empty()
    } else {
        glue(ws.drop_last()) + ws.last()
    }
}

proof fn lemma_drop_spaces_concat(a: Seq<char>, b: Seq<char>)
    ensures
        drop_spaces(a + b) == drop_spaces(a) + drop_spaces(b),
    decreases b.len(),
{
    if b.len() == 0 {
        assert(a + b =~= a);
        assert(drop_spaces(a) + drop_spaces(b) =~= drop_spaces(a));
    } else {
        lemma_drop_spaces_concat(a, b.drop_last());
        assert((a + b).drop_last() =~= a + b.drop_last());
        assert((a + b).last() == b.last());
        if !is_space(b.last()) {
            assert(drop_spaces(a) + drop_spaces(b.drop_last()).push(b.last()) =~= (drop_spaces(a)
                + drop_spaces(b.drop_last())).push(b.last()));
        }
    }
}

proof fn lemma_drop_spaces_spaceless(s: Seq<char>)
    requires
        spaceless(s),
    ensures
        drop_spaces(s) == s,
    decreases s.len(),
{
    if s.len() > 0 {
        assert(s.last() == s[s.len() - 1]);
        lemma_drop_spaces_spaceless(s.drop_last());
        assert(s.drop_last().push(s.last()) =~= s);
    }
}

proof fn lemma_glue_concat(a: Seq<Seq<char>>, b: Seq<Seq<char>>)
    ensures
        glue(a + b) == glue(a) + glue(b),
    decreases b.len(),
{
    if b.len() == 0 {
        assert(a + b =~= a);
        assert(glue(a) + glue(b) =~= glue(a));
    } else {
        lemma_glue_concat(a, b.drop_last());
        assert((a + b).drop_last() =~= a + b.drop_last());
        assert((a + b).last() == b.last());
        assert(glue(a) + (glue(b.drop_last()) + b.last()) =~= glue(a) + glue(b.drop_last())
            + b.last());
    }
}

proof fn lemma_glue_one(x: Seq<char>)
    ensures
        glue(seq![x]) == x,
{
    assert(seq![x].drop_last() =~= Seq::<Seq<char>>::empty());
    assert(glue(Seq::<Seq<char>>::empty()) == Seq::<char>::empty());
    assert(Seq::<char>::empty() + x =~= x);
}

/// The words of a text are its non-space characters, cut into non-empty
/// runs without spaces.
pub proof fn lemma_words_glue(s: Seq<char>)
    ensures
        glue(words_of(s)) == drop_spaces(s),
        forall|i: int| 0 <= i < words_of(s).len() ==> spaceless(#[trigger] words_of(s)[i]),
    decreases s.len(),
{
    if s.len() > 0 {
        let d = s.drop_last();
        let c = s.last();
        let ws = words_of(d);
        lemma_words_glue(d);
        if is_space(c) {
        } else if d.len() > 0 && !is_space(d.last()) && ws.len() > 0 {
            let last = ws.last().push(c);
            let nws = ws.drop_last().push(last);
            assert(nws.drop_last() =~= ws.drop_last());
            assert(ws.drop_last().push(ws.last()) =~= ws);
            assert(glue(ws) == glue(ws.drop_last()) + ws.last());
            assert(glue(nws) =~= glue(ws).push(c));
            assert forall|i: int| 0 <= i < nws.len() implies spaceless(#[trigger] nws[i]) by {
                if i == nws.len() - 1 {
                    assert(spaceless(ws[ws.len() - 1]));
                    assert forall|k: int| 0 <= k < last.len() implies !is_space(
                        #[trigger] last[k],
                    ) by {
                        if k < last.len() - 1 {
                            assert(last[k] == ws[ws.len() - 1][k]);
                        }
                    }
                } else {
                    assert(nws[i] == ws[i]);
                }
            }
        } else {
            let nws = ws.push(seq![c]);
            assert(nws.drop_last() =~= ws);
            assert(glue(nws) =~= glue(ws).push(c));
            assert forall|i: int| 0 <= i < nws.len() implies spaceless(#[trigger] nws[i]) by {
                if i < ws.len() {
                    assert(nws[i] == ws[i]);
                }
            }
        }
    }
}

/// Joining spaceless words and dropping the spaces again glues the words.
proof fn lemma_join_drop_spaces(ws: Seq<Seq<char>>)
    requires
        forall|i: int| 0 <= i < ws.len() ==> spaceless(#[trigger] ws[i]),
    ensures
        drop_spaces(join_words(ws)) == glue(ws),
    decreases ws.len(),
{
    if ws.len() == 0 {
    } else if ws.len() == 1 {
        lemma_drop_spaces_spaceless(ws[0]);
        assert(ws =~= seq![ws[0]]);
        lemma_glue_one(ws[0]);
    } else {
        let d = ws.drop_last();
        assert forall|i: int| 0 <= i < d.len() implies spaceless(#[trigger] d[i]) by {
            assert(d[i] == ws[i]);
        }
        lemma_join_drop_spaces(d);
        lemma_drop_spaces_concat(join_words(d) + seq![' '], ws.last());
        lemma_drop_spaces_concat(join_words(d), seq![' ']);
        assert(seq![' '].drop_last() =~= Seq::<char>::empty());
        assert(seq![' '].last() == ' ');
        assert(drop_spaces(Seq::<char>::empty()) == Seq::<char>::empty());
        assert(drop_spaces(seq![' ']) =~= Seq::<char>::empty());
        assert(spaceless(ws[ws.len() - 1]));
        lemma_drop_spaces_spaceless(ws.last());
        assert(glue(d) + Seq::<char>::empty() =~= glue(d));
    }
}

/// Every line's characters that do not separate words.
pub open spec fn lines_without_spaces(lines: Seq<Seq<char>>) -> Seq<Seq<char>> {
    lines.map_values(|l: Seq<char>| drop_spaces(l))
}

proof fn lemma_word_wrap_complete(ws: Seq<Seq<char>>, w: nat, n: nat)
    requires
        w > 0,
        forall|i: int| 0 <= i < ws.len() ==> spaceless(#[trigger] ws[i]),
        forall|i: int| 0 <= i < ws.len() ==> (#[trigger] ws[i]).len() > 0,
    ensures
        word_wrap(ws, w, n).len() < n ==> glue(lines_without_spaces(word_wrap(ws, w, n))) == glue(
            ws,
        ),
    decreases n,
{
    let lines = word_wrap(ws, w, n);
    if n == 0 {
    } else if ws.len() == 0 {
        assert(lines_without_spaces(lines) =~= Seq::<Seq<char>>::empty());
    } else if text_width(join_words(ws)) <= w {
        lemma_join_drop_spaces(ws);
        assert(lines_without_spaces(lines) =~= seq![drop_spaces(join_words(ws))]);
        lemma_glue_one(drop_spaces(join_words(ws)));
    } else if n == 1 {
    } else {
        let j = words_fit(ws, w);
        if j == 0 {
            let k = chunk_len(ws[0], w);
            lemma_words_fit_zero(ws, w);
            lemma_chunk_len(ws[0], w);
            let rest = rest_after_cut(ws, k);
            let first = ws[0];
            assert forall|i: int| 0 <= i < rest.len() implies spaceless(#[trigger] rest[i])
                && rest[i].len() > 0 by {
                assert(spaceless(ws[0]));
                if first.len() <= k {
                    assert(rest[i] == ws[i + 1]);
                } else if i == 0 {
                    assert forall|m: int| 0 <= m < rest[0].len() implies !is_space(
                        #[trigger] rest[0][m],
                    ) by {
                        assert(rest[0][m] == first[m + k]);
                    }
                } else {
                    assert(rest[i] == ws[i]);
                }
            }
            let r = word_wrap(rest, w, (n - 1) as nat);
            lemma_word_wrap_complete(rest, w, (n - 1) as nat);
            let piece = first.take(k as int);
            assert(spaceless(piece)) by {
                assert(spaceless(ws[0]));
                assert forall|m: int| 0 <= m < piece.len() implies !is_space(#[trigger] piece[m]) by {
                    assert(piece[m] == first[m]);
                }
            }
            lemma_drop_spaces_spaceless(piece);
            assert(lines_without_spaces(lines) =~= seq![piece] + lines_without_spaces(r));
            lemma_glue_concat(seq![piece], lines_without_spaces(r));
            lemma_glue_one(piece);
            lemma_glue_concat(seq![first], ws.drop_first());
            lemma_glue_one(first);
            assert(seq![first] + ws.drop_first() =~= ws);
            if first.len() <= k {
                assert(piece =~= first);
            } else {
                lemma_glue_concat(seq![first.skip(k as int)], ws.drop_first());
                lemma_glue_one(first.skip(k as int));
                assert(piece + first.skip(k as int) =~= first);
            }
        } else {
            lemma_words_fit_le(ws, w);
            let head = ws.take(j as int);
            let tail = ws.skip(j as int);
            assert forall|i: int| 0 <= i < head.len() implies spaceless(#[trigger] head[i]) by {
                assert(head[i] == ws[i]);
            }
            assert forall|i: int| 0 <= i < tail.len() implies spaceless(#[trigger] tail[i])
                && tail[i].len() > 0 by {
                assert(tail[i] == ws[i + j]);
            }
            lemma_join_drop_spaces(head);
            let r = word_wrap(tail, w, (n - 1) as nat);
            lemma_word_wrap_complete(tail, w, (n - 1) as nat);
            assert(lines_without_spaces(lines) =~= seq![glue(head)] + lines_without_spaces(r));
            lemma_glue_concat(seq![glue(head)], lines_without_spaces(r));
            lemma_glue_one(glue(head));
            lemma_glue_concat(head, tail);
            assert(head + tail =~= ws);
        }
    }
}

/// Wrapping a text by words loses no character when it needs fewer lines
/// than allowed: the lines hold all the text's characters but the spaces,
/// in order.
pub proof fn lemma_wrap_text_keeps_words(s: Seq<char>, w: nat, n: nat)
    requires
        w > 0,
    ensures
        word_wrap(words_of(s), w, n).len() < n ==> glue(
            lines_without_spaces(word_wrap(words_of(s), w, n)),
        ) == drop_spaces(s),
{
    lemma_words_glue(s);
    lemma_words_len(s);
    lemma_word_wrap_complete(words_of(s), w, n);
}

/// `lines` are the words `ws` laid out greedily on at most `n` lines of `w`
/// cells, breaking only between words: line `k` holds the words from
/// `b[k]` up to `b[k + 1]`, joined by single blanks; every line but the
/// last is full (its next word would not fit); the last holds all the
/// remaining words, or, when the `n` lines are used up and they do not
/// fit, those words cut with an ellipsis.
pub open spec fn greedy_word_lines(
    ws: Seq<Seq<char>>,
    w: nat,
    n: nat,
    lines: Seq<Seq<char>>,
    b: Seq<int>,
) -> bool {
    let m = lines.len();
    &&& b.len() == m + 1
    &&& b[0] == 0
    &&& m <= n
    &&& (m == 0 <==> (n == 0 || ws.len() == 0))
    &&& m > 0 ==> b[m as int] == ws.len()
    &&& forall|i: int, j: int| 0 <= i < j <= m ==> #[trigger] b[i] < #[trigger] b[j]
    &&& forall|k: int|
        #![trigger lines[k]]
        0 <= k < m - 1 ==> lines[k] == join_words(ws.subrange(b[k], b[k + 1])) && text_width(
            join_words(ws.subrange(b[k], b[k + 1] + 1)),
        ) > w
    &&& m > 0 ==> ({
        let rest = ws.skip(b[m - 1]);
        ||| text_width(join_words(rest)) <= w && lines[m - 1] == join_words(rest)
        ||| m == n && text_width(join_words(rest)) > w && lines[m - 1] == truncated(
            join_words(rest),
            w,
        )
    })
}

/// When a prefix of the words fits on a line, at least that many words are
/// put on it.
proof fn lemma_words_fit_ge(ws: Seq<Seq<char>>, w: nat, k: int)
    requires
        0 < k <= ws.len(),
        text_width(join_words(ws.take(k))) <= w,
    ensures
        words_fit(ws, w) >= k,
    decreases ws.len(),
{
    if text_width(join_words(ws)) > w {
        if k == ws.len() {
            assert(ws.take(k) =~= ws);
        } else {
            assert(ws.drop_last().take(k) =~= ws.take(k));
            lemma_words_fit_ge(ws.drop_last(), w, k);
        }
    }
}

/// No longer prefix than the words put on a line fits on it.
proof fn lemma_words_fit_max(ws: Seq<Seq<char>>, w: nat, k: int)
    requires
        words_fit(ws, w) < k <= ws.len(),
    ensures
        text_width(join_words(ws.take(k))) > w,
    decreases ws.len(),
{
    if text_width(join_words(ws)) > w {
        if k == ws.len() {
            assert(ws.take(k) =~= ws);
        } else {
            assert(ws.drop_last().take(k) =~= ws.take(k));
            lemma_words_fit_max(ws.drop_last(), w, k);
        }
    }
}

/// Words that each fit on a line alone are wrapped greedily and only
/// between words.
#[verifier::rlimit(60)]
#[verifier::spinoff_prover]
pub proof fn lemma_word_wrap_greedy(ws: Seq<Seq<char>>, w: nat, n: nat) -> (b: Seq<int>)
    requires
        w > 0,
        forall|i: int| 0 <= i < ws.len() ==> text_width(#[trigger] ws[i]) <= w,
    ensures
        greedy_word_lines(ws, w, n, word_wrap(ws, w, n), b),
    decreases n,
{
    let lines = word_wrap(ws, w, n);
    if n == 0 || ws.len() == 0 {
        seq![0int]
    } else if text_width(join_words(ws)) <= w {
        assert(ws.skip(0) =~= ws);
        let b = seq![0int, ws.len() as int];
        assert(greedy_word_lines(ws, w, n, lines, b));
        b
    } else if n == 1 {
        assert(ws.skip(0) =~= ws);
        let b = seq![0int, ws.len() as int];
        assert(greedy_word_lines(ws, w, n, lines, b));
        b
    } else {
        assert(ws.take(1) =~= seq![ws[0]]);
        assert(join_words(seq![ws[0]]) == ws[0]);
        lemma_words_fit_ge(ws, w, 1);
        lemma_words_fit_le(ws, w);
        let j = words_fit(ws, w) as int;
        if j == ws.len() {
            lemma_words_fit_fits(ws, w);
            assert(ws.take(j) =~= ws);
        }
        assert(j < ws.len());
        let tail = ws.skip(j);
        assert forall|i: int| 0 <= i < tail.len() implies text_width(#[trigger] tail[i]) <= w by {
            assert(tail[i] == ws[i + j]);
        }
        let b1 = lemma_word_wrap_greedy(tail, w, (n - 1) as nat);
        let rest = word_wrap(tail, w, (n - 1) as nat);
        assert(lines == seq![join_words(ws.take(j))] + rest);
        let b = seq![0int] + b1.map_values(|x: int| x + j);
        let m = lines.len();
        assert(rest.len() > 0);
        lemma_words_fit_max(ws, w, j + 1);
        assert(ws.subrange(0, j) =~= ws.take(j));
        assert(ws.subrange(0, j + 1) =~= ws.take(j + 1));
        assert forall|x: int| 1 <= x <= m implies #[trigger] b[x] == b1[x - 1] + j by {}
        assert forall|i: int, j2: int| 0 <= i < j2 <= m implies #[trigger] b[i] < #[trigger] b[j2] by {
            assert(b[j2] == b1[j2 - 1] + j);
            if i == 0 {
                if j2 - 1 > 0 {
                    assert(b1[0] < b1[j2 - 1]);
                }
            } else {
                assert(b[i] == b1[i - 1] + j);
                assert(b1[i - 1] < b1[j2 - 1]);
            }
        }
        assert forall|k: int|
            #![trigger lines[k]]
            0 <= k < m - 1 implies lines[k] == join_words(ws.subrange(b[k], b[k + 1])) && text_width(
                join_words(ws.subrange(b[k], b[k + 1] + 1)),
            ) > w by {
            if k > 0 {
                assert(lines[k] == rest[k - 1]);
                assert(b[k] == b1[k - 1] + j);
                assert(b[k + 1] == b1[k] + j);
                assert(b1[0] <= b1[k - 1]);
                assert(b1[k] < b1[(m - 1) as int]);
                assert(ws.subrange(b[k], b[k + 1]) =~= tail.subrange(b1[k - 1], b1[k]));
                assert(ws.subrange(b[k], b[k + 1] + 1) =~= tail.subrange(b1[k - 1], b1[k] + 1));
            } else {
                assert(b[1] == b1[0] + j);
            }
        }
        assert(b[m - 1] == b1[m - 2] + j);
        assert(ws.skip(b[m - 1]) =~= tail.skip(b1[m - 2]));
        assert(b[m as int] == b1[m - 1] + j);
        assert(greedy_word_lines(ws, w, n, lines, b));
        b
    }
}

} // verus!
