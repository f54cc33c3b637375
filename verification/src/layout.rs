//! The line layout engine: splitting text at explicit newlines, justifying
//! each line, and placing a cursor for every character.

use vstd::prelude::*;
use crate::{MAX_ADVANCE, MAX_CURSOR, MAX_METRIC, MAX_TEXT_LEN};
use crate::font::{advance, advance_of, width_prefix, GlyphFont};

verus! {

/// Horizontal alignment of each text line.
#[derive(Clone, Copy, PartialEq, Eq, Structural, Debug)]
pub enum Justify {
    Left,
    Center,
    Right,
}

/// One laid-out character: its source position and the cursor at which its
/// glyph, if any, is placed. `char_index` counts every character of the
/// text, the implicit newline separators included; `line_index` is the
/// 0-based source line.
#[derive(Clone, Copy, PartialEq, Eq, Structural, Debug)]
pub struct LayoutCursor {
    pub character: char,
    pub line_index: usize,
    pub char_index: usize,
    pub x: i64,
    pub y: i64,
}

/// The lines of a non-empty character sequence, split at `'\n'`. Every
/// `'\n'` ends a line, so a trailing newline yields a final empty line.
pub open spec fn spec_split(s: Seq<char>) -> Seq<Seq<char>>
    decreases s.len(),
{
    if s.len() == 0 {
        seq![Seq::<char>::empty()]
    } else if s[0] == '\n' {
        seq![Seq::<char>::empty()] + spec_split(s.drop_first())
    } else {
        let rest = spec_split(s.drop_first());
        seq![seq![s[0]] + rest[0]] + rest.drop_first()
    }
}

/// The lines a layout pass walks: none for empty text, else the split.
pub open spec fn spec_lines(s: Seq<char>) -> Seq<Seq<char>> {
    if s.len() == 0 {
        Seq::empty()
    } else {
        spec_split(s)
    }
}

/// A split has at least one line.
pub proof fn lemma_split_len(s: Seq<char>)
    ensures
        spec_split(s).len() >= 1,
    decreases s.len(),
{
    if s.len() > 0 {
        lemma_split_len(s.drop_first());
    }
}

/// Appending one character to a text either extends its last line (any
/// other character) or opens a new empty line (`'\n'`).
pub proof fn lemma_split_push(s: Seq<char>, c: char)
    ensures
        c == '\n' ==> spec_split(s.push(c)) == spec_split(s).push(Seq::<char>::empty()),
        c != '\n' ==> spec_split(s.push(c)) == spec_split(s).update(
            spec_split(s).len() - 1,
            spec_split(s).last().push(c),
        ),
    decreases s.len(),
{
    lemma_split_len(s);
    if s.len() == 0 {
        assert(s.push(c).drop_first() =~= Seq::<char>::empty());
        assert(spec_split(Seq::<char>::empty()) == seq![Seq::<char>::empty()]);
        if c == '\n' {
            assert(s.push(c)[0] == '\n');
            assert(spec_split(s.push(c)) =~~= spec_split(s).push(Seq::<char>::empty()));
        } else {
            assert(s.push(c)[0] == c);
            assert(spec_split(s.push(c)) =~~= spec_split(s).update(
                spec_split(s).len() - 1,
                spec_split(s).last().push(c),
            ));
        }
    } else {
        let t = s.drop_first();
        lemma_split_len(t);
        lemma_split_push(t, c);
        assert(s.push(c)[0] == s[0]);
        assert(s.push(c).drop_first() =~= t.push(c));
        if c == '\n' {
            assert(spec_split(s.push(c)) =~~= spec_split(s).push(Seq::<char>::empty()));
        } else {
            assert(spec_split(s.push(c)) =~~= spec_split(s).update(
                spec_split(s).len() - 1,
                spec_split(s).last().push(c),
            ));
        }
    }
}

/// Characters of the first `i` lines, the one implicit newline separator
/// after each line included.
pub open spec fn chars_before(lines: Seq<Seq<char>>, i: int) -> int
    decreases i,
{
    if i <= 0 {
        0
    } else {
        chars_before(lines, i - 1) + lines[i - 1].len() + 1
    }
}

/// `chars_before` grows with `i`, by at least one per line.
pub proof fn lemma_chars_before_mono(lines: Seq<Seq<char>>, i: int, k: int)
    requires
        0 <= i <= k,
    ensures
        chars_before(lines, i) + (k - i) <= chars_before(lines, k),
        i <= chars_before(lines, i),
    decreases k,
{
    if k > 0 {
        if i <= k - 1 {
            lemma_chars_before_mono(lines, i, k - 1);
        }
        if i > 0 {
            lemma_chars_before_mono(lines, i - 1, i - 1);
        }
    }
}

/// Prepending one line shifts the separator-counting prefix sum by that
/// line's length plus one.
pub proof fn lemma_chars_before_cons(x: Seq<char>, rest: Seq<Seq<char>>, i: int)
    requires
        0 <= i <= rest.len(),
    ensures
        chars_before(seq![x] + rest, i + 1) == x.len() + 1 + chars_before(rest, i),
    decreases i,
{
    assert(seq![x].len() == 1);
    if i == 0 {
        assert(chars_before(seq![x] + rest, 0) == 0);
        assert((seq![x] + rest)[0] == x);
        assert(chars_before(seq![x] + rest, 1) == (seq![x] + rest)[0].len() + 1);
        assert(chars_before(rest, 0) == 0);
    } else {
        lemma_chars_before_cons(x, rest, i - 1);
        assert((seq![x] + rest)[i] =~~= rest[i - 1]);
    }
}

/// A split covers its text exactly: the lines' characters plus one
/// separator per line count one more than the text itself.
pub proof fn lemma_split_total(s: Seq<char>)
    ensures
        chars_before(spec_split(s), spec_split(s).len() as int) == s.len() + 1,
    decreases s.len(),
{
    lemma_split_len(s);
    if s.len() == 0 {
        assert(chars_before(seq![Seq::<char>::empty()], 0) == 0);
        assert(chars_before(seq![Seq::<char>::empty()], 1) == 1);
    } else {
        let t = s.drop_first();
        let rest = spec_split(t);
        lemma_split_len(t);
        lemma_split_total(t);
        if s[0] == '\n' {
            assert(spec_split(s) == seq![Seq::<char>::empty()] + rest);
            lemma_chars_before_cons(Seq::<char>::empty(), rest, rest.len() as int);
            assert(chars_before(seq![Seq::<char>::empty()] + rest, rest.len() as int + 1)
                == 1 + chars_before(rest, rest.len() as int));
        } else {
            let head = seq![s[0]] + rest[0];
            lemma_chars_before_cons(head, rest.drop_first(), rest.drop_first().len() as int);
            lemma_chars_before_cons(rest[0], rest.drop_first(), rest.drop_first().len() as int);
            assert(seq![rest[0]] + rest.drop_first() =~~= rest);
        }
    }
}

/// Every line of a split is no longer than the text it came from, and there
/// is at most one line more than the text has characters.
pub proof fn lemma_split_line_bounds(s: Seq<char>)
    ensures
        spec_split(s).len() >= 1,
        spec_split(s).len() <= s.len() + 1,
        forall|i: int| 0 <= i < spec_split(s).len()
            ==> (#[trigger] spec_split(s)[i]).len() <= s.len(),
{
    let lines = spec_split(s);
    lemma_split_len(s);
    lemma_split_total(s);
    lemma_chars_before_mono(lines, 0, lines.len() as int);
    assert forall|i: int| 0 <= i < lines.len() implies
        (#[trigger] lines[i]).len() <= s.len() by {
        lemma_chars_before_mono(lines, i, i);
        lemma_chars_before_mono(lines, i + 1, lines.len() as int);
        assert(chars_before(lines, i + 1) == chars_before(lines, i) + lines[i].len() + 1);
    }
}

/// Splits a text into its lines at explicit newlines. Empty text has no
/// lines; otherwise every `'\n'` ends a line.
pub fn split_lines(text: &Vec<char>) -> (r: Vec<Vec<char>>)
    ensures
        r@.map_values(|l: Vec<char>| l@) == spec_lines(text@),
        r@.len() <= text@.len() + 1,
        forall|i: int| 0 <= i < r@.len() ==> (#[trigger] r@[i])@.len() <= text@.len(),
{
    let n = text.len();
    let mut done: Vec<Vec<char>> = Vec::new();
    let mut cur: Vec<char> = Vec::new();
    if n == 0 {
        proof {
            assert(done@.map_values(|l: Vec<char>| l@) =~= spec_lines(text@));
        }
        return done;
    }
    let mut j: usize = 0;
    while j < n
        invariant
            j <= n,
            n == text@.len(),
            done@.map_values(|l: Vec<char>| l@).push(cur@)
                =~~= spec_split(text@.subrange(0, j as int)),
        decreases n - j,
    {
        let c = text[j];
        proof {
            assert(text@.subrange(0, j as int).push(text@[j as int])
                =~= text@.subrange(0, j + 1));
            lemma_split_push(text@.subrange(0, j as int), text@[j as int]);
            lemma_split_len(text@.subrange(0, j as int));
        }
        if c == '\n' {
            done.push(cur);
            cur = Vec::new();
        } else {
            cur.push(c);
        }
        proof {
            assert(done@.map_values(|l: Vec<char>| l@).push(cur@)
                =~~= spec_split(text@.subrange(0, j + 1)));
        }
        j = j + 1;
    }
    proof {
        assert(text@.subrange(0, n as int) =~= text@);
    }
    done.push(cur);
    proof {
        assert(done@.map_values(|l: Vec<char>| l@) =~~= spec_split(text@));
        lemma_split_line_bounds(text@);
        assert forall|i: int| 0 <= i < done@.len() implies
            (#[trigger] done@[i])@.len() <= text@.len() by {
            assert(done@.map_values(|l: Vec<char>| l@)[i] == done@[i]@);
        }
    }
    done
}

/// Total advance of a whole line in this font.
pub open spec fn line_width(font: GlyphFont, line: Seq<char>) -> int {
    width_prefix(font, line, line.len() as int)
}

/// Where the cursor of a line starts: at 0 for left justification, shifted
/// left by half the line width for centering (halving rounds down), and by
/// the whole line width for right justification.
pub open spec fn spec_x_start(font: GlyphFont, justify: Justify, line: Seq<char>) -> int {
    match justify {
        Justify::Left => 0,
        Justify::Center => -(line_width(font, line) / 2),
        Justify::Right => -line_width(font, line),
    }
}

/// The x cursor of character `j` of a line: the line's start plus the
/// advances of the characters before it.
pub open spec fn spec_x(font: GlyphFont, justify: Justify, line: Seq<char>, j: int) -> int {
    spec_x_start(font, justify, line) + width_prefix(font, line, j)
}

/// The y cursor of line `i`: lines stack downward, one line height apart.
pub open spec fn spec_y(font: GlyphFont, i: int) -> int {
    -(i * font.spec_line_height())
}

/// The cursor of character `j` of line `i`.
pub open spec fn line_cursor(
    font: GlyphFont,
    lines: Seq<Seq<char>>,
    justify: Justify,
    i: int,
    j: int,
) -> LayoutCursor {
    LayoutCursor {
        character: lines[i][j],
        line_index: i as usize,
        char_index: (chars_before(lines, i) + j) as usize,
        x: spec_x(font, justify, lines[i], j) as i64,
        y: spec_y(font, i) as i64,
    }
}

/// The cursors of all characters of line `i`, left to right.
pub open spec fn line_cursors(
    font: GlyphFont,
    lines: Seq<Seq<char>>,
    justify: Justify,
    i: int,
) -> Seq<LayoutCursor> {
    Seq::new(lines[i].len(), |j: int| line_cursor(font, lines, justify, i, j))
}

/// The cursors of the first `i` lines, in source order.
pub open spec fn cursors_upto(
    font: GlyphFont,
    lines: Seq<Seq<char>>,
    justify: Justify,
    i: int,
) -> Seq<LayoutCursor>
    decreases i,
{
    if i <= 0 {
        Seq::empty()
    } else {
        cursors_upto(font, lines, justify, i - 1) + line_cursors(font, lines, justify, i - 1)
    }
}

/// Every character of a text, laid out: one cursor per character, in source
/// order, whitespace included.
pub open spec fn spec_cursors(font: GlyphFont, text: Seq<char>, justify: Justify)
    -> Seq<LayoutCursor> {
    let lines = spec_lines(text);
    cursors_upto(font, lines, justify, lines.len() as int)
}

/// Line widths of bounded lines stay within the cursor bound, and so do
/// the x cursors derived from them.
pub proof fn lemma_x_bounds(font: GlyphFont, justify: Justify, line: Seq<char>, j: int)
    requires
        font.wf(),
        line.len() <= MAX_TEXT_LEN,
        0 <= j <= line.len(),
    ensures
        0 <= line_width(font, line) <= MAX_TEXT_LEN * (MAX_ADVANCE as int),
        -(MAX_CURSOR as int) <= spec_x(font, justify, line, j) <= MAX_CURSOR,
        -(MAX_CURSOR as int) <= spec_x_start(font, justify, line) <= 0,
        width_prefix(font, line, j) <= line_width(font, line),
{
    crate::font::lemma_width_prefix_bounds(font, line, line.len() as int);
    crate::font::lemma_width_prefix_bounds(font, line, j);
    assert((line.len() as int) * (MAX_ADVANCE as int) <= MAX_TEXT_LEN * (MAX_ADVANCE as int))
        by (nonlinear_arith)
        requires 0 <= line.len() <= MAX_TEXT_LEN;
}

/// The y cursor of any line within the text bound stays within the cursor
/// bound.
pub proof fn lemma_y_bounds(font: GlyphFont, i: int)
    requires
        font.wf(),
        0 <= i <= MAX_TEXT_LEN + 1,
    ensures
        -(MAX_CURSOR as int) <= spec_y(font, i) <= MAX_CURSOR,
{
    assert(-3 * (MAX_METRIC as int) <= font.spec_line_height() <= 3 * (MAX_METRIC as int));
    assert(i * font.spec_line_height() <= i * 3 * (MAX_METRIC as int)
        && -(i * 3 * (MAX_METRIC as int)) <= i * font.spec_line_height()
        && i * 3 * (MAX_METRIC as int) <= (MAX_TEXT_LEN + 1) * 3 * (MAX_METRIC as int))
        by (nonlinear_arith)
        requires
            0 <= i <= MAX_TEXT_LEN + 1,
            -3 * (MAX_METRIC as int) <= font.spec_line_height() <= 3 * (MAX_METRIC as int);
}

/// Total advance of one line of text.
pub fn line_width_of(font: &GlyphFont, line: &Vec<char>) -> (w: i64)
    requires
        font.wf(),
        line@.len() <= MAX_TEXT_LEN,
    ensures
        w == line_width(*font, line@),
        0 <= w <= MAX_TEXT_LEN * (MAX_ADVANCE as int),
{
    let n = line.len();
    let mut w: i64 = 0;
    let mut j: usize = 0;
    while j < n
        invariant
            j <= n,
            n == line@.len(),
            n <= MAX_TEXT_LEN,
            font.wf(),
            w == width_prefix(*font, line@, j as int),
            0 <= w <= (j as int) * (MAX_ADVANCE as int),
        decreases n - j,
    {
        let a = advance(font, line[j]);
        proof {
            assert((j as int) * (MAX_ADVANCE as int) + MAX_ADVANCE
                == (j + 1) * (MAX_ADVANCE as int)) by (nonlinear_arith);
            assert((j + 1) * (MAX_ADVANCE as int) <= MAX_TEXT_LEN * (MAX_ADVANCE as int))
                by (nonlinear_arith)
                requires 0 <= j + 1 <= MAX_TEXT_LEN;
        }
        w = w + a;
        j = j + 1;
    }
    w
}

/// Lays out a text: splits it into lines, justifies each line, and yields
/// one cursor per character, in source order. Whitespace characters receive
/// a cursor like any other; the implicit separator between lines advances
/// `char_index` by one without occupying a position.
pub fn layout_cursors(font: &GlyphFont, text: &Vec<char>, justify: Justify)
    -> (r: Vec<LayoutCursor>)
    requires
        font.wf(),
        text@.len() <= MAX_TEXT_LEN,
    ensures
        r@ == spec_cursors(*font, text@, justify),
        forall|k: int| 0 <= k < r@.len() ==> {
            let c = #[trigger] r@[k];
            -MAX_CURSOR <= c.x <= MAX_CURSOR && -MAX_CURSOR <= c.y <= MAX_CURSOR
        },
        r@.len() <= text@.len(),
{
    let ghost lines_model = spec_lines(text@);
    let lines = split_lines(text);
    let lh = font.line_height();
    let mut out: Vec<LayoutCursor> = Vec::new();
    let mut char_index: usize = 0;
    let mut cursor_y: i64 = 0;
    let n = lines.len();
    proof {
        assert(lines@.map_values(|l: Vec<char>| l@).len() == lines_model.len());
        if text@.len() > 0 {
            lemma_split_total(text@);
            lemma_chars_before_mono(lines_model, 0, lines_model.len() as int);
        }
    }
    let mut i: usize = 0;
    while i < n
        invariant
            i <= n,
            n == lines@.len(),
            font.wf(),
            text@.len() <= MAX_TEXT_LEN,
            lines@.map_values(|l: Vec<char>| l@) == lines_model,
            lines_model == spec_lines(text@),
            lines_model.len() <= text@.len() + 1,
            forall|k: int| 0 <= k < lines_model.len()
                ==> (#[trigger] lines_model[k]).len() <= text@.len(),
            chars_before(lines_model, lines_model.len() as int) <= text@.len() + 1
                + lines_model.len(),
            lh == font.spec_line_height(),
            char_index == chars_before(lines_model, i as int),
            cursor_y == spec_y(*font, i as int),
            out@ == cursors_upto(*font, lines_model, justify, i as int),
            forall|k: int| 0 <= k < out@.len() ==> {
                let c = #[trigger] out@[k];
                -MAX_CURSOR <= c.x <= MAX_CURSOR && -MAX_CURSOR <= c.y <= MAX_CURSOR
            },
            out@.len() <= chars_before(lines_model, i as int),
        decreases n - i,
    {
        let line = &lines[i];
        proof {
            assert(lines@.map_values(|l: Vec<char>| l@)[i as int] == line@);
            assert(lines_model[i as int] == line@);
            lemma_x_bounds(*font, justify, line@, 0);
            lemma_y_bounds(*font, i as int);
        }
        let lw = line_width_of(font, line);
        let x_start: i64 = match justify {
            Justify::Left => 0,
            Justify::Right => -lw,
            Justify::Center => -(((lw as u64) / 2) as i64),
        };
        proof {
            assert(lw as u64 / 2 == line_width(*font, line@) / 2);
            assert(x_start == spec_x_start(*font, justify, line@));
        }
        let mut cursor_x: i64 = x_start;
        let m = line.len();
        let mut j: usize = 0;
        proof {
            assert(out@ =~= cursors_upto(*font, lines_model, justify, i as int)
                + line_cursors(*font, lines_model, justify, i as int).subrange(0, 0));
        }
        while j < m
            invariant
                j <= m,
                m == line@.len(),
                font.wf(),
                text@.len() <= MAX_TEXT_LEN,
                line@.len() <= text@.len(),
                lines_model[i as int] == line@,
                0 <= i < lines_model.len(),
                chars_before(lines_model, lines_model.len() as int) <= text@.len() + 1
                    + lines_model.len(),
                lines_model.len() <= text@.len() + 1,
                x_start == spec_x_start(*font, justify, line@),
                cursor_x == spec_x(*font, justify, line@, j as int),
                char_index == chars_before(lines_model, i as int) + j,
                char_index <= chars_before(lines_model, i as int + 1) - 1,
                cursor_y == spec_y(*font, i as int),
                -MAX_CURSOR <= cursor_y <= MAX_CURSOR,
                out@ =~= cursors_upto(*font, lines_model, justify, i as int)
                    + line_cursors(*font, lines_model, justify, i as int).subrange(0, j as int),
                forall|k: int| 0 <= k < out@.len() ==> {
                    let c = #[trigger] out@[k];
                    -MAX_CURSOR <= c.x <= MAX_CURSOR && -MAX_CURSOR <= c.y <= MAX_CURSOR
                },
            decreases m - j,
        {
            proof {
                lemma_x_bounds(*font, justify, line@, j as int);
                lemma_x_bounds(*font, justify, line@, j + 1);
                lemma_chars_before_mono(lines_model, i as int + 1, lines_model.len() as int);
                lemma_chars_before_mono(lines_model, 0, i as int);
            }
            let c = line[j];
            out.push(LayoutCursor {
                character: c,
                line_index: i,
                char_index,
                x: cursor_x,
                y: cursor_y,
            });
            proof {
                assert(out@.last() == line_cursor(*font, lines_model, justify, i as int, j as int));
                assert(out@ =~= cursors_upto(*font, lines_model, justify, i as int)
                    + line_cursors(*font, lines_model, justify, i as int)
                        .subrange(0, j + 1));
            }
            let a = advance(font, c);
            cursor_x = cursor_x + a;
            char_index = char_index + 1;
            j = j + 1;
        }
        proof {
            assert(line_cursors(*font, lines_model, justify, i as int).subrange(0, m as int)
                =~= line_cursors(*font, lines_model, justify, i as int));
            assert(out@ =~= cursors_upto(*font, lines_model, justify, i as int + 1));
            lemma_chars_before_mono(lines_model, i as int + 1, lines_model.len() as int);
            lemma_y_bounds(*font, i as int);
            lemma_y_bounds(*font, i as int + 1);
            assert((i as int + 1) * font.spec_line_height()
                == (i as int) * font.spec_line_height() + font.spec_line_height())
                by (nonlinear_arith);
        }
        char_index = char_index + 1;
        cursor_y = cursor_y - lh;
        i = i + 1;
    }
    proof {
        lemma_cursor_count(*font, lines_model, justify, lines_model.len() as int);
        if text@.len() > 0 {
            lemma_split_total(text@);
        }
    }
    out
}

/// The first `i` lines carry at most as many cursors as characters, counted
/// without the separators.
pub proof fn lemma_cursor_count(
    font: GlyphFont,
    lines: Seq<Seq<char>>,
    justify: Justify,
    i: int,
)
    requires
        0 <= i <= lines.len(),
    ensures
        cursors_upto(font, lines, justify, i).len() == chars_before(lines, i) - i,
    decreases i,
{
    if i > 0 {
        lemma_cursor_count(font, lines, justify, i - 1);
    }
}

} // verus!
