//! Laws of the layout engine: what holds of every text, font and style.

use vstd::prelude::*;
use crate::MAX_TEXT_LEN;
use crate::font::{advance_of, spec_is_whitespace, text_width, width_prefix, GlyphFont};
use crate::geometry::{box_of, PointModel};
use crate::layout::{
    chars_before, cursors_upto, line_cursor, line_cursors, lemma_chars_before_mono,
    lemma_split_line_bounds, lemma_split_total, lemma_x_bounds, lemma_y_bounds, line_width,
    spec_cursors, spec_lines, spec_split, spec_x, spec_x_start, spec_y, Justify, LayoutCursor,
};
use crate::assemble::{
    cursor_verts, emit_of, spec_anchor_offset, spec_combined_indices, spec_combined_normals,
    spec_combined_vertices, spec_verts, Anchor, TextStyle,
};

verus! {

/// Empty text lays out to nothing: no cursors, no vertices, no normals, no
/// indices, whatever the font and style.
pub proof fn lemma_empty_text(font: GlyphFont, style: TextStyle)
    ensures
        spec_cursors(font, Seq::<char>::empty(), style.justify).len() == 0,
        spec_combined_vertices(font, Seq::<char>::empty(), style).len() == 0,
        spec_combined_normals(font, Seq::<char>::empty(), style).len() == 0,
        spec_combined_indices(font, Seq::<char>::empty(), style).len() == 0,
        crate::placement::spec_placements(
            font,
            spec_cursors(font, Seq::<char>::empty(), style.justify),
        ).len() == 0,
        text_width(font, Seq::<char>::empty()) == 0,
{
    assert(spec_lines(Seq::<char>::empty()).len() == 0);
}

/// Centered lines are symmetric: a line's cursor extent runs from its start
/// to its start plus its width, and the sum of those two ends — twice the
/// extent's midpoint — misses zero by at most the one unit that halving an
/// odd width rounds away.
pub proof fn lemma_center_symmetric(font: GlyphFont, line: Seq<char>)
    requires
        font.wf(),
        line.len() <= MAX_TEXT_LEN,
    ensures
        0 <= spec_x_start(font, Justify::Center, line)
            + (spec_x_start(font, Justify::Center, line) + line_width(font, line)) <= 1,
{
    lemma_x_bounds(font, Justify::Center, line, 0);
    let w = line_width(font, line);
    vstd::arithmetic::div_mod::lemma_fundamental_div_mod(w, 2);
}

/// Left justification starts every line at zero; right justification ends
/// it there.
pub proof fn lemma_justify_starts(font: GlyphFont, line: Seq<char>)
    ensures
        spec_x_start(font, Justify::Left, line) == 0,
        spec_x_start(font, Justify::Right, line) == -line_width(font, line),
{
}

/// A whitespace character never emits geometry: it has a cursor, consumes
/// its advance, and contributes no vertices and no placement.
pub proof fn lemma_whitespace_emits_nothing(font: GlyphFont, c: LayoutCursor)
    requires
        spec_is_whitespace(c.character),
    ensures
        emit_of(font, c) is None,
        cursor_verts(font, c).len() == 0,
{
}

/// Lines stack strictly downward: whatever a line holds — geometry,
/// whitespace only, or nothing — the next line's cursor y sits exactly one
/// line height below it.
pub proof fn lemma_line_stacking(font: GlyphFont, i: int)
    ensures
        spec_y(font, i + 1) == spec_y(font, i) - font.spec_line_height(),
{
    assert((i + 1) * font.spec_line_height()
        == i * font.spec_line_height() + font.spec_line_height()) by (nonlinear_arith);
}

/// The cursor of character `j` of line `i` carries that character, its line
/// and running character index, the justified x of its column, and the y of
/// its line — field by field and without truncation.
pub open spec fn cursor_fields_ok(
    font: GlyphFont,
    text: Seq<char>,
    justify: Justify,
    i: int,
    j: int,
) -> bool {
    let lines = spec_lines(text);
    let c = spec_cursors(font, text, justify)[
        cursors_upto(font, lines, justify, i).len() + j];
    &&& c.character == lines[i][j]
    &&& c.line_index == i
    &&& c.char_index == chars_before(lines, i) + j
    &&& c.x == spec_x(font, justify, lines[i], j)
    &&& c.y == spec_y(font, i)
}

/// What every cursor of a laid-out text is: see [`cursor_fields_ok`].
pub proof fn lemma_cursor_fields(font: GlyphFont, text: Seq<char>, justify: Justify)
    requires
        font.wf(),
        text.len() <= MAX_TEXT_LEN,
    ensures
        forall|i: int, j: int|
            0 <= i < spec_lines(text).len() && 0 <= j < spec_lines(text)[i].len()
                ==> #[trigger] cursor_fields_ok(font, text, justify, i, j),
{
    let lines = spec_lines(text);
    if text.len() > 0 {
        lemma_split_line_bounds(text);
        lemma_split_total(text);
    }
    assert forall|i: int, j: int|
        0 <= i < lines.len() && 0 <= j < lines[i].len() implies
        #[trigger] cursor_fields_ok(font, text, justify, i, j) by {
        lemma_cursor_at(font, lines, justify, i, j, lines.len() as int);
        lemma_x_bounds(font, justify, lines[i], j);
        lemma_y_bounds(font, i);
        lemma_chars_before_mono(lines, i, i);
        lemma_chars_before_mono(lines, i + 1, lines.len() as int);
        assert(chars_before(lines, i + 1) == chars_before(lines, i) + lines[i].len() + 1);
        assert(line_cursor(font, lines, justify, i, j).x
            == spec_x(font, justify, lines[i], j) as i64);
        assert(line_cursor(font, lines, justify, i, j).y == spec_y(font, i) as i64);
    }
}

/// Indexing into the concatenated cursor sequence: the cursor of character
/// `j` of line `i` sits right after the cursors of the lines before it.
pub proof fn lemma_cursor_at(
    font: GlyphFont,
    lines: Seq<Seq<char>>,
    justify: Justify,
    i: int,
    j: int,
    upto: int,
)
    requires
        0 <= i < upto <= lines.len(),
        0 <= j < lines[i].len(),
    ensures
        cursors_upto(font, lines, justify, i).len() + j
            < cursors_upto(font, lines, justify, upto).len(),
        cursors_upto(font, lines, justify, upto)[
            cursors_upto(font, lines, justify, i).len() + j]
            == line_cursor(font, lines, justify, i, j),
    decreases upto,
{
    crate::layout::lemma_cursor_count(font, lines, justify, i);
    crate::layout::lemma_cursor_count(font, lines, justify, upto);
    lemma_chars_before_mono(lines, i + 1, upto);
    lemma_chars_before_mono(lines, 0, i);
    if upto == i + 1 {
        assert(line_cursors(font, lines, justify, i)[j]
            == line_cursor(font, lines, justify, i, j));
    } else {
        lemma_cursor_at(font, lines, justify, i, j, upto - 1);
    }
}

/// Changing only the anchor translates every combined vertex by one
/// constant vector and leaves normals and indices untouched.
pub proof fn lemma_anchor_translates(
    font: GlyphFont,
    text: Seq<char>,
    justify: Justify,
    a1: Anchor,
    a2: Anchor,
)
    ensures
        ({
            let s1 = TextStyle { justify, anchor: a1 };
            let s2 = TextStyle { justify, anchor: a2 };
            let v1 = spec_combined_vertices(font, text, s1);
            let v2 = spec_combined_vertices(font, text, s2);
            &&& spec_combined_normals(font, text, s2) == spec_combined_normals(font, text, s1)
            &&& spec_combined_indices(font, text, s2) == spec_combined_indices(font, text, s1)
            &&& v2.len() == v1.len()
            &&& exists|dx: int, dy: int| #[trigger] shifted_by(v1, v2, dx, dy)
        }),
{
    let s1 = TextStyle { justify, anchor: a1 };
    let s2 = TextStyle { justify, anchor: a2 };
    let cs = spec_cursors(font, text, justify);
    let verts = spec_verts(font, cs);
    let v1 = spec_combined_vertices(font, text, s1);
    let v2 = spec_combined_vertices(font, text, s2);
    if verts.len() == 0 {
        assert(shifted_by(v1, v2, 0, 0));
    } else {
        let b = box_of(verts);
        let o1 = spec_anchor_offset(b, a1);
        let o2 = spec_anchor_offset(b, a2);
        assert forall|k: int| 0 <= k < v1.len() implies
            #[trigger] v2[k].x == v1[k].x + (o2.0 - o1.0) && v2[k].y == v1[k].y + (o2.1 - o1.1)
                && v2[k].z == v1[k].z by {
            assert(v1[k] == PointModel { x: verts[k].x + o1.0, y: verts[k].y + o1.1, z: verts[k].z });
            assert(v2[k] == PointModel { x: verts[k].x + o2.0, y: verts[k].y + o2.1, z: verts[k].z });
        }
        assert(shifted_by(v1, v2, o2.0 - o1.0, o2.1 - o1.1));
    }
}

/// One vertex buffer is the other, translated by `(dx, dy)` in the text
/// plane.
pub open spec fn shifted_by(v1: Seq<PointModel>, v2: Seq<PointModel>, dx: int, dy: int) -> bool {
    &&& v2.len() == v1.len()
    &&& forall|k: int| 0 <= k < v1.len() ==> {
            &&& (#[trigger] v2[k]).x == v1[k].x + dx
            &&& v2[k].y == v1[k].y + dy
            &&& v2[k].z == v1[k].z
        }
}

/// A text without newlines is a single line.
pub proof fn lemma_no_newline_single_line(s: Seq<char>)
    requires
        forall|q: int| 0 <= q < s.len() ==> s[q] != '\n',
        s.len() > 0,
    ensures
        spec_lines(s) == seq![s],
    decreases s.len(),
{
    let t = s.drop_first();
    assert(s[0] != '\n');
    if t.len() == 0 {
        assert(spec_split(t) == seq![Seq::<char>::empty()]);
        assert(spec_lines(s) =~~= seq![s]);
    } else {
        assert(forall|q: int| 0 <= q < t.len() ==> t[q] == s[q + 1] && #[trigger] t[q] != '\n');
        lemma_no_newline_single_line(t);
        assert(spec_split(t) == seq![t]);
        assert(seq![s[0]] + t =~= s);
        assert(spec_lines(s) =~~= seq![s]);
    }
}

/// The font draws this character exactly as wide as it advances: it has a
/// non-empty outline mesh whose local x extent runs from 0 to the glyph's
/// advance. Box width matches measured width only for glyphs of this shape;
/// an overhanging or narrow outline breaks the equality.
pub open spec fn glyph_spans_advance(font: GlyphFont, c: char) -> bool {
    &&& !spec_is_whitespace(c)
    &&& match crate::font::glyph_at(font.glyphs@, c) {
            Some(g) => match g.mesh {
                Some(m) => m.vertices@.len() > 0
                    && box_of(crate::geometry::models_of(m.vertices@)).min.x == 0
                    && box_of(crate::geometry::models_of(m.vertices@)).max.x == g.advance,
                None => false,
            },
            None => false,
        }
}

/// The merged x extent of the first `k` characters of a single-line text of
/// advance-spanning glyphs: from the line's justified start to the start
/// plus the width of those characters.
proof fn lemma_extent_prefix(font: GlyphFont, text: Seq<char>, justify: Justify, k: int)
    requires
        font.wf(),
        0 < text.len() <= MAX_TEXT_LEN,
        forall|q: int| 0 <= q < text.len() ==> #[trigger] text[q] != '\n',
        forall|q: int| 0 <= q < text.len() ==> glyph_spans_advance(font, #[trigger] text[q]),
        1 <= k <= text.len(),
    ensures
        ({
            let cs = spec_cursors(font, text, justify);
            let v = spec_verts(font, cs.subrange(0, k));
            &&& cs.len() == text.len()
            &&& v.len() > 0
            &&& box_of(v).min.x == spec_x_start(font, justify, text)
            &&& box_of(v).max.x == spec_x_start(font, justify, text)
                + width_prefix(font, text, k)
        }),
    decreases k,
{
    lemma_no_newline_single_line(text);
    let lines = spec_lines(text);
    assert(lines[0] == text);
    let cs = spec_cursors(font, text, justify);
    assert(cs =~= line_cursors(font, lines, justify, 0)) by {
        assert(cursors_upto(font, lines, justify, 0) =~= Seq::<LayoutCursor>::empty());
    }
    assert(cs.len() == text.len());
    let c = cs[k - 1];
    assert(c == line_cursor(font, lines, justify, 0, k - 1));
    lemma_x_bounds(font, justify, text, k - 1);
    lemma_y_bounds(font, 0);
    assert(c.x == spec_x(font, justify, text, k - 1));
    assert(glyph_spans_advance(font, text[k - 1]));
    let g = crate::font::glyph_at(font.glyphs@, text[k - 1])->Some_0;
    let m = g.mesh->Some_0;
    assert(emit_of(font, c) == Some(m));
    crate::font::lemma_glyph_at_wf(font.glyphs@, text[k - 1]);
    let locals = crate::geometry::models_of(m.vertices@);
    let tv = crate::assemble::translated_verts(m, c.x as int, c.y as int);
    assert(tv =~= crate::geometry::shift_points(locals, c.x as int, c.y as int));
    crate::geometry::lemma_box_shift(locals, c.x as int, c.y as int);
    assert(box_of(tv).min.x == c.x);
    assert(box_of(tv).max.x == c.x + g.advance);
    assert(advance_of(font, text[k - 1]) == g.advance);
    crate::font::lemma_width_prefix_bounds(font, text, k - 1);
    crate::font::lemma_width_prefix_bounds(font, text, k);
    assert(cs.subrange(0, k).drop_last() =~= cs.subrange(0, k - 1));
    assert(cs.subrange(0, k).last() == c);
    if k == 1 {
        assert(spec_verts(font, cs.subrange(0, 0)) =~= Seq::<PointModel>::empty()) by {
            assert(cs.subrange(0, 0) =~= Seq::<LayoutCursor>::empty());
        }
        assert(spec_verts(font, cs.subrange(0, 1)) =~= tv);
    } else {
        lemma_extent_prefix(font, text, justify, k - 1);
        let prev = spec_verts(font, cs.subrange(0, k - 1));
        crate::geometry::lemma_box_concat(prev, tv);
        assert(spec_verts(font, cs.subrange(0, k)) == prev + tv);
    }
}

/// For a single-line text whose glyphs each span exactly their advance, the
/// width of the merged bounding box before anchoring equals the measured
/// text width. A glyph whose outline overhangs or undershoots its advance,
/// a whitespace character, or a character without an outline breaks the
/// equality, so those inputs are excluded.
pub proof fn lemma_box_width_is_measure(font: GlyphFont, text: Seq<char>, justify: Justify)
    requires
        font.wf(),
        0 < text.len() <= MAX_TEXT_LEN,
        forall|q: int| 0 <= q < text.len() ==> #[trigger] text[q] != '\n',
        forall|q: int| 0 <= q < text.len() ==> glyph_spans_advance(font, #[trigger] text[q]),
    ensures
        ({
            let v = spec_verts(font, spec_cursors(font, text, justify));
            &&& v.len() > 0
            &&& box_of(v).max.x - box_of(v).min.x == text_width(font, text)
        }),
{
    lemma_extent_prefix(font, text, justify, text.len() as int);
    let cs = spec_cursors(font, text, justify);
    assert(cs.subrange(0, text.len() as int) =~= cs);
}

/// For a centered single-line text whose glyphs each span exactly their
/// advance, the merged box before anchoring is symmetric about x = 0, up to
/// the one unit that halving an odd width rounds away.
pub proof fn lemma_center_box_symmetric(font: GlyphFont, text: Seq<char>)
    requires
        font.wf(),
        0 < text.len() <= MAX_TEXT_LEN,
        forall|q: int| 0 <= q < text.len() ==> #[trigger] text[q] != '\n',
        forall|q: int| 0 <= q < text.len() ==> glyph_spans_advance(font, #[trigger] text[q]),
    ensures
        ({
            let v = spec_verts(font, spec_cursors(font, text, Justify::Center));
            &&& v.len() > 0
            &&& 0 <= box_of(v).min.x + box_of(v).max.x <= 1
        }),
{
    lemma_extent_prefix(font, text, Justify::Center, text.len() as int);
    let cs = spec_cursors(font, text, Justify::Center);
    assert(cs.subrange(0, text.len() as int) =~= cs);
    lemma_center_symmetric(font, text);
}

} // verus!
