//! Tests of the metrics queries and the line layout engine.

use text_mesh::font::{advance, is_whitespace_char, measure, GlyphEntry, GlyphFont};
use text_mesh::geometry::{GlyphMeshData, Point3};
use text_mesh::layout::{layout_cursors, split_lines, Justify};
use text_mesh::WHITESPACE_FALLBACK_ADVANCE;

fn p(x: i64, y: i64, z: i64) -> Point3 {
    Point3 { x, y, z }
}

/// A quad covering exactly [0, advance] x [0, 700], extruded flat.
fn quad_mesh(advance: i64) -> GlyphMeshData {
    GlyphMeshData {
        vertices: vec![p(0, 0, 0), p(advance, 0, 0), p(advance, 700, 0), p(0, 700, 0)],
        normals: vec![p(0, 0, 1000), p(0, 0, 1000), p(0, 0, 1000), p(0, 0, 1000)],
        indices: vec![0, 1, 2, 0, 2, 3],
    }
}

fn glyph(c: char, advance: i64, with_mesh: bool) -> GlyphEntry {
    GlyphEntry {
        character: c,
        advance,
        mesh: if with_mesh { Some(quad_mesh(advance)) } else { None },
    }
}

/// Ascender 700, descender -200, line gap 100: line height 1000.
fn test_font() -> GlyphFont {
    GlyphFont {
        ascender: 700,
        descender: -200,
        line_gap: 100,
        glyphs: vec![
            glyph('A', 500, true),
            glyph('B', 600, true),
            glyph('H', 550, true),
            glyph('i', 250, true),
            glyph('Y', 580, true),
            glyph('o', 480, true),
            glyph('u', 470, true),
            glyph(' ', 300, false),
            glyph('a', 460, true),
            glyph('b', 465, true),
        ],
    }
}

fn chars(s: &str) -> Vec<char> {
    s.chars().collect()
}

#[test]
fn font_line_height() {
    let font = test_font();
    assert_eq!(font.line_height(), 1000);
    assert_eq!(font.line_height(), font.ascender - font.descender + font.line_gap);
}

#[test]
fn whitespace_classification() {
    assert!(is_whitespace_char(' '));
    assert!(is_whitespace_char('\n'));
    assert!(is_whitespace_char('\t'));
    assert!(is_whitespace_char('\u{3000}'));
    assert!(!is_whitespace_char('A'));
    assert!(!is_whitespace_char('\u{200B}'));
}

#[test]
fn advance_of_known_glyph() {
    let font = test_font();
    assert_eq!(advance(&font, 'A'), 500);
    assert_eq!(advance(&font, ' '), 300);
}

#[test]
fn advance_fallbacks() {
    let font = test_font();
    // Whitespace the font has no glyph for falls back to the fixed advance.
    assert_eq!(advance(&font, '\t'), WHITESPACE_FALLBACK_ADVANCE);
    assert_eq!(advance(&font, '\n'), WHITESPACE_FALLBACK_ADVANCE);
    // A non-whitespace character without a glyph consumes nothing.
    assert_eq!(advance(&font, '\u{200B}'), 0);
    assert_eq!(advance(&font, 'Z'), 0);
}

#[test]
fn measure_sums_advances() {
    let font = test_font();
    let text = chars("Hiu");
    let (width, positions) = measure(&font, &text);
    assert_eq!(width, 550 + 250 + 470);
    assert_eq!(positions.len(), 3);
    assert_eq!(positions[0], (0, 0));
    assert_eq!(positions[1], (1, 550));
    assert_eq!(positions[2], (2, 550 + 250));
    // Positions never decrease.
    for w in positions.windows(2) {
        assert!(w[0].1 <= w[1].1);
    }
}

#[test]
fn measure_empty_text() {
    let font = test_font();
    let (width, positions) = measure(&font, &Vec::new());
    assert_eq!(width, 0);
    assert_eq!(positions.len(), 0);
}

#[test]
fn split_lines_at_newlines() {
    let lines = split_lines(&chars("Hi\nYou"));
    assert_eq!(lines.len(), 2);
    assert_eq!(lines[0], chars("Hi"));
    assert_eq!(lines[1], chars("You"));

    let lines = split_lines(&chars("a\n"));
    assert_eq!(lines.len(), 2);
    assert_eq!(lines[0], chars("a"));
    assert_eq!(lines[1], Vec::new());

    let lines = split_lines(&Vec::new());
    assert_eq!(lines.len(), 0);
}

#[test]
fn two_lines_left_justified() {
    // Line 2 sits exactly one line height below line 1, and with `Left`
    // justification both lines start at x = 0.
    let font = test_font();
    let cursors = layout_cursors(&font, &chars("Hi\nYou"), Justify::Left);
    assert_eq!(cursors.len(), 5);
    let h = &cursors[0];
    assert_eq!(h.character, 'H');
    assert_eq!((h.line_index, h.char_index), (0, 0));
    assert_eq!((h.x, h.y), (0, 0));
    let i = &cursors[1];
    assert_eq!(i.character, 'i');
    assert_eq!((i.line_index, i.char_index), (0, 1));
    assert_eq!((i.x, i.y), (550, 0));
    // The implicit newline separator consumes one char index.
    let y = &cursors[2];
    assert_eq!(y.character, 'Y');
    assert_eq!((y.line_index, y.char_index), (1, 3));
    assert_eq!((y.x, y.y), (0, -1000));
    let o = &cursors[3];
    assert_eq!((o.character, o.x, o.y), ('o', 580, -1000));
    let u = &cursors[4];
    assert_eq!((u.character, u.char_index, u.x, u.y), ('u', 5, 580 + 480, -1000));
}

#[test]
fn center_justification_is_symmetric() {
    // Width of "Hi" is 800, so the centered line starts at -400 and its
    // cursor extent [-400, 400] has midpoint 0.
    let font = test_font();
    let cursors = layout_cursors(&font, &chars("Hi"), Justify::Center);
    assert_eq!(cursors[0].x, -400);
    let end = cursors[1].x + advance(&font, 'i');
    assert_eq!(cursors[0].x + end, 0);
}

#[test]
fn right_justification_ends_at_origin() {
    let font = test_font();
    let cursors = layout_cursors(&font, &chars("Hi"), Justify::Right);
    assert_eq!(cursors[0].x, -800);
    assert_eq!(cursors[1].x + advance(&font, 'i'), 0);
}

#[test]
fn whitespace_line_shifts_next_line() {
    // The whitespace-only middle line owns a line index, so 'b' lands two
    // line heights down, and the blank line's characters keep their cursors.
    let font = test_font();
    let cursors = layout_cursors(&font, &chars("a\n \nb"), Justify::Left);
    assert_eq!(cursors.len(), 3);
    assert_eq!((cursors[0].character, cursors[0].y), ('a', 0));
    assert_eq!((cursors[1].character, cursors[1].line_index, cursors[1].y), (' ', 1, -1000));
    assert_eq!((cursors[2].character, cursors[2].line_index, cursors[2].y), ('b', 2, -2000));
}

#[test]
fn empty_line_advances_cursor_and_index() {
    let font = test_font();
    let cursors = layout_cursors(&font, &chars("a\n\nb"), Justify::Left);
    assert_eq!(cursors.len(), 2);
    assert_eq!((cursors[0].character, cursors[0].y, cursors[0].char_index), ('a', 0, 0));
    assert_eq!((cursors[1].character, cursors[1].y, cursors[1].char_index), ('b', -2000, 3));
}

#[test]
fn glyph_metrics_queries() {
    let font = test_font();
    let m = font.glyph_metrics('A').expect("'A' has a glyph");
    assert!(m.advance > 0);
    assert_eq!(m.advance, 500);
    assert!(m.has_outline);
    let space = font.glyph_metrics(' ').expect("space has a glyph");
    assert!(space.advance > 0);
    assert!(!space.has_outline);
    assert!(font.glyph_metrics('\u{1F600}').is_none());
}

#[test]
fn empty_text_has_no_cursors() {
    let font = test_font();
    let cursors = layout_cursors(&font, &Vec::new(), Justify::Left);
    assert_eq!(cursors.len(), 0);
}
