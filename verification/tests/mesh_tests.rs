//! Tests of the mesh assembler, the anchor pass and the placement planner.

use text_mesh::assemble::{anchor_offset, assemble, layout_combined, Anchor, TextStyle};
use text_mesh::font::{advance, measure, GlyphEntry, GlyphFont};
use text_mesh::geometry::{BoundingBox, GlyphMeshData, Point3};
use text_mesh::layout::{layout_cursors, Justify};
use text_mesh::placement::layout_placements;

fn p(x: i64, y: i64, z: i64) -> Point3 {
    Point3 { x, y, z }
}

/// A triangle covering exactly [0, advance] x [0, 700] in x.
fn tri_mesh(advance: i64) -> GlyphMeshData {
    GlyphMeshData {
        vertices: vec![p(0, 0, -150), p(advance, 0, -150), p(0, 700, 150)],
        normals: vec![p(0, 0, 1000), p(0, 0, 1000), p(0, 0, 1000)],
        indices: vec![0, 1, 2],
    }
}

fn glyph(c: char, advance: i64, with_mesh: bool) -> GlyphEntry {
    GlyphEntry {
        character: c,
        advance,
        mesh: if with_mesh { Some(tri_mesh(advance)) } else { None },
    }
}

fn test_font() -> GlyphFont {
    GlyphFont {
        ascender: 700,
        descender: -200,
        line_gap: 100,
        glyphs: vec![
            glyph('A', 500, true),
            glyph('B', 600, true),
            glyph(' ', 300, false),
            glyph('.', 200, false),
        ],
    }
}

fn chars(s: &str) -> Vec<char> {
    s.chars().collect()
}

fn style(justify: Justify, anchor: Anchor) -> TextStyle {
    TextStyle { justify, anchor }
}

#[test]
fn combined_merges_and_shifts_indices() {
    let font = test_font();
    let text = chars("AB");
    let cursors = layout_cursors(&font, &text, Justify::Left);
    let (mesh, bbox) = assemble(&font, &cursors);
    // Two triangles, indices of the second shifted by the first's 3 vertices.
    assert_eq!(mesh.vertices.len(), 6);
    assert_eq!(mesh.normals.len(), 6);
    assert_eq!(mesh.indices, vec![0, 1, 2, 3, 4, 5]);
    // 'A' sits at x = 0, 'B' at x = 500.
    assert_eq!(mesh.vertices[0], p(0, 0, -150));
    assert_eq!(mesh.vertices[1], p(500, 0, -150));
    assert_eq!(mesh.vertices[3], p(500, 0, -150));
    assert_eq!(mesh.vertices[4], p(1100, 0, -150));
    // Normals come through untranslated.
    assert_eq!(mesh.normals[0], p(0, 0, 1000));
    let b = bbox.expect("two glyphs must produce a bounding box");
    assert_eq!(b.min, p(0, 0, -150));
    assert_eq!(b.max, p(1100, 700, 150));
}

#[test]
fn index_integrity_holds() {
    let font = test_font();
    for text in ["A", "AB", "A B", "A\nB", " ", ""] {
        let mesh = layout_combined(
            &font,
            &chars(text),
            style(Justify::Left, Anchor::BottomLeft),
        );
        for &i in &mesh.indices {
            assert!((i as usize) < mesh.vertices.len());
        }
        if mesh.vertices.is_empty() {
            assert!(mesh.indices.is_empty());
        }
        assert_eq!(mesh.normals.len(), mesh.vertices.len());
    }
}

#[test]
fn empty_text_combined_is_empty() {
    let font = test_font();
    let mesh = layout_combined(&font, &Vec::new(), style(Justify::Left, Anchor::Center));
    assert_eq!(mesh.vertices.len(), 0);
    assert_eq!(mesh.normals.len(), 0);
    assert_eq!(mesh.indices.len(), 0);
}

#[test]
fn whitespace_only_combined_is_empty() {
    let font = test_font();
    let mesh = layout_combined(&font, &chars("  \n "), style(Justify::Left, Anchor::Center));
    assert_eq!(mesh.vertices.len(), 0);
    assert_eq!(mesh.indices.len(), 0);
}

#[test]
fn box_width_matches_measure() {
    // Every glyph of this font spans exactly its advance, so the unanchored
    // box width equals the measured width of a single-line text.
    let font = test_font();
    let text = chars("AAB");
    let cursors = layout_cursors(&font, &text, Justify::Left);
    let (_, bbox) = assemble(&font, &cursors);
    let b = bbox.expect("glyph text must produce a box");
    let (width, _) = measure(&font, &text);
    assert_eq!(b.max.x - b.min.x, width);
}

#[test]
fn anchor_offsets_follow_the_table() {
    let b = BoundingBox { min: p(-100, -50, -10), max: p(300, 150, 10) };
    // size = (400, 200), center = (100, 50).
    assert_eq!(anchor_offset(&b, Anchor::TopLeft), (100, -150));
    assert_eq!(anchor_offset(&b, Anchor::TopCenter), (-100, -150));
    assert_eq!(anchor_offset(&b, Anchor::TopRight), (-300, -150));
    assert_eq!(anchor_offset(&b, Anchor::CenterLeft), (100, -50));
    assert_eq!(anchor_offset(&b, Anchor::Center), (-100, -50));
    assert_eq!(anchor_offset(&b, Anchor::CenterRight), (-300, -50));
    assert_eq!(anchor_offset(&b, Anchor::BottomLeft), (100, 50));
    assert_eq!(anchor_offset(&b, Anchor::BottomCenter), (-100, 50));
    assert_eq!(anchor_offset(&b, Anchor::BottomRight), (-300, 50));
    // Custom pivot in thousandths: (250, 500) is a quarter along x, half
    // along y: pivot point (0, 50).
    assert_eq!(anchor_offset(&b, Anchor::Custom(250, 500)), (0, -50));
    // Out-of-range pivots are not clamped.
    assert_eq!(anchor_offset(&b, Anchor::Custom(2000, -500)), (-700, 150));
}

#[test]
fn bottom_left_anchor_moves_min_to_origin() {
    let font = test_font();
    let mesh = layout_combined(&font, &chars("AB"), style(Justify::Center, Anchor::BottomLeft));
    let min_x = mesh.vertices.iter().map(|v| v.x).min().unwrap();
    let min_y = mesh.vertices.iter().map(|v| v.y).min().unwrap();
    assert_eq!(min_x, 0);
    assert_eq!(min_y, 0);
}

#[test]
fn changing_anchor_translates_by_a_constant() {
    // Changing only the anchor translates every vertex by one constant
    // vector and leaves indices and normals untouched.
    let font = test_font();
    let text = chars("AB\nA");
    let m1 = layout_combined(&font, &text, style(Justify::Left, Anchor::TopRight));
    let m2 = layout_combined(&font, &text, style(Justify::Left, Anchor::Custom(250, 500)));
    assert_eq!(m1.indices, m2.indices);
    assert_eq!(m1.vertices.len(), m2.vertices.len());
    assert_eq!(m1.normals.len(), m2.normals.len());
    for (n1, n2) in m1.normals.iter().zip(m2.normals.iter()) {
        assert_eq!(n1, n2);
    }
    let dx = m2.vertices[0].x - m1.vertices[0].x;
    let dy = m2.vertices[0].y - m1.vertices[0].y;
    for (v1, v2) in m1.vertices.iter().zip(m2.vertices.iter()) {
        assert_eq!(v2.x - v1.x, dx);
        assert_eq!(v2.y - v1.y, dy);
        assert_eq!(v2.z, v1.z);
    }
}

#[test]
fn placements_skip_glyphless_characters() {
    // A zero-width, outline-less character produces no placement, and the
    // following character's position reflects its (zero) advance.
    let font = test_font();
    let text = chars("A\u{200B}B");
    let placements = layout_placements(&font, &text, style(Justify::Left, Anchor::Center));
    assert_eq!(placements.len(), 2);
    assert_eq!(placements[0].character, 'A');
    assert_eq!(placements[1].character, 'B');
    assert_eq!(
        placements[1].position.x,
        placements[0].position.x + advance(&font, 'A'),
    );
}

#[test]
fn placements_carry_untranslated_meshes() {
    let font = test_font();
    let text = chars("AB");
    let placements = layout_placements(&font, &text, style(Justify::Left, Anchor::Center));
    assert_eq!(placements.len(), 2);
    // Local meshes stay in glyph space; only the position moves.
    assert_eq!(placements[0].mesh.vertices[0], p(0, 0, -150));
    assert_eq!(placements[1].mesh.vertices[0], p(0, 0, -150));
    assert_eq!(placements[0].position, p(0, 0, 0));
    assert_eq!(placements[1].position, p(500, 0, 0));
    assert_eq!(placements[1].mesh.indices, vec![0, 1, 2]);
    assert_eq!((placements[0].line_index, placements[0].char_index), (0, 0));
    assert_eq!((placements[1].line_index, placements[1].char_index), (0, 1));
}

#[test]
fn placements_skip_whitespace_but_count_it() {
    let font = test_font();
    let text = chars("A B\nA");
    let placements = layout_placements(&font, &text, style(Justify::Left, Anchor::Center));
    assert_eq!(placements.len(), 3);
    assert_eq!(placements[0].character, 'A');
    assert_eq!((placements[1].character, placements[1].char_index), ('B', 2));
    assert_eq!(placements[1].position.x, 500 + 300);
    // The second line's 'A': separator counted, one line height down.
    assert_eq!((placements[2].character, placements[2].char_index), ('A', 4));
    assert_eq!(placements[2].position, p(0, -1000, 0));
}

#[test]
fn glyph_without_outline_contributes_advance_only() {
    // '.' has an advance but no outline: it moves the cursor yet never
    // reaches the mesh.
    let font = test_font();
    let text = chars("A.B");
    let placements = layout_placements(&font, &text, style(Justify::Left, Anchor::Center));
    assert_eq!(placements.len(), 2);
    assert_eq!(placements[1].character, 'B');
    assert_eq!(placements[1].position.x, 500 + 200);
    let cursors = layout_cursors(&font, &text, Justify::Left);
    let (mesh, _) = assemble(&font, &cursors);
    assert_eq!(mesh.vertices.len(), 6);
}

#[test]
fn bounding_box_contains_every_vertex() {
    let font = test_font();
    let cursors = layout_cursors(&font, &chars("AB\nA B"), Justify::Center);
    let (mesh, bbox) = assemble(&font, &cursors);
    let b = bbox.expect("glyph text must produce a box");
    for v in &mesh.vertices {
        assert!(b.min.x <= v.x && v.x <= b.max.x);
        assert!(b.min.y <= v.y && v.y <= b.max.y);
        assert!(b.min.z <= v.z && v.z <= b.max.z);
    }
}

#[test]
fn empty_text_has_no_placements() {
    let font = test_font();
    let placements = layout_placements(&font, &Vec::new(), style(Justify::Left, Anchor::Center));
    assert_eq!(placements.len(), 0);
}
