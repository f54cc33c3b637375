//! The mesh assembler: merging per-glyph meshes into one indexed mesh,
//! tracking the bounding box, and anchoring the result.

use vstd::prelude::*;
use crate::{
    MAX_COORD, MAX_CURSOR, MAX_GLYPH_VERTICES, MAX_OFFSET, MAX_PIVOT, MAX_POSITION,
    MAX_TEXT_LEN, PIVOT_DENOM,
};
use crate::font::{glyph_at, spec_is_whitespace, is_whitespace_char, GlyphFont};
use crate::geometry::{
    box_extend, box_of, box_of_point, models_of, BoundingBox, BoxModel, CombinedMesh,
    GlyphMeshData, PointModel, Point3,
};
use crate::layout::{layout_cursors, spec_cursors, Justify, LayoutCursor};

verus! {

/// The point of the text's bounding box that is moved to the origin: one of
/// nine named corners, edge midpoints and the center, or a custom pivot
/// given as fractions of the box size (in units of [`PIVOT_DENOM`]) from its
/// minimum corner. Custom pivots are not clamped to the box.
#[derive(Clone, Copy, PartialEq, Eq, Structural, Debug)]
pub enum Anchor {
    TopLeft,
    TopCenter,
    TopRight,
    CenterLeft,
    Center,
    CenterRight,
    BottomLeft,
    BottomCenter,
    BottomRight,
    Custom(i64, i64),
}

impl Anchor {
    /// A well-formed anchor: a custom pivot stays within the machine bound.
    pub open spec fn wf(self) -> bool {
        match self {
            Anchor::Custom(px, py) => -MAX_PIVOT <= px <= MAX_PIVOT
                && -MAX_PIVOT <= py <= MAX_PIVOT,
            _ => true,
        }
    }
}

/// How a layout pass styles its text: per-line justification and the anchor
/// of the combined mesh.
#[derive(Clone, Copy, PartialEq, Eq, Structural, Debug)]
pub struct TextStyle {
    pub justify: Justify,
    pub anchor: Anchor,
}

/// The local mesh a laid-out character contributes: none for whitespace,
/// for a character the font has no glyph for, and for a glyph without a
/// usable outline.
pub open spec fn emit_of(font: GlyphFont, c: LayoutCursor) -> Option<GlyphMeshData> {
    if spec_is_whitespace(c.character) {
        None
    } else {
        match glyph_at(font.glyphs@, c.character) {
            Some(g) => g.mesh,
            None => None,
        }
    }
}

/// A local mesh's vertices, translated to a cursor.
pub open spec fn translated_verts(m: GlyphMeshData, dx: int, dy: int) -> Seq<PointModel> {
    m.vertices@.map_values(|p: Point3| PointModel { x: p.x + dx, y: p.y + dy, z: p.z as int })
}

/// The merged vertices one cursor contributes.
pub open spec fn cursor_verts(font: GlyphFont, c: LayoutCursor) -> Seq<PointModel> {
    match emit_of(font, c) {
        Some(m) => translated_verts(m, c.x as int, c.y as int),
        None => Seq::empty(),
    }
}

/// The merged normals one cursor contributes: the local normals unchanged.
pub open spec fn cursor_norms(font: GlyphFont, c: LayoutCursor) -> Seq<PointModel> {
    match emit_of(font, c) {
        Some(m) => models_of(m.normals@),
        None => Seq::empty(),
    }
}

/// The merged indices one cursor contributes: the local indices, shifted by
/// the vertex count merged before it.
pub open spec fn cursor_inds(font: GlyphFont, c: LayoutCursor, base: int) -> Seq<int> {
    match emit_of(font, c) {
        Some(m) => m.indices@.map_values(|i: u32| i + base),
        None => Seq::empty(),
    }
}

/// All vertices merged over a cursor sequence, in order.
pub open spec fn spec_verts(font: GlyphFont, cs: Seq<LayoutCursor>) -> Seq<PointModel>
    decreases cs.len(),
{
    if cs.len() == 0 {
        Seq::empty()
    } else {
        spec_verts(font, cs.drop_last()) + cursor_verts(font, cs.last())
    }
}

/// All normals merged over a cursor sequence, in order.
pub open spec fn spec_norms(font: GlyphFont, cs: Seq<LayoutCursor>) -> Seq<PointModel>
    decreases cs.len(),
{
    if cs.len() == 0 {
        Seq::empty()
    } else {
        spec_norms(font, cs.drop_last()) + cursor_norms(font, cs.last())
    }
}

/// All indices merged over a cursor sequence, each shifted by the running
/// vertex count.
pub open spec fn spec_inds(font: GlyphFont, cs: Seq<LayoutCursor>) -> Seq<int>
    decreases cs.len(),
{
    if cs.len() == 0 {
        Seq::empty()
    } else {
        spec_inds(font, cs.drop_last()) + cursor_inds(
            font,
            cs.last(),
            spec_verts(font, cs.drop_last()).len() as int,
        )
    }
}

/// What merging preserves, for a well-formed font: normals stay parallel to
/// vertices, the vertex count is bounded, every index lands strictly inside
/// the merged vertex buffer, whole triangles stay whole, and every merged
/// coordinate stays within bounds if the cursors do.
pub proof fn lemma_assembled_wf(font: GlyphFont, cs: Seq<LayoutCursor>)
    requires
        font.wf(),
        forall|k: int| 0 <= k < cs.len() ==> {
            let c = #[trigger] cs[k];
            -MAX_CURSOR <= c.x <= MAX_CURSOR && -MAX_CURSOR <= c.y <= MAX_CURSOR
        },
    ensures
        spec_norms(font, cs).len() == spec_verts(font, cs).len(),
        spec_verts(font, cs).len() <= cs.len() * (MAX_GLYPH_VERTICES as int),
        spec_inds(font, cs).len() % 3 == 0,
        forall|k: int| 0 <= k < spec_inds(font, cs).len()
            ==> 0 <= #[trigger] spec_inds(font, cs)[k] < spec_verts(font, cs).len(),
        forall|k: int| 0 <= k < spec_verts(font, cs).len() ==> {
            let p = #[trigger] spec_verts(font, cs)[k];
            -MAX_POSITION <= p.x <= MAX_POSITION && -MAX_POSITION <= p.y <= MAX_POSITION
                && -MAX_POSITION <= p.z <= MAX_POSITION
        },
    decreases cs.len(),
{
    if cs.len() > 0 {
        let d = cs.drop_last();
        let c = cs.last();
        assert(forall|k: int| 0 <= k < d.len() ==> #[trigger] d[k] == cs[k]);
        lemma_assembled_wf(font, d);
        crate::font::lemma_glyph_at_wf(font.glyphs@, c.character);
        assert((cs.len() - 1) * (MAX_GLYPH_VERTICES as int) + MAX_GLYPH_VERTICES
            == cs.len() * (MAX_GLYPH_VERTICES as int)) by (nonlinear_arith);
        match emit_of(font, c) {
            Some(m) => {
                assert(m.wf());
                assert(cursor_verts(font, c).len() == m.vertices@.len());
                assert(cursor_inds(font, c, spec_verts(font, d).len() as int).len() % 3 == 0);
            },
            None => {},
        }
    }
}

/// Computes, in units of [`PIVOT_DENOM`], a signed fraction of a box extent:
/// `size * p / PIVOT_DENOM`, rounded toward zero.
pub open spec fn pivot_frac(size: int, p: int) -> int
    recommends
        0 <= size,
{
    if p >= 0 {
        (size * p) / (PIVOT_DENOM as int)
    } else {
        -((size * (-p)) / (PIVOT_DENOM as int))
    }
}

/// The translation that moves the chosen anchor point of a bounding box to
/// the origin. Centers round down; a custom pivot measures fractions of the
/// box size from its minimum corner.
pub open spec fn spec_anchor_offset(b: BoxModel, a: Anchor) -> (int, int) {
    let size_x = b.max.x - b.min.x;
    let size_y = b.max.y - b.min.y;
    let cx = b.min.x + size_x / 2;
    let cy = b.min.y + size_y / 2;
    match a {
        Anchor::TopLeft => (-b.min.x, -b.max.y),
        Anchor::TopCenter => (-cx, -b.max.y),
        Anchor::TopRight => (-b.max.x, -b.max.y),
        Anchor::CenterLeft => (-b.min.x, -cy),
        Anchor::Center => (-cx, -cy),
        Anchor::CenterRight => (-b.max.x, -cy),
        Anchor::BottomLeft => (-b.min.x, -b.min.y),
        Anchor::BottomCenter => (-cx, -b.min.y),
        Anchor::BottomRight => (-b.max.x, -b.min.y),
        Anchor::Custom(px, py) => (
            -(b.min.x + pivot_frac(size_x, px as int)),
            -(b.min.y + pivot_frac(size_y, py as int)),
        ),
    }
}

/// Computes `size * p / PIVOT_DENOM` rounded toward zero.
fn pivot_frac_of(size: i64, p: i64) -> (r: i64)
    requires
        0 <= size <= 2 * MAX_POSITION,
        -MAX_PIVOT <= p <= MAX_PIVOT,
    ensures
        r == pivot_frac(size as int, p as int),
        -MAX_OFFSET + MAX_POSITION <= r <= MAX_OFFSET - MAX_POSITION,
{
    let m: u64 = if p >= 0 {
        p as u64
    } else {
        (-p) as u64
    };
    proof {
        assert((size as u64) * m == size * (m as int) <= 2 * (MAX_POSITION as int)
            * (MAX_PIVOT as int)) by (nonlinear_arith)
            requires
                0 <= size <= 2 * MAX_POSITION,
                0 <= m <= MAX_PIVOT;
    }
    let q: u64 = ((size as u64) * m) / (PIVOT_DENOM as u64);
    proof {
        vstd::arithmetic::div_mod::lemma_fundamental_div_mod(
            size * (m as int),
            PIVOT_DENOM as int,
        );
    }
    if p >= 0 {
        q as i64
    } else {
        -(q as i64)
    }
}

/// The anchor translation for a bounding box: the offset table over the
/// box's minimum, maximum and center.
pub fn anchor_offset(b: &BoundingBox, a: Anchor) -> (o: (i64, i64))
    requires
        a.wf(),
        -MAX_POSITION <= b.min.x <= b.max.x <= MAX_POSITION,
        -MAX_POSITION <= b.min.y <= b.max.y <= MAX_POSITION,
    ensures
        (o.0 as int, o.1 as int) == spec_anchor_offset(b.model(), a),
        -MAX_OFFSET <= o.0 <= MAX_OFFSET,
        -MAX_OFFSET <= o.1 <= MAX_OFFSET,
{
    let size_x = b.max.x - b.min.x;
    let size_y = b.max.y - b.min.y;
    proof {
        assert((size_x as u64) / 2 <= size_x) by (nonlinear_arith)
            requires 0 <= size_x;
        assert((size_y as u64) / 2 <= size_y) by (nonlinear_arith)
            requires 0 <= size_y;
    }
    let half_x = ((size_x as u64) / 2) as i64;
    let half_y = ((size_y as u64) / 2) as i64;
    let cx = b.min.x + half_x;
    let cy = b.min.y + half_y;
    match a {
        Anchor::TopLeft => (-b.min.x, -b.max.y),
        Anchor::TopCenter => (-cx, -b.max.y),
        Anchor::TopRight => (-b.max.x, -b.max.y),
        Anchor::CenterLeft => (-b.min.x, -cy),
        Anchor::Center => (-cx, -cy),
        Anchor::CenterRight => (-b.max.x, -cy),
        Anchor::BottomLeft => (-b.min.x, -b.min.y),
        Anchor::BottomCenter => (-cx, -b.min.y),
        Anchor::BottomRight => (-b.max.x, -b.min.y),
        Anchor::Custom(px, py) => {
            let fx = pivot_frac_of(size_x, px);
            let fy = pivot_frac_of(size_y, py);
            (-(b.min.x + fx), -(b.min.y + fy))
        },
    }
}

/// Merges the glyph meshes of a laid-out text into one indexed mesh, local
/// vertices translated to their cursors, indices shifted by the running
/// vertex count, and folds the bounding box of every merged vertex.
/// Whitespace and characters without a usable outline contribute nothing;
/// the box is `None` exactly when no vertex was merged.
pub fn assemble(font: &GlyphFont, cursors: &Vec<LayoutCursor>)
    -> (r: (CombinedMesh, Option<BoundingBox>))
    requires
        font.wf(),
        cursors@.len() <= MAX_TEXT_LEN,
        forall|k: int| 0 <= k < cursors@.len() ==> {
            let c = #[trigger] cursors@[k];
            -MAX_CURSOR <= c.x <= MAX_CURSOR && -MAX_CURSOR <= c.y <= MAX_CURSOR
        },
    ensures
        models_of(r.0.vertices@) == spec_verts(*font, cursors@),
        models_of(r.0.normals@) == spec_norms(*font, cursors@),
        r.0.indices@.map_values(|i: u32| i as int) == spec_inds(*font, cursors@),
        r.0.wf(),
        match r.1 {
            Some(b) => r.0.vertices@.len() > 0
                && b.model() == box_of(models_of(r.0.vertices@))
                && -MAX_POSITION <= b.min.x <= b.max.x <= MAX_POSITION
                && -MAX_POSITION <= b.min.y <= b.max.y <= MAX_POSITION
                && -MAX_POSITION <= b.min.z <= b.max.z <= MAX_POSITION
                && (forall|k: int| 0 <= k < r.0.vertices@.len()
                        ==> crate::geometry::box_contains(b, #[trigger] r.0.vertices@[k])),
            None => r.0.vertices@.len() == 0,
        },
        forall|k: int| 0 <= k < r.0.vertices@.len() ==> {
            let p = #[trigger] r.0.vertices@[k];
            -MAX_POSITION <= p.x <= MAX_POSITION && -MAX_POSITION <= p.y <= MAX_POSITION
                && -MAX_POSITION <= p.z <= MAX_POSITION
        },
{
    let n = cursors.len();
    let mut mesh = CombinedMesh { vertices: Vec::new(), normals: Vec::new(), indices: Vec::new() };
    let mut bbox: Option<BoundingBox> = None;
    let mut k: usize = 0;
    proof {
        assert(cursors@.subrange(0, 0) =~= Seq::<LayoutCursor>::empty());
        assert(models_of(mesh.vertices@) =~= spec_verts(*font, cursors@.subrange(0, 0)));
        assert(models_of(mesh.normals@) =~= spec_norms(*font, cursors@.subrange(0, 0)));
        assert(mesh.indices@.map_values(|i: u32| i as int)
            =~= spec_inds(*font, cursors@.subrange(0, 0)));
    }
    while k < n
        invariant
            k <= n,
            n == cursors@.len(),
            n <= MAX_TEXT_LEN,
            font.wf(),
            forall|q: int| 0 <= q < cursors@.len() ==> {
                let c = #[trigger] cursors@[q];
                -MAX_CURSOR <= c.x <= MAX_CURSOR && -MAX_CURSOR <= c.y <= MAX_CURSOR
            },
            models_of(mesh.vertices@) == spec_verts(*font, cursors@.subrange(0, k as int)),
            models_of(mesh.normals@) == spec_norms(*font, cursors@.subrange(0, k as int)),
            mesh.indices@.map_values(|i: u32| i as int)
                == spec_inds(*font, cursors@.subrange(0, k as int)),
            mesh.normals@.len() == mesh.vertices@.len(),
            mesh.vertices@.len() <= (k as int) * (MAX_GLYPH_VERTICES as int),
            forall|q: int| 0 <= q < mesh.vertices@.len() ==> {
                let p = #[trigger] mesh.vertices@[q];
                -MAX_POSITION <= p.x <= MAX_POSITION && -MAX_POSITION <= p.y <= MAX_POSITION
                    && -MAX_POSITION <= p.z <= MAX_POSITION
            },
            match bbox {
                Some(b) => mesh.vertices@.len() > 0
                    && b.model() == box_of(models_of(mesh.vertices@))
                    && -MAX_POSITION <= b.min.x <= b.max.x <= MAX_POSITION
                    && -MAX_POSITION <= b.min.y <= b.max.y <= MAX_POSITION
                    && -MAX_POSITION <= b.min.z <= b.max.z <= MAX_POSITION,
                None => mesh.vertices@.len() == 0,
            },
        decreases n - k,
    {
        let c = cursors[k];
        let ghost prefix = cursors@.subrange(0, k as int);
        proof {
            assert(cursors@.subrange(0, k + 1).drop_last() =~= prefix);
            assert(cursors@.subrange(0, k + 1).last() == c);
            assert((k as int) * (MAX_GLYPH_VERTICES as int)
                <= MAX_TEXT_LEN * (MAX_GLYPH_VERTICES as int)) by (nonlinear_arith)
                requires 0 <= k as int <= MAX_TEXT_LEN;
            assert((k as int + 1) * (MAX_GLYPH_VERTICES as int)
                == (k as int) * (MAX_GLYPH_VERTICES as int) + MAX_GLYPH_VERTICES)
                by (nonlinear_arith);
        }
        let mut emitted = false;
        if !is_whitespace_char(c.character) {
            if let Some(gi) = font.find_glyph(c.character) {
                let entry = &font.glyphs[gi];
                proof {
                    crate::font::lemma_glyph_at_wf(font.glyphs@, c.character);
                }
                if let Some(m) = &entry.mesh {
                    emitted = true;
                    proof {
                        assert(font.glyphs@[gi as int].wf());
                        assert(emit_of(*font, c) == Some(*m));
                    }
                    let base = mesh.vertices.len();
                    let base_u32 = base as u32;
                    let ghost old_verts = mesh.vertices@;
                    let ghost old_norms = mesh.normals@;
                    let ghost old_inds = mesh.indices@;
                    // Vertices, translated to the cursor, folding the box.
                    let vcount = m.vertices.len();
                    let mut l: usize = 0;
                    proof {
                        assert(models_of(mesh.vertices@) =~= spec_verts(*font, prefix)
                            + translated_verts(*m, c.x as int, c.y as int).subrange(0, 0));
                    }
                    while l < vcount
                        invariant
                            l <= vcount,
                            vcount == m.vertices@.len(),
                            m.wf(),
                            -MAX_CURSOR <= c.x <= MAX_CURSOR,
                            -MAX_CURSOR <= c.y <= MAX_CURSOR,
                            mesh.vertices@.len() == old_verts.len() + l,
                            old_verts.len() == base,
                            models_of(mesh.vertices@) == spec_verts(*font, prefix)
                                + translated_verts(*m, c.x as int, c.y as int)
                                    .subrange(0, l as int),
                            models_of(old_verts) == spec_verts(*font, prefix),
                            mesh.normals@ == old_norms,
                            mesh.indices@ == old_inds,
                            forall|q: int| 0 <= q < mesh.vertices@.len() ==> {
                                let p = #[trigger] mesh.vertices@[q];
                                -MAX_POSITION <= p.x <= MAX_POSITION
                                    && -MAX_POSITION <= p.y <= MAX_POSITION
                                    && -MAX_POSITION <= p.z <= MAX_POSITION
                            },
                            match bbox {
                                Some(b) => mesh.vertices@.len() > 0
                                    && b.model() == box_of(models_of(mesh.vertices@))
                                    && -MAX_POSITION <= b.min.x <= b.max.x <= MAX_POSITION
                                    && -MAX_POSITION <= b.min.y <= b.max.y <= MAX_POSITION
                                    && -MAX_POSITION <= b.min.z <= b.max.z <= MAX_POSITION,
                                None => mesh.vertices@.len() == 0,
                            },
                        decreases vcount - l,
                    {
                        let v = m.vertices[l];
                        let p = Point3 { x: v.x + c.x, y: v.y + c.y, z: v.z };
                        let ghost before = mesh.vertices@;
                        mesh.vertices.push(p);
                        proof {
                            assert(models_of(mesh.vertices@)
                                =~= models_of(before).push(p.model()));
                            assert(translated_verts(*m, c.x as int, c.y as int)
                                .subrange(0, l + 1)
                                =~= translated_verts(*m, c.x as int, c.y as int)
                                    .subrange(0, l as int)
                                    .push(translated_verts(*m, c.x as int, c.y as int)[l as int]));
                            assert(models_of(mesh.vertices@) =~= spec_verts(*font, prefix)
                                + translated_verts(*m, c.x as int, c.y as int)
                                    .subrange(0, l + 1));
                            if models_of(before).len() > 0 {
                                assert(models_of(before).push(p.model()).drop_last()
                                    =~= models_of(before));
                                assert(box_of(models_of(mesh.vertices@))
                                    == box_extend(box_of(models_of(before)), p.model()));
                            } else {
                                assert(box_of(models_of(mesh.vertices@))
                                    == box_of_point(p.model()));
                            }
                        }
                        bbox = match bbox {
                            None => Some(BoundingBox { min: p, max: p }),
                            Some(b) => Some(BoundingBox {
                                min: Point3 {
                                    x: if p.x < b.min.x { p.x } else { b.min.x },
                                    y: if p.y < b.min.y { p.y } else { b.min.y },
                                    z: if p.z < b.min.z { p.z } else { b.min.z },
                                },
                                max: Point3 {
                                    x: if p.x > b.max.x { p.x } else { b.max.x },
                                    y: if p.y > b.max.y { p.y } else { b.max.y },
                                    z: if p.z > b.max.z { p.z } else { b.max.z },
                                },
                            }),
                        };
                        l = l + 1;
                    }
                    // Normals, unchanged.
                    let ncount = m.normals.len();
                    let mut l: usize = 0;
                    proof {
                        assert(models_of(mesh.normals@) =~= spec_norms(*font, prefix)
                            + models_of(m.normals@).subrange(0, 0));
                    }
                    while l < ncount
                        invariant
                            l <= ncount,
                            ncount == m.normals@.len(),
                            models_of(mesh.normals@) == spec_norms(*font, prefix)
                                + models_of(m.normals@).subrange(0, l as int),
                            mesh.normals@.len() == spec_norms(*font, prefix).len() + l,
                            models_of(mesh.vertices@) == spec_verts(*font, prefix)
                                + translated_verts(*m, c.x as int, c.y as int),
                            mesh.vertices@.len() == base + m.vertices@.len(),
                            mesh.indices@ == old_inds,
                            forall|q: int| 0 <= q < mesh.vertices@.len() ==> {
                                let p = #[trigger] mesh.vertices@[q];
                                -MAX_POSITION <= p.x <= MAX_POSITION
                                    && -MAX_POSITION <= p.y <= MAX_POSITION
                                    && -MAX_POSITION <= p.z <= MAX_POSITION
                            },
                            match bbox {
                                Some(b) => mesh.vertices@.len() > 0
                                    && b.model() == box_of(models_of(mesh.vertices@))
                                    && -MAX_POSITION <= b.min.x <= b.max.x <= MAX_POSITION
                                    && -MAX_POSITION <= b.min.y <= b.max.y <= MAX_POSITION
                                    && -MAX_POSITION <= b.min.z <= b.max.z <= MAX_POSITION,
                                None => mesh.vertices@.len() == 0,
                            },
                        decreases ncount - l,
                    {
                        let ghost before = mesh.normals@;
                        mesh.normals.push(m.normals[l]);
                        proof {
                            assert(models_of(mesh.normals@)
                                =~= models_of(before).push(m.normals@[l as int].model()));
                            assert(models_of(m.normals@).subrange(0, l + 1)
                                =~= models_of(m.normals@).subrange(0, l as int)
                                    .push(models_of(m.normals@)[l as int]));
                            assert(models_of(mesh.normals@) =~= spec_norms(*font, prefix)
                                + models_of(m.normals@).subrange(0, l + 1));
                        }
                        l = l + 1;
                    }
                    // Indices, shifted by the vertex count merged before.
                    let icount = m.indices.len();
                    let mut l: usize = 0;
                    proof {
                        assert(mesh.indices@.map_values(|i: u32| i as int)
                            =~= spec_inds(*font, prefix)
                            + cursor_inds(*font, c, base as int).subrange(0, 0));
                    }
                    while l < icount
                        invariant
                            l <= icount,
                            icount == m.indices@.len(),
                            m.wf(),
                            base <= MAX_TEXT_LEN * (MAX_GLYPH_VERTICES as int),
                            base_u32 == base,
                            emit_of(*font, c) == Some(*m),
                            mesh.indices@.map_values(|i: u32| i as int)
                                == spec_inds(*font, prefix)
                                + cursor_inds(*font, c, base as int).subrange(0, l as int),
                            models_of(mesh.vertices@) == spec_verts(*font, prefix)
                                + translated_verts(*m, c.x as int, c.y as int),
                            mesh.vertices@.len() == base + m.vertices@.len(),
                            models_of(mesh.normals@) == spec_norms(*font, prefix)
                                + models_of(m.normals@),
                            mesh.normals@.len() == spec_norms(*font, prefix).len()
                                + m.normals@.len(),
                            forall|q: int| 0 <= q < mesh.vertices@.len() ==> {
                                let p = #[trigger] mesh.vertices@[q];
                                -MAX_POSITION <= p.x <= MAX_POSITION
                                    && -MAX_POSITION <= p.y <= MAX_POSITION
                                    && -MAX_POSITION <= p.z <= MAX_POSITION
                            },
                            match bbox {
                                Some(b) => mesh.vertices@.len() > 0
                                    && b.model() == box_of(models_of(mesh.vertices@))
                                    && -MAX_POSITION <= b.min.x <= b.max.x <= MAX_POSITION
                                    && -MAX_POSITION <= b.min.y <= b.max.y <= MAX_POSITION
                                    && -MAX_POSITION <= b.min.z <= b.max.z <= MAX_POSITION,
                                None => mesh.vertices@.len() == 0,
                            },
                        decreases icount - l,
                    {
                        let ghost before = mesh.indices@;
                        let shifted = m.indices[l] + base_u32;
                        mesh.indices.push(shifted);
                        proof {
                            assert(mesh.indices@.map_values(|i: u32| i as int)
                                =~= before.map_values(|i: u32| i as int)
                                    .push(shifted as int));
                            assert(cursor_inds(*font, c, base as int).subrange(0, l + 1)
                                =~= cursor_inds(*font, c, base as int).subrange(0, l as int)
                                    .push(cursor_inds(*font, c, base as int)[l as int]));
                            assert(mesh.indices@.map_values(|i: u32| i as int)
                                =~= spec_inds(*font, prefix)
                                + cursor_inds(*font, c, base as int).subrange(0, l + 1));
                        }
                        l = l + 1;
                    }
                    proof {
                        assert(cursor_inds(*font, c, base as int)
                            .subrange(0, m.indices@.len() as int)
                            =~= cursor_inds(*font, c, base as int));
                        assert(spec_verts(*font, prefix).len() == base);
                        assert(emit_of(*font, c) == Some(*m));
                        assert(models_of(mesh.vertices@)
                            =~= spec_verts(*font, cursors@.subrange(0, k + 1)));
                        assert(models_of(mesh.normals@)
                            =~= spec_norms(*font, cursors@.subrange(0, k + 1)));
                        assert(mesh.indices@.map_values(|i: u32| i as int)
                            =~= spec_inds(*font, cursors@.subrange(0, k + 1)));
                    }
                }
            }
        }
        proof {
            if !emitted {
                assert(emit_of(*font, c) is None);
                assert(models_of(mesh.vertices@)
                    =~= spec_verts(*font, cursors@.subrange(0, k + 1)));
                assert(models_of(mesh.normals@)
                    =~= spec_norms(*font, cursors@.subrange(0, k + 1)));
                assert(mesh.indices@.map_values(|i: u32| i as int)
                    =~= spec_inds(*font, cursors@.subrange(0, k + 1)));
            }
        }
        k = k + 1;
    }
    proof {
        assert(cursors@.subrange(0, n as int) =~= cursors@);
        lemma_assembled_wf(*font, cursors@);
        assert forall|q: int| 0 <= q < mesh.indices@.len() implies
            (#[trigger] mesh.indices@[q]) < mesh.vertices@.len() by {
            assert(mesh.indices@.map_values(|i: u32| i as int)[q] == mesh.indices@[q] as int);
            assert(spec_inds(*font, cursors@)[q] < spec_verts(*font, cursors@).len());
        }
        if bbox is Some {
            crate::geometry::lemma_box_of_bounds(models_of(mesh.vertices@));
            assert forall|q: int| 0 <= q < mesh.vertices@.len() implies
                crate::geometry::box_contains(bbox->Some_0, #[trigger] mesh.vertices@[q]) by {
                assert(models_of(mesh.vertices@)[q] == mesh.vertices@[q].model());
            }
        }
    }
    (mesh, bbox)
}

/// A merged vertex buffer after the anchor pass: untouched when empty, else
/// every vertex translated by the anchor offset of its bounding box.
pub open spec fn spec_anchor_shift(verts: Seq<PointModel>, a: Anchor) -> Seq<PointModel> {
    if verts.len() == 0 {
        verts
    } else {
        let off = spec_anchor_offset(box_of(verts), a);
        verts.map_values(|p: PointModel| PointModel { x: p.x + off.0, y: p.y + off.1, z: p.z })
    }
}

/// The vertices of the combined mesh of a text: the merged, translated
/// glyph vertices of its laid-out cursors, anchored.
pub open spec fn spec_combined_vertices(font: GlyphFont, text: Seq<char>, style: TextStyle)
    -> Seq<PointModel> {
    spec_anchor_shift(spec_verts(font, spec_cursors(font, text, style.justify)), style.anchor)
}

/// The normals of the combined mesh of a text: the local normals, merged
/// unchanged (translation does not affect orientation).
pub open spec fn spec_combined_normals(font: GlyphFont, text: Seq<char>, style: TextStyle)
    -> Seq<PointModel> {
    spec_norms(font, spec_cursors(font, text, style.justify))
}

/// The indices of the combined mesh of a text: the local indices, each
/// shifted by the vertex count merged before its glyph.
pub open spec fn spec_combined_indices(font: GlyphFont, text: Seq<char>, style: TextStyle)
    -> Seq<int> {
    spec_inds(font, spec_cursors(font, text, style.justify))
}

/// Translates every vertex of a merged mesh by one offset; normals and
/// indices stay untouched.
pub fn translate_mesh(mesh: &mut CombinedMesh, ox: i64, oy: i64)
    requires
        forall|k: int| 0 <= k < old(mesh).vertices@.len() ==> {
            let p = #[trigger] old(mesh).vertices@[k];
            -MAX_POSITION <= p.x <= MAX_POSITION && -MAX_POSITION <= p.y <= MAX_POSITION
        },
        -MAX_OFFSET <= ox <= MAX_OFFSET,
        -MAX_OFFSET <= oy <= MAX_OFFSET,
    ensures
        final(mesh).vertices@.len() == old(mesh).vertices@.len(),
        forall|k: int| 0 <= k < final(mesh).vertices@.len() ==> {
            let p = #[trigger] final(mesh).vertices@[k];
            p.x == old(mesh).vertices@[k].x + ox && p.y == old(mesh).vertices@[k].y + oy
                && p.z == old(mesh).vertices@[k].z
        },
        final(mesh).normals@ == old(mesh).normals@,
        final(mesh).indices@ == old(mesh).indices@,
{
    let n = mesh.vertices.len();
    let mut k: usize = 0;
    while k < n
        invariant
            k <= n,
            n == mesh.vertices@.len(),
            mesh.vertices@.len() == old(mesh).vertices@.len(),
            -MAX_OFFSET <= ox <= MAX_OFFSET,
            -MAX_OFFSET <= oy <= MAX_OFFSET,
            forall|q: int| 0 <= q < old(mesh).vertices@.len() ==> {
                let p = #[trigger] old(mesh).vertices@[q];
                -MAX_POSITION <= p.x <= MAX_POSITION && -MAX_POSITION <= p.y <= MAX_POSITION
            },
            forall|q: int| 0 <= q < k ==> {
                let p = #[trigger] mesh.vertices@[q];
                p.x == old(mesh).vertices@[q].x + ox && p.y == old(mesh).vertices@[q].y + oy
                    && p.z == old(mesh).vertices@[q].z
            },
            forall|q: int| k <= q < n
                ==> #[trigger] mesh.vertices@[q] == old(mesh).vertices@[q],
            mesh.normals@ == old(mesh).normals@,
            mesh.indices@ == old(mesh).indices@,
        decreases n - k,
    {
        let v = mesh.vertices[k];
        let p = Point3 { x: v.x + ox, y: v.y + oy, z: v.z };
        mesh.vertices.set(k, p);
        k = k + 1;
    }
}

/// Lays out a text and merges it into one anchored, indexed mesh. The lines
/// are justified, each character's glyph (where the font has one) is
/// translated to its cursor and merged with its indices shifted, and the
/// whole buffer is translated so that the anchor point of its bounding box
/// lands on the origin. Empty text, or text without any usable outline,
/// yields the empty mesh.
pub fn layout_combined(font: &GlyphFont, text: &Vec<char>, style: TextStyle)
    -> (r: CombinedMesh)
    requires
        font.wf(),
        text@.len() <= MAX_TEXT_LEN,
        style.anchor.wf(),
    ensures
        r.wf(),
        models_of(r.vertices@) == spec_combined_vertices(*font, text@, style),
        models_of(r.normals@) == spec_combined_normals(*font, text@, style),
        r.indices@.map_values(|i: u32| i as int) == spec_combined_indices(*font, text@, style),
{
    let cursors = layout_cursors(font, text, style.justify);
    let ghost cs = spec_cursors(*font, text@, style.justify);
    let (mut mesh, bbox) = assemble(font, &cursors);
    if let Some(b) = bbox {
        let off = anchor_offset(&b, style.anchor);
        let ghost pre = mesh.vertices@;
        translate_mesh(&mut mesh, off.0, off.1);
        proof {
            assert(models_of(pre) == spec_verts(*font, cs));
            assert(b.model() == box_of(spec_verts(*font, cs)));
            assert(models_of(mesh.vertices@)
                =~= spec_anchor_shift(spec_verts(*font, cs), style.anchor));
        }
    } else {
        proof {
            assert(models_of(mesh.vertices@).len() == 0);
            assert(models_of(mesh.vertices@)
                =~= spec_anchor_shift(spec_verts(*font, cs), style.anchor));
        }
    }
    mesh
}

} // verus!
