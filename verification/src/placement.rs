//! The glyph placement planner: one placement per character with a usable
//! outline, carrying its untranslated local mesh and its cursor position.

use vstd::prelude::*;
use crate::{MAX_CURSOR, MAX_TEXT_LEN};
use crate::font::GlyphFont;
use crate::geometry::{models_of, GlyphMeshData, Point3, PointModel};
use crate::layout::{layout_cursors, spec_cursors, LayoutCursor};
use crate::assemble::{emit_of, TextStyle};

verus! {

/// One placed glyph of the per-entity pipeline: the character, its source
/// position, its local (untranslated) mesh, and the cursor position at
/// which the host spawns it.
#[derive(Clone, Debug)]
pub struct GlyphPlacement {
    pub character: char,
    pub line_index: usize,
    pub char_index: usize,
    pub mesh: GlyphMeshData,
    pub position: Point3,
}

/// The mathematical value of a placement: its mesh as sequences, its
/// position as unbounded integers.
#[verifier::ext_equal]
pub struct PlacementModel {
    pub character: char,
    pub line_index: int,
    pub char_index: int,
    pub vertices: Seq<PointModel>,
    pub normals: Seq<PointModel>,
    pub indices: Seq<int>,
    pub position: PointModel,
}

impl GlyphPlacement {
    /// The mathematical value of this placement.
    pub open spec fn model(self) -> PlacementModel {
        PlacementModel {
            character: self.character,
            line_index: self.line_index as int,
            char_index: self.char_index as int,
            vertices: models_of(self.mesh.vertices@),
            normals: models_of(self.mesh.normals@),
            indices: self.mesh.indices@.map_values(|i: u32| i as int),
            position: self.position.model(),
        }
    }
}

/// The placement one laid-out character yields, if it emits geometry.
pub open spec fn placement_of(font: GlyphFont, c: LayoutCursor) -> Option<PlacementModel> {
    match emit_of(font, c) {
        Some(m) => Some(PlacementModel {
            character: c.character,
            line_index: c.line_index as int,
            char_index: c.char_index as int,
            vertices: models_of(m.vertices@),
            normals: models_of(m.normals@),
            indices: m.indices@.map_values(|i: u32| i as int),
            position: PointModel { x: c.x as int, y: c.y as int, z: 0 },
        }),
        None => None,
    }
}

/// The placements of a laid-out text, in source order: one per character
/// with a usable outline. Whitespace, characters the font has no glyph for,
/// and failed outlines are omitted entirely.
pub open spec fn spec_placements(font: GlyphFont, cs: Seq<LayoutCursor>) -> Seq<PlacementModel>
    decreases cs.len(),
{
    if cs.len() == 0 {
        Seq::empty()
    } else {
        let rest = spec_placements(font, cs.drop_last());
        match placement_of(font, cs.last()) {
            Some(p) => rest.push(p),
            None => rest,
        }
    }
}

/// Copies a point buffer.
fn copy_points(src: &Vec<Point3>) -> (r: Vec<Point3>)
    ensures
        r@ == src@,
{
    let n = src.len();
    let mut r: Vec<Point3> = Vec::new();
    let mut k: usize = 0;
    while k < n
        invariant
            k <= n,
            n == src@.len(),
            r@ =~= src@.subrange(0, k as int),
        decreases n - k,
    {
        r.push(src[k]);
        proof {
            assert(r@ =~= src@.subrange(0, k + 1));
        }
        k = k + 1;
    }
    proof {
        assert(src@.subrange(0, n as int) =~= src@);
    }
    r
}

/// Copies an index buffer.
fn copy_indices(src: &Vec<u32>) -> (r: Vec<u32>)
    ensures
        r@ == src@,
{
    let n = src.len();
    let mut r: Vec<u32> = Vec::new();
    let mut k: usize = 0;
    while k < n
        invariant
            k <= n,
            n == src@.len(),
            r@ =~= src@.subrange(0, k as int),
        decreases n - k,
    {
        r.push(src[k]);
        proof {
            assert(r@ =~= src@.subrange(0, k + 1));
        }
        k = k + 1;
    }
    proof {
        assert(src@.subrange(0, n as int) =~= src@);
    }
    r
}

/// Copies a local glyph mesh.
fn copy_mesh(m: &GlyphMeshData) -> (r: GlyphMeshData)
    ensures
        r.vertices@ == m.vertices@,
        r.normals@ == m.normals@,
        r.indices@ == m.indices@,
{
    GlyphMeshData {
        vertices: copy_points(&m.vertices),
        normals: copy_points(&m.normals),
        indices: copy_indices(&m.indices),
    }
}

/// Plans the per-entity layout of a text: lays it out like the combined
/// pipeline, but emits one placement per character with a usable outline
/// instead of merging; each placement carries the character's untranslated
/// local mesh and its cursor position. A full pass replaces all prior
/// output, so the result is the whole plan for this text and style.
pub fn layout_placements(font: &GlyphFont, text: &Vec<char>, style: TextStyle)
    -> (r: Vec<GlyphPlacement>)
    requires
        font.wf(),
        text@.len() <= MAX_TEXT_LEN,
    ensures
        r@.map_values(|p: GlyphPlacement| p.model())
            == spec_placements(*font, spec_cursors(*font, text@, style.justify)),
{
    let cursors = layout_cursors(font, text, style.justify);
    let ghost cs = spec_cursors(*font, text@, style.justify);
    let n = cursors.len();
    let mut r: Vec<GlyphPlacement> = Vec::new();
    let mut k: usize = 0;
    proof {
        assert(cs.subrange(0, 0) =~= Seq::<LayoutCursor>::empty());
        assert(r@.map_values(|p: GlyphPlacement| p.model())
            =~= spec_placements(*font, cs.subrange(0, 0)));
    }
    while k < n
        invariant
            k <= n,
            n == cursors@.len(),
            font.wf(),
            cursors@ == cs,
            r@.map_values(|p: GlyphPlacement| p.model())
                == spec_placements(*font, cs.subrange(0, k as int)),
        decreases n - k,
    {
        let c = cursors[k];
        proof {
            assert(cs.subrange(0, k + 1).drop_last() =~= cs.subrange(0, k as int));
            assert(cs.subrange(0, k + 1).last() == c);
        }
        if !crate::font::is_whitespace_char(c.character) {
            if let Some(gi) = font.find_glyph(c.character) {
                let entry = &font.glyphs[gi];
                if let Some(m) = &entry.mesh {
                    proof {
                        assert(emit_of(*font, c) == Some(*m));
                    }
                    let ghost before = r@;
                    r.push(GlyphPlacement {
                        character: c.character,
                        line_index: c.line_index,
                        char_index: c.char_index,
                        mesh: copy_mesh(m),
                        position: Point3 { x: c.x, y: c.y, z: 0 },
                    });
                    proof {
                        let f = |p: GlyphPlacement| p.model();
                        assert(r@.map_values(f) =~= before.map_values(f).push(f(r@.last())));
                        assert(f(r@.last()) =~~= placement_of(*font, c)->Some_0);
                        assert(r@.map_values(f)
                            =~~= spec_placements(*font, cs.subrange(0, k + 1)));
                    }
                }
            }
        }
        proof {
            assert(r@.map_values(|p: GlyphPlacement| p.model())
                =~~= spec_placements(*font, cs.subrange(0, k + 1)));
        }
        k = k + 1;
    }
    proof {
        assert(cs.subrange(0, n as int) =~= cs);
    }
    r
}

} // verus!
