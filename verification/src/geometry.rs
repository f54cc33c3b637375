//! Geometric data: fixed-point points, glyph meshes, merged meshes and
//! bounding boxes, with their well-formedness predicates.

use vstd::prelude::*;
use crate::{MAX_COORD, MAX_GLYPH_VERTICES};

verus! {

/// A point or direction in fixed-point 3D space (milli-units).
#[derive(Clone, Copy, PartialEq, Eq, Structural, Debug)]
pub struct Point3 {
    pub x: i64,
    pub y: i64,
    pub z: i64,
}

/// The mathematical value of a point: its coordinates as unbounded integers.
pub struct PointModel {
    pub x: int,
    pub y: int,
    pub z: int,
}

impl Point3 {
    /// The mathematical value of this point.
    pub open spec fn model(self) -> PointModel {
        PointModel { x: self.x as int, y: self.y as int, z: self.z as int }
    }
}

/// The mathematical values of a sequence of points.
pub open spec fn models_of(s: Seq<Point3>) -> Seq<PointModel> {
    s.map_values(|p: Point3| p.model())
}

/// One glyph's outline, tessellated and extruded into a local-space indexed
/// triangle mesh. `vertices` and `normals` are parallel; `indices` is a flat
/// triangle list into `vertices`.
#[derive(Clone, Debug)]
pub struct GlyphMeshData {
    pub vertices: Vec<Point3>,
    pub normals: Vec<Point3>,
    pub indices: Vec<u32>,
}

impl GlyphMeshData {
    /// A well-formed local glyph mesh: one normal per vertex, a whole number
    /// of triangles, every index inside the vertex buffer, and every vertex
    /// coordinate within the machine bound.
    pub open spec fn wf(self) -> bool {
        &&& self.normals@.len() == self.vertices@.len()
        &&& self.vertices@.len() <= MAX_GLYPH_VERTICES
        &&& self.indices@.len() % 3 == 0
        &&& forall|k: int| 0 <= k < self.indices@.len()
                ==> (#[trigger] self.indices@[k]) < self.vertices@.len()
        &&& forall|k: int| 0 <= k < self.vertices@.len() ==> {
                let v = #[trigger] self.vertices@[k];
                -MAX_COORD <= v.x <= MAX_COORD
                && -MAX_COORD <= v.y <= MAX_COORD
                && -MAX_COORD <= v.z <= MAX_COORD
            }
    }
}

/// The single merged output mesh of the combined pipeline.
#[derive(Clone, Debug)]
pub struct CombinedMesh {
    pub vertices: Vec<Point3>,
    pub normals: Vec<Point3>,
    pub indices: Vec<u32>,
}

impl CombinedMesh {
    /// Index integrity: every index refers to a vertex of this mesh, and
    /// normals stay parallel to vertices.
    pub open spec fn wf(self) -> bool {
        &&& self.normals@.len() == self.vertices@.len()
        &&& forall|k: int| 0 <= k < self.indices@.len()
                ==> (#[trigger] self.indices@[k]) < self.vertices@.len()
    }
}

/// An axis-aligned bounding box, accumulated over emitted vertices.
#[derive(Clone, Copy, PartialEq, Eq, Structural, Debug)]
pub struct BoundingBox {
    pub min: Point3,
    pub max: Point3,
}

/// The mathematical value of a bounding box.
pub struct BoxModel {
    pub min: PointModel,
    pub max: PointModel,
}

impl BoundingBox {
    /// The mathematical value of this bounding box.
    pub open spec fn model(self) -> BoxModel {
        BoxModel { min: self.min.model(), max: self.max.model() }
    }
}

/// The box covers the point, on every axis.
pub open spec fn box_contains(b: BoundingBox, p: Point3) -> bool {
    &&& b.min.x <= p.x <= b.max.x
    &&& b.min.y <= p.y <= b.max.y
    &&& b.min.z <= p.z <= b.max.z
}

/// The box of a single point.
pub open spec fn box_of_point(p: PointModel) -> BoxModel {
    BoxModel { min: p, max: p }
}

/// The box grown to cover one more point.
pub open spec fn box_extend(b: BoxModel, p: PointModel) -> BoxModel {
    BoxModel {
        min: PointModel {
            x: if p.x < b.min.x { p.x } else { b.min.x },
            y: if p.y < b.min.y { p.y } else { b.min.y },
            z: if p.z < b.min.z { p.z } else { b.min.z },
        },
        max: PointModel {
            x: if p.x > b.max.x { p.x } else { b.max.x },
            y: if p.y > b.max.y { p.y } else { b.max.y },
            z: if p.z > b.max.z { p.z } else { b.max.z },
        },
    }
}

/// The axis-aligned bounding box of a non-empty sequence of points, folded
/// left to right.
pub open spec fn box_of(s: Seq<PointModel>) -> BoxModel
    recommends
        s.len() > 0,
    decreases s.len(),
{
    if s.len() <= 1 {
        box_of_point(s[0])
    } else {
        box_extend(box_of(s.drop_last()), s.last())
    }
}

/// The smallest box covering two boxes.
pub open spec fn box_merge(a: BoxModel, b: BoxModel) -> BoxModel {
    BoxModel {
        min: PointModel {
            x: if b.min.x < a.min.x { b.min.x } else { a.min.x },
            y: if b.min.y < a.min.y { b.min.y } else { a.min.y },
            z: if b.min.z < a.min.z { b.min.z } else { a.min.z },
        },
        max: PointModel {
            x: if b.max.x > a.max.x { b.max.x } else { a.max.x },
            y: if b.max.y > a.max.y { b.max.y } else { a.max.y },
            z: if b.max.z > a.max.z { b.max.z } else { a.max.z },
        },
    }
}

/// The box of a concatenation is the merge of the two boxes.
pub proof fn lemma_box_concat(s: Seq<PointModel>, t: Seq<PointModel>)
    requires
        s.len() > 0,
        t.len() > 0,
    ensures
        box_of(s + t) == box_merge(box_of(s), box_of(t)),
    decreases t.len(),
{
    if t.len() == 1 {
        assert((s + t).drop_last() =~= s);
        assert((s + t).last() == t[0]);
        assert(box_of(s + t) == box_extend(box_of(s), t[0]));
        assert(box_of(t) == box_of_point(t[0]));
    } else {
        lemma_box_concat(s, t.drop_last());
        assert((s + t).drop_last() =~= s + t.drop_last());
        assert((s + t).last() == t.last());
        assert(box_of(s + t) == box_extend(box_merge(box_of(s), box_of(t.drop_last())), t.last()));
        assert(box_of(t) == box_extend(box_of(t.drop_last()), t.last()));
    }
}

/// A point sequence, translated in the text plane.
pub open spec fn shift_points(s: Seq<PointModel>, dx: int, dy: int) -> Seq<PointModel> {
    s.map_values(|p: PointModel| PointModel { x: p.x + dx, y: p.y + dy, z: p.z })
}

/// Translating a point sequence translates its bounding box.
pub proof fn lemma_box_shift(s: Seq<PointModel>, dx: int, dy: int)
    requires
        s.len() > 0,
    ensures
        box_of(shift_points(s, dx, dy)) == (BoxModel {
            min: PointModel {
                x: box_of(s).min.x + dx,
                y: box_of(s).min.y + dy,
                z: box_of(s).min.z,
            },
            max: PointModel {
                x: box_of(s).max.x + dx,
                y: box_of(s).max.y + dy,
                z: box_of(s).max.z,
            },
        }),
    decreases s.len(),
{
    if s.len() == 1 {
        assert(shift_points(s, dx, dy).len() == 1);
        assert(shift_points(s, dx, dy)[0] == PointModel { x: s[0].x + dx, y: s[0].y + dy, z: s[0].z });
    } else {
        lemma_box_shift(s.drop_last(), dx, dy);
        assert(shift_points(s, dx, dy).drop_last() =~= shift_points(s.drop_last(), dx, dy));
        assert(shift_points(s, dx, dy).last()
            == PointModel { x: s.last().x + dx, y: s.last().y + dy, z: s.last().z });
        assert(box_of(shift_points(s, dx, dy)) == box_extend(
            box_of(shift_points(s.drop_last(), dx, dy)),
            shift_points(s, dx, dy).last(),
        ));
    }
}

/// The bounding box of a non-empty point sequence contains every point of it,
/// and its extremes in x are attained by points of the sequence.
pub proof fn lemma_box_of_bounds(s: Seq<PointModel>)
    requires
        s.len() > 0,
    ensures
        forall|k: int| 0 <= k < s.len() ==> {
            let p = #[trigger] s[k];
            box_of(s).min.x <= p.x <= box_of(s).max.x
            && box_of(s).min.y <= p.y <= box_of(s).max.y
            && box_of(s).min.z <= p.z <= box_of(s).max.z
        },
        exists|k: int| 0 <= k < s.len() && (#[trigger] s[k]).x == box_of(s).min.x,
        exists|k: int| 0 <= k < s.len() && (#[trigger] s[k]).x == box_of(s).max.x,
    decreases s.len(),
{
    if s.len() <= 1 {
        assert(box_of(s) == box_of_point(s[0]));
        assert(s[0].x == box_of(s).min.x);
        assert(s[0].x == box_of(s).max.x);
    } else {
        let d = s.drop_last();
        lemma_box_of_bounds(d);
        assert(box_of(s) == box_extend(box_of(d), s.last()));
        assert(forall|k: int| 0 <= k < d.len() ==> #[trigger] s[k] == d[k]);
        assert(s[s.len() - 1] == s.last());
        if s.last().x < box_of(d).min.x {
            assert(s[s.len() - 1].x == box_of(s).min.x);
        } else {
            let k = choose|k: int| 0 <= k < d.len() && (#[trigger] d[k]).x == box_of(d).min.x;
            assert(s[k].x == box_of(s).min.x);
        }
        if s.last().x > box_of(d).max.x {
            assert(s[s.len() - 1].x == box_of(s).max.x);
        } else {
            let k = choose|k: int| 0 <= k < d.len() && (#[trigger] d[k]).x == box_of(d).max.x;
            assert(s[k].x == box_of(s).max.x);
        }
    }
}

} // verus!
