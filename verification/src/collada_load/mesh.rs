//! A mesh from shapes whose corners name a vertex, a texture vertex and a
//! normal each.

pub use crate::mesh::first_uses;
use crate::mesh::{lemma_first_uses_distinct, lemma_place_is_kept, place_of, Mesh, Shape};
use std::collections::BTreeMap;
use vstd::prelude::*;

verus! {

/// A vertex could not be made for a corner.
#[derive(Copy, Clone, Debug, PartialEq, Eq, Structural)]
pub struct MeshLoadError;

impl MeshLoadError {
    /// The error in words.
    pub fn message(&self) -> (r: String)
        ensures
            r@ == "failed to load mesh"@,
    {
        "failed to load mesh".to_string()
    }
}

/// A corner of a shape: the index of its vertex, and those of its texture
/// vertex and of its normal where it has them.
pub type Corner = (usize, Option<usize>, Option<usize>);

/// A shape as a scene file lists it, by its corners.
#[derive(Copy, Clone, Debug)]
pub enum CornerShape {
    Point(Corner),
    Line(Corner, Corner),
    Triangle(Corner, Corner, Corner),
}

impl CornerShape {
    /// The corners of the shape, in order.
    pub open spec fn corners(self) -> Seq<Corner> {
        match self {
            CornerShape::Point(a) => seq![a],
            CornerShape::Line(a, b) => seq![a, b],
            CornerShape::Triangle(a, b, c) => seq![a, b, c],
        }
    }

    /// The shape with every corner replaced by its place in `uses`.
    pub open spec fn relabelled(self, uses: Seq<Corner>) -> Shape {
        match self {
            CornerShape::Point(a) => Shape::Point(place_of(uses, a)),
            CornerShape::Line(a, b) => Shape::Line(place_of(uses, a), place_of(uses, b)),
            CornerShape::Triangle(a, b, c) => Shape::Triangle(
                place_of(uses, a),
                place_of(uses, b),
                place_of(uses, c),
            ),
        }
    }

    /// Whether the shape goes into the mesh: lines and triangles do, points
    /// only where they are asked for.
    pub open spec fn is_kept(self, points: bool) -> bool {
        points || !(self is Point)
    }
}

/// The shapes that go into the mesh, in order.
pub open spec fn kept(shapes: Seq<CornerShape>, points: bool) -> Seq<CornerShape>
    decreases shapes.len(),
{
    if shapes.len() == 0 {
        Seq::empty()
    } else if shapes.last().is_kept(points) {
        kept(shapes.drop_last(), points).push(shapes.last())
    } else {
        kept(shapes.drop_last(), points)
    }
}

/// The corners of the shapes that go into the mesh, shape after shape.
pub open spec fn kept_corners(shapes: Seq<CornerShape>, points: bool) -> Seq<Corner>
    decreases shapes.len(),
{
    if shapes.len() == 0 {
        Seq::empty()
    } else if shapes.last().is_kept(points) {
        kept_corners(shapes.drop_last(), points) + shapes.last().corners()
    } else {
        kept_corners(shapes.drop_last(), points)
    }
}

/// The shapes of the mesh: those kept, each corner replaced by its place
/// among the distinct corners in order of first use.
pub open spec fn mesh_shapes(shapes: Seq<CornerShape>, points: bool) -> Seq<Shape> {
    let uses = first_uses(kept_corners(shapes, points));
    Seq::new(kept(shapes, points).len(), |k: int| kept(shapes, points)[k].relabelled(uses))
}

/// The buckets list, for every vertex index, the places in `seen` of the
/// corners with that vertex: all of them and nothing else.
spec fn buckets_track(buckets: Map<usize, Vec<usize>>, seen: Seq<Corner>) -> bool {
    &&& forall|v: usize, k: int|
        buckets.contains_key(v) && 0 <= k < buckets[v]@.len() ==> (#[trigger] buckets[v]@[k])
            < seen.len() && seen[buckets[v]@[k] as int].0 == v
    &&& forall|p: int|
        0 <= p < seen.len() ==> buckets.contains_key((#[trigger] seen[p]).0) && buckets[seen[p].0]@.contains(
            p as usize,
        )
}

fn same_index(a: Option<usize>, b: Option<usize>) -> (r: bool)
    ensures
        r == (a == b),
{
    match (a, b) {
        (Some(x), Some(y)) => x == y,
        (None, None) => true,
        _ => false,
    }
}

/// The place of `corner` in `seen`, if it is there.
fn find_corner(seen: &Vec<Corner>, buckets: &BTreeMap<usize, Vec<usize>>, corner: Corner) -> (r:
    Option<usize>)
    requires
        buckets_track(buckets@, seen@),
    ensures
        match r {
            Some(p) => p < seen@.len() && seen@[p as int] == corner,
            None => !seen@.contains(corner),
        },
{
    let count = seen.len();
    match buckets.get(&corner.0) {
        Some(places) => {
            let mut k: usize = 0;
            while k < places.len()
                invariant
                    count == seen@.len(),
                    buckets_track(buckets@, seen@),
                    buckets@.contains_key(corner.0),
                    buckets@[corner.0] == *places,
                    k <= places@.len(),
                    forall|j: int| 0 <= j < k ==> seen@[places@[j] as int] != corner,
                decreases places@.len() - k,
            {
                assert(buckets@[corner.0]@[k as int] < seen@.len());
                let p = places[k];
                let other = seen[p];
                if other.0 == corner.0 && same_index(other.1, corner.1) && same_index(
                    other.2,
                    corner.2,
                ) {
                    assert(other == corner);
                    return Some(p);
                }
                assert(other != corner);
                k += 1;
            }
            proof {
                if seen@.contains(corner) {
                    let p = choose|p: int| 0 <= p < seen@.len() && seen@[p] == corner;
                    assert(buckets@[seen@[p].0]@.contains(p as usize));
                    let j = choose|j: int|
                        0 <= j < places@.len() && places@[j] == p as usize;
                    assert(seen@[places@[j] as int] != corner);
                }
            }
            None
        },
        None => {
            proof {
                if seen@.contains(corner) {
                    let p = choose|p: int| 0 <= p < seen@.len() && seen@[p] == corner;
                    assert(buckets@.contains_key(seen@[p].0));
                }
            }
            None
        },
    }
}

/// Lists a corner that is not in `seen` yet behind the others.
fn note_corner(seen: &mut Vec<Corner>, buckets: &mut BTreeMap<usize, Vec<usize>>, corner: Corner)
    requires
        buckets_track(old(buckets)@, old(seen)@),
    ensures
        final(seen)@ == old(seen)@.push(corner),
        buckets_track(final(buckets)@, final(seen)@),
{
    let place = seen.len();
    let ghost before = buckets@;
    let ghost listed = seen@;
    seen.push(corner);
    let mut places: Vec<usize> = match buckets.remove(&corner.0) {
        Some(places) => places,
        None => Vec::new(),
    };
    let ghost earlier = places@;
    places.push(place);
    buckets.insert(corner.0, places);
    proof {
        assert(before.contains_key(corner.0) ==> earlier == before[corner.0]@);
        assert forall|v: usize, k: int|
            buckets@.contains_key(v) && 0 <= k < buckets@[v]@.len() implies (#[trigger] buckets@[v]@[k])
            < seen@.len() && seen@[buckets@[v]@[k] as int].0 == v by {
            if v == corner.0 {
                if k < earlier.len() {
                    assert(buckets@[v]@[k] == before[v]@[k]);
                }
            } else {
                assert(buckets@[v] == before[v]);
            }
        }
        assert forall|p: int| 0 <= p < seen@.len() implies buckets@.contains_key(
            (#[trigger] seen@[p]).0,
        ) && buckets@[seen@[p].0]@.contains(p as usize) by {
            if p < listed.len() {
                assert(seen@[p] == listed[p]);
                assert(before[listed[p].0]@.contains(p as usize));
                if listed[p].0 == corner.0 {
                    let j = choose|j: int| 0 <= j < earlier.len() && earlier[j] == p as usize;
                    assert(buckets@[corner.0]@[j] == p as usize);
                } else {
                    assert(buckets@[listed[p].0] == before[listed[p].0]);
                }
            } else {
                assert(buckets@[corner.0]@[earlier.len() as int] == place);
            }
        }
    }
}

/// What the loader knows after the corners `refs`: `seen` lists their first
/// uses, the buckets track it, and there is a vertex for each corner listed.
spec fn loading<V, F: Fn(Corner) -> Option<V>>(
    refs: Seq<Corner>,
    seen: Seq<Corner>,
    buckets: Map<usize, Vec<usize>>,
    vertices: Seq<V>,
    make_vertex: F,
) -> bool {
    &&& seen == first_uses(refs)
    &&& buckets_track(buckets, seen)
    &&& vertices.len() == seen.len()
    &&& forall|p: int|
        0 <= p < seen.len() ==> make_vertex.ensures((#[trigger] seen[p],), Some(vertices[p]))
}

/// The place of a corner among the first uses, making its vertex if it is
/// used for the first time.
fn place_corner<V, F: Fn(Corner) -> Option<V>>(
    seen: &mut Vec<Corner>,
    buckets: &mut BTreeMap<usize, Vec<usize>>,
    vertices: &mut Vec<V>,
    make_vertex: &F,
    corner: Corner,
    Ghost(refs): Ghost<Seq<Corner>>,
) -> (r: Result<usize, MeshLoadError>)
    requires
        loading(refs, old(seen)@, old(buckets)@, old(vertices)@, *make_vertex),
        make_vertex.requires((corner,)),
    ensures
        match r {
            Ok(place) => loading(
                refs.push(corner),
                final(seen)@,
                final(buckets)@,
                final(vertices)@,
                *make_vertex,
            ) && place == place_of(final(seen)@, corner) && place < final(seen)@.len()
                && final(seen)@[place as int] == corner,
            Err(_) => first_uses(refs.push(corner)) == old(seen)@.push(corner)
                && make_vertex.ensures((corner,), None::<V>),
        },
{
    let ghost next = refs.push(corner);
    proof {
        lemma_first_uses_distinct(refs);
        lemma_first_uses_distinct(next);
        assert(next.drop_last() =~= refs);
        assert(next.last() == corner);
    }
    match find_corner(seen, buckets, corner) {
        Some(place) => {
            assert(first_uses(next) == first_uses(refs));
            assert(place_of(seen@, corner) == place);
            Ok(place)
        },
        None => {
            assert(first_uses(next) == first_uses(refs).push(corner));
            let vertex = match make_vertex(corner) {
                Some(vertex) => vertex,
                None => {
                    return Err(MeshLoadError);
                },
            };
            let place = seen.len();
            note_corner(seen, buckets, corner);
            vertices.push(vertex);
            assert(seen@[place as int] == corner);
            assert(place_of(seen@, corner) == place);
            Ok(place)
        },
    }
}

/// The mesh of the shapes that are kept, with one vertex for each distinct
/// corner, in order of first use, and the corners of the shapes renumbered
/// to match. `make_vertex` makes the vertex of a corner; the first corner
/// for which it makes none fails the load.
pub fn load_shapes<V: Copy, F: Fn(Corner) -> Option<V>>(
    shapes: &[CornerShape],
    points: bool,
    make_vertex: F,
) -> (r: Result<Mesh<V>, MeshLoadError>)
    requires
        forall|c: Corner| #[trigger]
            kept_corners(shapes@, points).contains(c) ==> make_vertex.requires((c,)),
    ensures
        match r {
            Ok(mesh) => {
                let uses = first_uses(kept_corners(shapes@, points));
                &&& mesh.shapes@ == mesh_shapes(shapes@, points)
                &&& mesh.vertices@.len() == uses.len()
                &&& forall|p: int|
                    0 <= p < uses.len() ==> make_vertex.ensures(
                        (#[trigger] uses[p],),
                        Some(mesh.vertices@[p]),
                    )
            },
            Err(_) => exists|c: Corner| #[trigger]
                kept_corners(shapes@, points).contains(c) && make_vertex.ensures((c,), None::<V>),
        },
{
    let mut vertices: Vec<V> = Vec::new();
    let mut out: Vec<Shape> = Vec::new();
    let mut seen: Vec<Corner> = Vec::new();
    let mut buckets: BTreeMap<usize, Vec<usize>> = BTreeMap::new();
    let mut i: usize = 0;
    assert(shapes@.take(0) =~= Seq::<CornerShape>::empty());
    while i < shapes.len()
        invariant
            i <= shapes@.len(),
            forall|c: Corner| #[trigger]
                kept_corners(shapes@, points).contains(c) ==> make_vertex.requires((c,)),
            loading(
                kept_corners(shapes@.take(i as int), points),
                seen@,
                buckets@,
                vertices@,
                make_vertex,
            ),
            out@.len() == kept(shapes@.take(i as int), points).len(),
            forall|k: int|
                0 <= k < out@.len() ==> #[trigger] out@[k] == kept(
                    shapes@.take(i as int),
                    points,
                )[k].relabelled(seen@),
            forall|k: int, c: Corner|
                0 <= k < out@.len() && kept(shapes@.take(i as int), points)[k].corners().contains(c)
                    ==> kept_corners(shapes@.take(i as int), points).contains(c),
        decreases shapes@.len() - i,
    {
        let ghost head = shapes@.take(i as int);
        let ghost refs = kept_corners(head, points);
        let ghost shown = kept(head, points);
        let ghost seen_before = seen@;
        let shape = shapes[i];
        let ghost more = kept_corners(shapes@.take(i + 1), points);
        proof {
            assert(shapes@.take(i + 1).drop_last() =~= head);
            assert(shapes@.take(i + 1).last() == shape);
            lemma_kept_corners_are_kept(shapes@, points, i as int);
            lemma_first_uses_distinct(refs);
            if shape.is_kept(points) {
                assert forall|at: int| 0 <= at < shape.corners().len() implies more.contains(
                    #[trigger] shape.corners()[at],
                ) by {
                    assert(more[refs.len() as int + at] == shape.corners()[at]);
                }
            }
        }
        let made: Option<Shape> = match shape {
            CornerShape::Point(a) => {
                if points {
                    proof {
                        assert(refs + seq![a] =~= refs.push(a));
                        assert(shape.corners()[0] == a);
                        assert(more.contains(a));
                        assert(kept_corners(shapes@, points).contains(a));
                    }
                    let a = match place_corner(
                        &mut seen,
                        &mut buckets,
                        &mut vertices,
                        &make_vertex,
                        a,
                        Ghost(refs),
                    ) {
                        Ok(place) => place,
                        Err(e) => {
                            return Err(e);
                        },
                    };
                    Some(Shape::Point(a))
                } else {
                    None
                }
            },
            CornerShape::Line(a, b) => {
                proof {
                    assert(refs + seq![a, b] =~= refs.push(a).push(b));
                    assert(shape.corners()[0] == a && shape.corners()[1] == b);
                    assert(more.contains(a) && more.contains(b));
                    assert(kept_corners(shapes@, points).contains(a));
                    assert(kept_corners(shapes@, points).contains(b));
                }
                let ghost (ca, cb) = (a, b);
                let a = match place_corner(
                    &mut seen,
                    &mut buckets,
                    &mut vertices,
                    &make_vertex,
                    a,
                    Ghost(refs),
                ) {
                    Ok(place) => place,
                    Err(e) => {
                        return Err(e);
                    },
                };
                let b = match place_corner(
                    &mut seen,
                    &mut buckets,
                    &mut vertices,
                    &make_vertex,
                    b,
                    Ghost(refs.push(ca)),
                ) {
                    Ok(place) => place,
                    Err(e) => {
                        return Err(e);
                    },
                };
                let count = seen.len();
                proof {
                    assert(refs.push(ca).contains(ca)) by {
                        assert(refs.push(ca)[refs.len() as int] == ca);
                    }
                    lemma_place_is_kept(refs.push(ca), ca, cb);
                }
                Some(Shape::Line(a, b))
            },
            CornerShape::Triangle(a, b, c) => {
                proof {
                    assert(refs + seq![a, b, c] =~= refs.push(a).push(b).push(c));
                    assert(shape.corners()[0] == a && shape.corners()[1] == b
                        && shape.corners()[2] == c);
                    assert(more.contains(a) && more.contains(b) && more.contains(c));
                    assert(kept_corners(shapes@, points).contains(a));
                    assert(kept_corners(shapes@, points).contains(b));
                    assert(kept_corners(shapes@, points).contains(c));
                }
                let ghost (ca, cb, cc) = (a, b, c);
                let a = match place_corner(
                    &mut seen,
                    &mut buckets,
                    &mut vertices,
                    &make_vertex,
                    a,
                    Ghost(refs),
                ) {
                    Ok(place) => place,
                    Err(e) => {
                        return Err(e);
                    },
                };
                let b = match place_corner(
                    &mut seen,
                    &mut buckets,
                    &mut vertices,
                    &make_vertex,
                    b,
                    Ghost(refs.push(ca)),
                ) {
                    Ok(place) => place,
                    Err(e) => {
                        return Err(e);
                    },
                };
                let c = match place_corner(
                    &mut seen,
                    &mut buckets,
                    &mut vertices,
                    &make_vertex,
                    c,
                    Ghost(refs.push(ca).push(cb)),
                ) {
                    Ok(place) => place,
                    Err(e) => {
                        return Err(e);
                    },
                };
                let count = seen.len();
                proof {
                    lemma_first_uses_bounded(refs.push(ca).push(cb), cc);
                    assert(refs.push(ca).contains(ca)) by {
                        assert(refs.push(ca)[refs.len() as int] == ca);
                    }
                    assert(refs.push(ca).push(cb).contains(ca)) by {
                        assert(refs.push(ca).push(cb)[refs.len() as int] == ca);
                    }
                    assert(refs.push(ca).push(cb).contains(cb)) by {
                        assert(refs.push(ca).push(cb)[refs.len() as int + 1] == cb);
                    }
                    lemma_place_is_kept(refs.push(ca), ca, cb);
                    lemma_place_is_kept(refs.push(ca).push(cb), ca, cc);
                    lemma_place_is_kept(refs.push(ca).push(cb), cb, cc);
                }
                Some(Shape::Triangle(a, b, c))
            },
        };
        let count = seen.len();
        proof {
            assert(seen@ == first_uses(more));
            lemma_places_are_kept(refs, more, shape, points);
            assert forall|k: int| 0 <= k < out@.len() implies #[trigger] out@[k]
                == shown[k].relabelled(seen@) by {
                assert forall|c: Corner| shown[k].corners().contains(c) implies place_of(
                    seen_before,
                    c,
                ) == place_of(seen@, c) by {
                    assert(refs.contains(c));
                }
                lemma_same_places_same_shape(shown[k], seen_before, seen@);
            }
        }
        match made {
            Some(shape) => {
                out.push(shape);
            },
            None => {},
        }
        proof {
            let now = kept(shapes@.take(i + 1), points);
            let more = kept_corners(shapes@.take(i + 1), points);
            assert forall|k: int, c: Corner|
                0 <= k < out@.len() && now[k].corners().contains(c) implies more.contains(c) by {
                if k < shown.len() {
                    assert(refs.contains(c));
                    let at = choose|at: int| 0 <= at < refs.len() && refs[at] == c;
                    assert(more[at] == c);
                } else {
                    let at = choose|at: int|
                        0 <= at < shape.corners().len() && shape.corners()[at] == c;
                    assert(more[refs.len() as int + at] == c);
                }
            }
        }
        i += 1;
    }
    assert(shapes@.take(i as int) =~= shapes@);
    assert(out@ =~= mesh_shapes(shapes@, points));
    Ok(Mesh::new(vertices, out))
}

/// The corners of a leading part of the shapes are among those of all of them.
proof fn lemma_kept_corners_are_kept(shapes: Seq<CornerShape>, points: bool, i: int)
    requires
        0 <= i < shapes.len(),
    ensures
        forall|c: Corner| #[trigger]
            kept_corners(shapes.take(i + 1), points).contains(c) ==> kept_corners(
                shapes,
                points,
            ).contains(c),
    decreases shapes.len() - i,
{
    if i + 1 == shapes.len() {
        assert(shapes.take(i + 1) =~= shapes);
    } else {
        lemma_kept_corners_are_kept(shapes, points, i + 1);
        assert(shapes.take(i + 1 + 1).drop_last() =~= shapes.take(i + 1));
        let shorter = kept_corners(shapes.take(i + 1), points);
        let longer = kept_corners(shapes.take(i + 1 + 1), points);
        assert forall|c: Corner| #[trigger] shorter.contains(c) implies kept_corners(
            shapes,
            points,
        ).contains(c) by {
            let at = choose|at: int| 0 <= at < shorter.len() && shorter[at] == c;
            assert(longer[at] == c);
            assert(longer.contains(c));
        }
    }
}

/// The corners listed before a shape keep their places when the corners of
/// the shape are listed behind them.
proof fn lemma_places_are_kept(
    refs: Seq<Corner>,
    more: Seq<Corner>,
    shape: CornerShape,
    points: bool,
)
    requires
        more == if shape.is_kept(points) {
            refs + shape.corners()
        } else {
            refs
        },
        first_uses(more).len() <= usize::MAX,
    ensures
        forall|c: Corner|
            refs.contains(c) ==> place_of(first_uses(refs), c) == place_of(first_uses(more), c),
{
    assert forall|c: Corner| refs.contains(c) implies place_of(first_uses(refs), c) == place_of(
        first_uses(more),
        c,
    ) by {
        if shape.is_kept(points) {
            match shape {
                CornerShape::Point(x) => {
                    assert(more =~= refs.push(x));
                    lemma_place_is_kept(refs, c, x);
                },
                CornerShape::Line(x, y) => {
                    assert(more =~= refs.push(x).push(y));
                    lemma_first_uses_bounded(refs.push(x), y);
                    lemma_place_is_kept(refs, c, x);
                    assert(refs.push(x)[refs.index_of(c)] == c);
                    lemma_place_is_kept(refs.push(x), c, y);
                },
                CornerShape::Triangle(x, y, z) => {
                    assert(more =~= refs.push(x).push(y).push(z));
                    lemma_first_uses_bounded(refs.push(x).push(y), z);
                    lemma_first_uses_bounded(refs.push(x), y);
                    lemma_place_is_kept(refs, c, x);
                    assert(refs.push(x)[refs.index_of(c)] == c);
                    lemma_place_is_kept(refs.push(x), c, y);
                    assert(refs.push(x).push(y)[refs.index_of(c)] == c);
                    lemma_place_is_kept(refs.push(x).push(y), c, z);
                },
            }
        }
    }
}

/// The first uses of a list are no more than those of the list with one
/// more value.
proof fn lemma_first_uses_bounded(refs: Seq<Corner>, next: Corner)
    ensures
        first_uses(refs).len() <= first_uses(refs.push(next)).len(),
{
    assert(refs.push(next).drop_last() =~= refs);
}

/// A shape relabelled by two lists that give its corners the same places is
/// the same shape.
proof fn lemma_same_places_same_shape(shape: CornerShape, a: Seq<Corner>, b: Seq<Corner>)
    requires
        forall|c: Corner| shape.corners().contains(c) ==> place_of(a, c) == place_of(b, c),
    ensures
        shape.relabelled(a) == shape.relabelled(b),
{
    match shape {
        CornerShape::Point(x) => {
            assert(shape.corners()[0] == x);
        },
        CornerShape::Line(x, y) => {
            assert(shape.corners()[0] == x);
            assert(shape.corners()[1] == y);
        },
        CornerShape::Triangle(x, y, z) => {
            assert(shape.corners()[0] == x);
            assert(shape.corners()[1] == y);
            assert(shape.corners()[2] == z);
        },
    }
}

/// The mesh of the lines and triangles among the shapes; other shapes are
/// passed over. See `load_shapes`.
pub fn load_mesh<V: Copy, F: Fn(Corner) -> Option<V>>(shapes: &[CornerShape], make_vertex: F) -> (r:
    Result<Mesh<V>, MeshLoadError>)
    requires
        forall|c: Corner| #[trigger]
            kept_corners(shapes@, false).contains(c) ==> make_vertex.requires((c,)),
    ensures
        match r {
            Ok(mesh) => {
                let uses = first_uses(kept_corners(shapes@, false));
                &&& mesh.shapes@ == mesh_shapes(shapes@, false)
                &&& mesh.vertices@.len() == uses.len()
                &&& forall|p: int|
                    0 <= p < uses.len() ==> make_vertex.ensures(
                        (#[trigger] uses[p],),
                        Some(mesh.vertices@[p]),
                    )
            },
            Err(_) => exists|c: Corner| #[trigger]
                kept_corners(shapes@, false).contains(c) && make_vertex.ensures((c,), None::<V>),
        },
{
    load_shapes(shapes, false, make_vertex)
}

} // verus!
