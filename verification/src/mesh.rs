//! Indexed meshes made of points, lines and triangles.

use std::collections::{BTreeMap, BTreeSet};
use vstd::prelude::*;

verus! {

/// One primitive of a mesh; its corners are indices into the vertex list.
#[derive(Copy, Clone, Debug)]
pub enum Shape {
    Point(usize),
    Line(usize, usize),
    Triangle(usize, usize, usize),
}

impl Shape {
    /// The vertex indices that the shape names, in the order it names them.
    pub open spec fn corners(self) -> Seq<usize> {
        match self {
            Shape::Point(a) => seq![a],
            Shape::Line(a, b) => seq![a, b],
            Shape::Triangle(a, b, c) => seq![a, b, c],
        }
    }

    pub fn is_triangle(&self) -> (r: bool)
        ensures
            r == (*self is Triangle),
    {
        match self {
            Shape::Triangle(_, _, _) => true,
            _ => false,
        }
    }

    pub fn is_line(&self) -> (r: bool)
        ensures
            r == (*self is Line),
    {
        match self {
            Shape::Line(_, _) => true,
            _ => false,
        }
    }

    pub fn is_point(&self) -> (r: bool)
        ensures
            r == (*self is Point),
    {
        match self {
            Shape::Point(_) => true,
            _ => false,
        }
    }
}

/// The corners of every shape, shape after shape.
pub open spec fn all_corners(shapes: Seq<Shape>) -> Seq<usize>
    decreases shapes.len(),
{
    if shapes.len() == 0 {
        Seq::empty()
    } else {
        all_corners(shapes.drop_last()) + shapes.last().corners()
    }
}

/// The corners of the triangles among `shapes`, in order; other shapes add nothing.
pub open spec fn triangle_corners(shapes: Seq<Shape>) -> Seq<usize>
    decreases shapes.len(),
{
    if shapes.len() == 0 {
        Seq::empty()
    } else if shapes.last() is Triangle {
        triangle_corners(shapes.drop_last()) + shapes.last().corners()
    } else {
        triangle_corners(shapes.drop_last())
    }
}

/// The corners of the lines among `shapes`, in order; other shapes add nothing.
pub open spec fn line_corners(shapes: Seq<Shape>) -> Seq<usize>
    decreases shapes.len(),
{
    if shapes.len() == 0 {
        Seq::empty()
    } else if shapes.last() is Line {
        line_corners(shapes.drop_last()) + shapes.last().corners()
    } else {
        line_corners(shapes.drop_last())
    }
}

/// The distinct values of `refs`, each at the place of its first use.
pub open spec fn first_uses<K>(refs: Seq<K>) -> Seq<K>
    decreases refs.len(),
{
    if refs.len() == 0 {
        Seq::empty()
    } else if first_uses(refs.drop_last()).contains(refs.last()) {
        first_uses(refs.drop_last())
    } else {
        first_uses(refs.drop_last()).push(refs.last())
    }
}

/// A position at which `list` holds `x`.
pub open spec fn place_of<K>(list: Seq<K>, x: K) -> usize {
    choose|k: usize| k < list.len() && list[k as int] == x
}

/// `refs` with every value replaced by its position in `first_uses(refs)`:
/// the first value used becomes 0, the next new one 1, and so on.
pub open spec fn renumbered<K>(refs: Seq<K>) -> Seq<usize>
    decreases refs.len(),
{
    if refs.len() == 0 {
        Seq::empty()
    } else {
        renumbered(refs.drop_last()).push(place_of(first_uses(refs), refs.last()))
    }
}

/// `first_uses` never lists a value twice, and lists exactly the values of `refs`.
pub proof fn lemma_first_uses_distinct<K>(refs: Seq<K>)
    ensures
        first_uses(refs).no_duplicates(),
        first_uses(refs).len() <= refs.len(),
        forall|x: K| #[trigger] first_uses(refs).contains(x) <==> refs.contains(x),
    decreases refs.len(),
{
    if refs.len() > 0 {
        let head = refs.drop_last();
        let x = refs.last();
        lemma_first_uses_distinct(head);
        let before = first_uses(head);
        let after = first_uses(refs);
        assert(refs =~= head.push(x));
        assert forall|y: K| #[trigger] after.contains(y) <==> refs.contains(y) by {
            assert(before.contains(y) <==> head.contains(y));
            if before.contains(x) {
                assert(after == before);
            } else {
                assert(after == before.push(x));
                assert(after[after.len() - 1] == x);
            }
            if head.contains(y) {
                let j = choose|j: int| 0 <= j < head.len() && head[j] == y;
                assert(refs[j] == y);
            }
            if before.contains(y) {
                let i = choose|i: int| 0 <= i < before.len() && before[i] == y;
                assert(after[i] == y);
            }
            if refs.contains(y) && y != x {
                let j = choose|j: int| 0 <= j < refs.len() && refs[j] == y;
                assert(head[j] == y);
            }
            if after.contains(y) && y != x {
                let i = choose|i: int| 0 <= i < after.len() && after[i] == y;
                assert(before[i] == y);
            }
            assert(refs[refs.len() - 1] == x);
        }
    }
}

/// Reading a renumbered value back through `first_uses` gives the value it replaced.
pub proof fn lemma_renumbered_reads_back<K>(refs: Seq<K>)
    requires
        first_uses(refs).len() <= usize::MAX,
    ensures
        renumbered(refs).len() == refs.len(),
        forall|i: int|
            0 <= i < refs.len() ==> 0 <= #[trigger] renumbered(refs)[i] < first_uses(refs).len()
                && first_uses(refs)[renumbered(refs)[i] as int] == refs[i],
    decreases refs.len(),
{
    if refs.len() > 0 {
        let head = refs.drop_last();
        let x = refs.last();
        lemma_first_uses_distinct(refs);
        lemma_first_uses_distinct(head);
        let before = first_uses(head);
        let after = first_uses(refs);
        assert(before.len() <= after.len());
        lemma_renumbered_reads_back(head);
        assert(refs[refs.len() - 1] == x);
        assert(refs.contains(x));
        assert(after.contains(x));
        let at = choose|at: int| 0 <= at < after.len() && after[at] == x;
        assert((at as usize) < after.len() && after[(at as usize) as int] == x);
        let k = place_of(after, x);
        assert(k < after.len() && after[k as int] == x);
        assert forall|i: int| 0 <= i < refs.len() implies 0 <= #[trigger] renumbered(refs)[i]
            < after.len() && after[renumbered(refs)[i] as int] == refs[i] by {
            if i < head.len() {
                assert(renumbered(refs)[i] == renumbered(head)[i]);
                assert(before[renumbered(head)[i] as int] == head[i]);
                if before.contains(x) {
                    assert(after == before);
                } else {
                    assert(after == before.push(x));
                }
            } else {
                assert(renumbered(refs)[i] == k);
            }
        }
    }
}

/// Appending to `refs` only ever appends to `first_uses(refs)`.
pub proof fn lemma_first_uses_grows<K>(a: Seq<K>, b: Seq<K>)
    ensures
        first_uses(a).len() <= first_uses(a + b).len(),
    decreases b.len(),
{
    if b.len() == 0 {
        assert(a + b =~= a);
    } else {
        lemma_first_uses_grows(a, b.drop_last());
        assert((a + b).drop_last() =~= a + b.drop_last());
    }
}

/// A value that is listed keeps its place when the list of first uses grows.
pub proof fn lemma_place_is_kept<K>(refs: Seq<K>, x: K, next: K)
    requires
        refs.contains(x),
        first_uses(refs.push(next)).len() <= usize::MAX,
    ensures
        place_of(first_uses(refs.push(next)), x) == place_of(first_uses(refs), x),
        place_of(first_uses(refs), x) < first_uses(refs).len(),
        first_uses(refs)[place_of(first_uses(refs), x) as int] == x,
{
    let more = refs.push(next);
    assert(more.drop_last() =~= refs);
    lemma_first_uses_distinct(refs);
    lemma_first_uses_distinct(more);
    let before = first_uses(refs);
    let after = first_uses(more);
    assert(before.contains(x));
    let at = choose|at: int| 0 <= at < before.len() && before[at] == x;
    assert((at as usize) < before.len() && before[(at as usize) as int] == x);
    let p = place_of(before, x);
    assert(p < before.len() && before[p as int] == x);
    assert(after[p as int] == x);
    let q = place_of(after, x);
    assert(q < after.len() && after[q as int] == x);
}

/// The triangle corners of a list of shapes are those of any leading part,
/// followed by those of the rest.
pub proof fn lemma_triangle_corners_split(shapes: Seq<Shape>, at: int)
    requires
        0 <= at <= shapes.len(),
    ensures
        triangle_corners(shapes) == triangle_corners(shapes.take(at)) + triangle_corners(
            shapes.skip(at),
        ),
    decreases shapes.len(),
{
    if at == shapes.len() {
        assert(shapes.take(at) =~= shapes);
        assert(shapes.skip(at) =~= Seq::<Shape>::empty());
        assert(triangle_corners(shapes) + Seq::<usize>::empty() =~= triangle_corners(shapes));
    } else {
        lemma_triangle_corners_split(shapes.drop_last(), at);
        assert(shapes.drop_last().take(at) =~= shapes.take(at));
        assert(shapes.drop_last().skip(at) =~= shapes.skip(at).drop_last());
        assert(shapes.skip(at).last() == shapes.last());
        let head = triangle_corners(shapes.take(at));
        let mid = triangle_corners(shapes.skip(at).drop_last());
        assert((head + mid) + shapes.last().corners() =~= head + (mid + shapes.last().corners()));
    }
}

/// The line corners of a list of shapes are those of any leading part,
/// followed by those of the rest.
pub proof fn lemma_line_corners_split(shapes: Seq<Shape>, at: int)
    requires
        0 <= at <= shapes.len(),
    ensures
        line_corners(shapes) == line_corners(shapes.take(at)) + line_corners(shapes.skip(at)),
    decreases shapes.len(),
{
    if at == shapes.len() {
        assert(shapes.take(at) =~= shapes);
        assert(shapes.skip(at) =~= Seq::<Shape>::empty());
        assert(line_corners(shapes) + Seq::<usize>::empty() =~= line_corners(shapes));
    } else {
        lemma_line_corners_split(shapes.drop_last(), at);
        assert(shapes.drop_last().take(at) =~= shapes.take(at));
        assert(shapes.drop_last().skip(at) =~= shapes.skip(at).drop_last());
        assert(shapes.skip(at).last() == shapes.last());
        let head = line_corners(shapes.take(at));
        let mid = line_corners(shapes.skip(at).drop_last());
        assert((head + mid) + shapes.last().corners() =~= head + (mid + shapes.last().corners()));
    }
}

/// A mesh whose shapes may be of mixed kinds.
#[derive(Clone, Debug)]
pub struct Mesh<VERTEX: Copy> {
    pub vertices: Vec<VERTEX>,
    pub shapes: Vec<Shape>,
}

/// A mesh of one kind of shape, given as a flat list of corner indices.
#[derive(Clone, Debug)]
pub struct SingleShapeMesh<VERTEX: Copy> {
    pub vertices: Vec<VERTEX>,
    pub indices: Vec<usize>,
}

impl<VERTEX: Copy> SingleShapeMesh<VERTEX> {
    pub fn new(vertices: Vec<VERTEX>, indices: Vec<usize>) -> (r: Self)
        ensures
            r.vertices == vertices,
            r.indices == indices,
    {
        Self { vertices, indices }
    }
}

/// What the renumbering loop knows after the corners `refs`: the map sends
/// each value used so far to its place in `first_uses(refs)`, and `out` holds
/// one source vertex for each of those places.
spec fn tracks<VERTEX>(
    map: Map<usize, usize>,
    refs: Seq<usize>,
    out: Seq<VERTEX>,
    source: Seq<VERTEX>,
) -> bool {
    &&& first_uses(refs).len() <= source.len()
    &&& out == source.take(first_uses(refs).len() as int)
    &&& forall|x: usize| map.contains_key(x) <==> first_uses(refs).contains(x)
    &&& forall|x: usize| #[trigger]
        map.contains_key(x) ==> 0 <= map[x] < first_uses(refs).len() && first_uses(
            refs,
        )[map[x] as int] == x
}

/// Looks `corner` up in the map, giving it the next free number, and the next
/// source vertex, when it has none yet.
fn renumber_corner<VERTEX: Copy>(
    map: &mut BTreeMap<usize, usize>,
    source: &Vec<VERTEX>,
    out: &mut Vec<VERTEX>,
    corner: usize,
    Ghost(refs): Ghost<Seq<usize>>,
) -> (r: usize)
    requires
        tracks(old(map)@, refs, old(out)@, source@),
        first_uses(refs.push(corner)).len() <= source@.len(),
    ensures
        tracks(final(map)@, refs.push(corner), final(out)@, source@),
        renumbered(refs.push(corner)) == renumbered(refs).push(r),
{
    let ghost next = refs.push(corner);
    proof {
        lemma_first_uses_distinct(refs);
        lemma_first_uses_distinct(next);
        assert(next.drop_last() =~= refs);
        assert(next.last() == corner);
    }
    match map.get(&corner) {
        Some(slot) => {
            let slot = *slot;
            proof {
                assert(map@.contains_key(corner));
                assert(first_uses(next) == first_uses(refs));
                assert(first_uses(next)[slot as int] == corner);
                assert(place_of(first_uses(next), corner) == slot);
            }
            slot
        },
        None => {
            let slot = out.len();
            proof {
                assert(!map@.contains_key(corner));
                assert(first_uses(next) == first_uses(refs).push(corner));
                assert(first_uses(next)[slot as int] == corner);
                assert(place_of(first_uses(next), corner) == slot);
            }
            out.push(source[slot]);
            map.insert(corner, slot);
            proof {
                assert(out@ =~= source@.take(first_uses(next).len() as int));
                assert forall|x: usize| map@.contains_key(x) <==> first_uses(next).contains(
                    x,
                ) by {
                    if first_uses(refs).contains(x) {
                        let i = choose|i: int|
                            0 <= i < first_uses(refs).len() && first_uses(refs)[i] == x;
                        assert(first_uses(next)[i] == x);
                    }
                    if first_uses(next).contains(x) && x != corner {
                        let i = choose|i: int|
                            0 <= i < first_uses(next).len() && first_uses(next)[i] == x;
                        assert(first_uses(refs)[i] == x);
                    }
                }
            }
            slot
        },
    }
}

/// Lists `corner` in `seen` if it is used for the first time.
fn note_use(used: &mut BTreeSet<usize>, seen: &mut Vec<usize>, corner: usize, Ghost(refs): Ghost<
    Seq<usize>,
>)
    requires
        old(seen)@ == first_uses(refs),
        forall|x: usize| old(used)@.contains(x) <==> first_uses(refs).contains(x),
    ensures
        final(seen)@ == first_uses(refs.push(corner)),
        forall|x: usize| final(used)@.contains(x) <==> first_uses(refs.push(corner)).contains(x),
{
    let ghost next = refs.push(corner);
    proof {
        assert(next.drop_last() =~= refs);
        assert(next.last() == corner);
    }
    if !used.contains(&corner) {
        used.insert(corner);
        seen.push(corner);
        proof {
            assert forall|x: usize| used@.contains(x) <==> first_uses(next).contains(x) by {
                if first_uses(refs).contains(x) {
                    let i = choose|i: int|
                        0 <= i < first_uses(refs).len() && first_uses(refs)[i] == x;
                    assert(first_uses(next)[i] == x);
                }
                if first_uses(next).contains(x) && x != corner {
                    let i = choose|i: int|
                        0 <= i < first_uses(next).len() && first_uses(next)[i] == x;
                    assert(first_uses(refs)[i] == x);
                }
                assert(first_uses(next)[first_uses(refs).len() as int] == corner);
            }
        }
    }
}

/// Copies a vector of copyable values.
fn copy_all<VERTEX: Copy>(source: &Vec<VERTEX>) -> (r: Vec<VERTEX>)
    ensures
        r@ == source@,
{
    let mut out: Vec<VERTEX> = Vec::new();
    let mut i: usize = 0;
    while i < source.len()
        invariant
            i <= source@.len(),
            out@ == source@.take(i as int),
        decreases source@.len() - i,
    {
        out.push(source[i]);
        i += 1;
        assert(out@ =~= source@.take(i as int));
    }
    assert(source@.take(i as int) =~= source@);
    out
}

impl<VERTEX: Copy> Mesh<VERTEX> {
    pub fn new(vertices: Vec<VERTEX>, shapes: Vec<Shape>) -> (r: Mesh<VERTEX>)
        ensures
            r.vertices == vertices,
            r.shapes == shapes,
    {
        Mesh { vertices, shapes }
    }

    /// Every shape is a triangle; true of a mesh without shapes.
    pub open spec fn is_triangulated(&self) -> bool {
        forall|i: int| 0 <= i < self.shapes@.len() ==> self.shapes@[i] is Triangle
    }

    pub fn only_triangles(&self) -> (r: bool)
        ensures
            r == self.is_triangulated(),
    {
        let mut i: usize = 0;
        while i < self.shapes.len()
            invariant
                i <= self.shapes@.len(),
                forall|j: int| 0 <= j < i ==> self.shapes@[j] is Triangle,
            decreases self.shapes@.len() - i,
        {
            if !self.shapes[i].is_triangle() {
                return false;
            }
            i += 1;
        }
        true
    }

    /// The corner indices of all shapes, in order, whatever their kinds.
    pub fn flatten_indices(&self) -> (r: Vec<usize>)
        ensures
            r@ == all_corners(self.shapes@),
    {
        let mut indices: Vec<usize> = Vec::new();
        let mut i: usize = 0;
        while i < self.shapes.len()
            invariant
                i <= self.shapes@.len(),
                indices@ == all_corners(self.shapes@.take(i as int)),
            decreases self.shapes@.len() - i,
        {
            let ghost before = indices@;
            proof {
                assert(self.shapes@.take(i + 1).drop_last() =~= self.shapes@.take(i as int));
                assert(self.shapes@.take(i + 1).last() == self.shapes@[i as int]);
            }
            match self.shapes[i] {
                Shape::Triangle(a, b, c) => {
                    indices.push(a);
                    indices.push(b);
                    indices.push(c);
                    assert(indices@ =~= before + seq![a, b, c]);
                },
                Shape::Line(a, b) => {
                    indices.push(a);
                    indices.push(b);
                    assert(indices@ =~= before + seq![a, b]);
                },
                Shape::Point(a) => {
                    indices.push(a);
                    assert(indices@ =~= before + seq![a]);
                },
            }
            i += 1;
        }
        assert(self.shapes@.take(i as int) =~= self.shapes@);
        indices
    }

    /// How many distinct corners the triangles of the mesh have, or its
    /// lines if `lines` is set.
    fn count_corners(&self, lines: bool) -> (r: usize)
        ensures
            !lines ==> r == first_uses(triangle_corners(self.shapes@)).len(),
            lines ==> r == first_uses(line_corners(self.shapes@)).len(),
    {
        let mut used: BTreeSet<usize> = BTreeSet::new();
        let mut seen: Vec<usize> = Vec::new();
        let mut i: usize = 0;
        assert(self.shapes@.take(0) =~= Seq::<Shape>::empty());
        while i < self.shapes.len()
            invariant
                i <= self.shapes@.len(),
                seen@ == first_uses(
                    if lines {
                        line_corners(self.shapes@.take(i as int))
                    } else {
                        triangle_corners(self.shapes@.take(i as int))
                    },
                ),
                forall|x: usize| used@.contains(x) <==> seen@.contains(x),
            decreases self.shapes@.len() - i,
        {
            let ghost refs = if lines {
                line_corners(self.shapes@.take(i as int))
            } else {
                triangle_corners(self.shapes@.take(i as int))
            };
            proof {
                assert(self.shapes@.take(i + 1).drop_last() =~= self.shapes@.take(i as int));
                assert(self.shapes@.take(i + 1).last() == self.shapes@[i as int]);
            }
            match self.shapes[i] {
                Shape::Triangle(a, b, c) => {
                    if !lines {
                        assert(refs + seq![a, b, c] =~= refs.push(a).push(b).push(c));
                        note_use(&mut used, &mut seen, a, Ghost(refs));
                        note_use(&mut used, &mut seen, b, Ghost(refs.push(a)));
                        note_use(&mut used, &mut seen, c, Ghost(refs.push(a).push(b)));
                    }
                },
                Shape::Line(a, b) => {
                    if lines {
                        assert(refs + seq![a, b] =~= refs.push(a).push(b));
                        note_use(&mut used, &mut seen, a, Ghost(refs));
                        note_use(&mut used, &mut seen, b, Ghost(refs.push(a)));
                    }
                },
                Shape::Point(_) => {},
            }
            i += 1;
        }
        assert(self.shapes@.take(i as int) =~= self.shapes@);
        seen.len()
    }

    /// Whether the mesh has the vertices that `get_triangles` needs: it is
    /// all triangles, or has a vertex for each distinct corner of its
    /// triangles.
    pub fn can_get_triangles(&self) -> (r: bool)
        ensures
            r == (self.is_triangulated() || first_uses(triangle_corners(self.shapes@)).len()
                <= self.vertices@.len()),
    {
        self.only_triangles() || self.count_corners(false) <= self.vertices.len()
    }

    /// Whether the mesh has the vertices that `get_lines` needs: one for
    /// each distinct corner of its lines.
    pub fn can_get_lines(&self) -> (r: bool)
        ensures
            r == (first_uses(line_corners(self.shapes@)).len() <= self.vertices@.len()),
    {
        self.count_corners(true) <= self.vertices.len()
    }

    /// The triangles of the mesh as a mesh of their own.
    ///
    /// A mesh of triangles only is handed over as it is. Otherwise the
    /// triangles' corners are renumbered in order of first use, and the result
    /// holds as many of this mesh's leading vertices as there are distinct
    /// corners, which is why the mesh must have at least that many.
    pub fn get_triangles(&self) -> (r: SingleShapeMesh<VERTEX>)
        requires
            self.is_triangulated() || first_uses(triangle_corners(self.shapes@)).len()
                <= self.vertices@.len(),
        ensures
            self.is_triangulated() ==> r.vertices@ == self.vertices@ && r.indices@ == all_corners(
                self.shapes@,
            ),
            !self.is_triangulated() ==> r.vertices@ == self.vertices@.take(
                first_uses(triangle_corners(self.shapes@)).len() as int,
            ) && r.indices@ == renumbered(triangle_corners(self.shapes@)),
    {
        if self.only_triangles() {
            let indices = self.flatten_indices();
            let vertices = copy_all(&self.vertices);
            return SingleShapeMesh::new(vertices, indices);
        }
        let mut vertices: Vec<VERTEX> = Vec::new();
        let mut indices: Vec<usize> = Vec::new();
        let mut used_indices: BTreeMap<usize, usize> = BTreeMap::new();
        let ghost all = triangle_corners(self.shapes@);
        let mut i: usize = 0;
        assert(vertices@ =~= self.vertices@.take(0));
        while i < self.shapes.len()
            invariant
                i <= self.shapes@.len(),
                all == triangle_corners(self.shapes@),
                first_uses(all).len() <= self.vertices@.len(),
                tracks(
                    used_indices@,
                    triangle_corners(self.shapes@.take(i as int)),
                    vertices@,
                    self.vertices@,
                ),
                indices@ == renumbered(triangle_corners(self.shapes@.take(i as int))),
            decreases self.shapes@.len() - i,
        {
            let ghost seen = triangle_corners(self.shapes@.take(i as int));
            proof {
                assert(self.shapes@.take(i + 1).drop_last() =~= self.shapes@.take(i as int));
                assert(self.shapes@.take(i + 1).last() == self.shapes@[i as int]);
                lemma_triangle_corners_split(self.shapes@, i + 1);
                lemma_first_uses_grows(
                    triangle_corners(self.shapes@.take(i + 1)),
                    triangle_corners(self.shapes@.skip(i + 1)),
                );
            }
            match self.shapes[i] {
                Shape::Triangle(a, b, c) => {
                    proof {
                        let rest = seq![a, b, c];
                        assert(seen + rest =~= seen.push(a).push(b).push(c));
                        lemma_first_uses_grows(seen.push(a), seq![b, c]);
                        assert(seen.push(a) + seq![b, c] =~= seen + rest);
                        lemma_first_uses_grows(seen.push(a).push(b), seq![c]);
                        assert(seen.push(a).push(b) + seq![c] =~= seen + rest);
                    }
                    let a = renumber_corner(
                        &mut used_indices,
                        &self.vertices,
                        &mut vertices,
                        a,
                        Ghost(seen),
                    );
                    let b = renumber_corner(
                        &mut used_indices,
                        &self.vertices,
                        &mut vertices,
                        b,
                        Ghost(seen.push(self.shapes@[i as int]->Triangle_0)),
                    );
                    let c = renumber_corner(
                        &mut used_indices,
                        &self.vertices,
                        &mut vertices,
                        c,
                        Ghost(
                            seen.push(self.shapes@[i as int]->Triangle_0).push(
                                self.shapes@[i as int]->Triangle_1,
                            ),
                        ),
                    );
                    indices.push(a);
                    indices.push(b);
                    indices.push(c);
                },
                _ => {},
            }
            i += 1;
        }
        assert(self.shapes@.take(i as int) =~= self.shapes@);
        SingleShapeMesh::new(vertices, indices)
    }

    /// The lines of the mesh as a mesh of their own: their corners renumbered
    /// in order of first use, over as many of this mesh's leading vertices as
    /// there are distinct corners.
    pub fn get_lines(&self) -> (r: SingleShapeMesh<VERTEX>)
        requires
            first_uses(line_corners(self.shapes@)).len() <= self.vertices@.len(),
        ensures
            r.vertices@ == self.vertices@.take(first_uses(line_corners(self.shapes@)).len() as int),
            r.indices@ == renumbered(line_corners(self.shapes@)),
    {
        let mut vertices: Vec<VERTEX> = Vec::new();
        let mut indices: Vec<usize> = Vec::new();
        let mut used_indices: BTreeMap<usize, usize> = BTreeMap::new();
        let ghost all = line_corners(self.shapes@);
        let mut i: usize = 0;
        assert(vertices@ =~= self.vertices@.take(0));
        while i < self.shapes.len()
            invariant
                i <= self.shapes@.len(),
                all == line_corners(self.shapes@),
                first_uses(all).len() <= self.vertices@.len(),
                tracks(
                    used_indices@,
                    line_corners(self.shapes@.take(i as int)),
                    vertices@,
                    self.vertices@,
                ),
                indices@ == renumbered(line_corners(self.shapes@.take(i as int))),
            decreases self.shapes@.len() - i,
        {
            let ghost seen = line_corners(self.shapes@.take(i as int));
            proof {
                assert(self.shapes@.take(i + 1).drop_last() =~= self.shapes@.take(i as int));
                assert(self.shapes@.take(i + 1).last() == self.shapes@[i as int]);
                lemma_line_corners_split(self.shapes@, i + 1);
                lemma_first_uses_grows(
                    line_corners(self.shapes@.take(i + 1)),
                    line_corners(self.shapes@.skip(i + 1)),
                );
            }
            match self.shapes[i] {
                Shape::Line(a, b) => {
                    proof {
                        let rest = seq![a, b];
                        assert(seen + rest =~= seen.push(a).push(b));
                        lemma_first_uses_grows(seen.push(a), seq![b]);
                        assert(seen.push(a) + seq![b] =~= seen + rest);
                    }
                    let a = renumber_corner(
                        &mut used_indices,
                        &self.vertices,
                        &mut vertices,
                        a,
                        Ghost(seen),
                    );
                    let b = renumber_corner(
                        &mut used_indices,
                        &self.vertices,
                        &mut vertices,
                        b,
                        Ghost(seen.push(self.shapes@[i as int]->Line_0)),
                    );
                    indices.push(a);
                    indices.push(b);
                },
                _ => {},
            }
            i += 1;
        }
        assert(self.shapes@.take(i as int) =~= self.shapes@);
        SingleShapeMesh::new(vertices, indices)
    }
}

} // verus!
