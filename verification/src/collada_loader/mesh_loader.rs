//! A mesh from the shapes of an object, with one vertex for each distinct
//! combination of a position, a texture position, a normal and weights.

pub use crate::collada_load::mesh::MeshLoadError;
use crate::collada_load::mesh::{first_uses, kept_corners, load_shapes, mesh_shapes, Corner, CornerShape};
use crate::mesh::Mesh;
use collada::{JointWeights, TVertex, Vertex};
use vstd::prelude::*;

verus! {

#[verifier::external_type_specification]
#[verifier::external_body]
pub struct ExVertex(collada::Vertex);

#[verifier::external_type_specification]
#[verifier::external_body]
pub struct ExTVertex(collada::TVertex);

#[verifier::external_type_specification]
#[verifier::external_body]
pub struct ExJointWeights(collada::JointWeights);

pub type TexVert = TVertex;

pub type Vert = Vertex;

pub type Weights = JointWeights;

/// What an object holds for its mesh: the positions, texture positions,
/// normals and joint weights that corners name by index, and the shapes,
/// geometry by geometry.
pub struct MeshSource {
    pub vertices: Vec<Vertex>,
    pub joint_weights: Vec<JointWeights>,
    pub tex_vertices: Vec<TVertex>,
    pub normals: Vec<Vertex>,
    pub geometry: Vec<Vec<CornerShape>>,
}

/// A vertex that can be made of the parts that a corner names.
pub trait VertexFromParts: Sized {
    /// The vertex of the parts, if they make one. A kind of vertex that does
    /// not say has some answer for each set of parts, which `from_parts`
    /// hands out.
    open spec fn made_of(
        vertex: Vertex,
        tvertex: Option<TVertex>,
        normal: Option<Vertex>,
        weights: Option<JointWeights>,
    ) -> Option<Self> {
        arbitrary()
    }

    fn from_parts(
        vertex: Vertex,
        tvertex: Option<TVertex>,
        normal: Option<Vertex>,
        weights: Option<JointWeights>,
    ) -> (r: Option<Self>)
        ensures
            r == Self::made_of(vertex, tvertex, normal, weights),
    ;
}

impl MeshSource {
    /// The object has what the corner names.
    pub open spec fn has(&self, corner: Corner) -> bool {
        &&& corner.0 < self.vertices@.len()
        &&& corner.1 matches Some(index) ==> index < self.tex_vertices@.len()
        &&& corner.2 matches Some(index) ==> index < self.normals@.len()
    }

    /// The parts that the corner names: its position, its texture position
    /// and its normal where it names them, and the weights of its position
    /// where the object has weights for every position.
    pub open spec fn parts(&self, corner: Corner) -> (
        Vertex,
        Option<TVertex>,
        Option<Vertex>,
        Option<JointWeights>,
    ) {
        (
            self.vertices@[corner.0 as int],
            match corner.1 {
                Some(index) => Some(self.tex_vertices@[index as int]),
                None => None,
            },
            match corner.2 {
                Some(index) => Some(self.normals@[index as int]),
                None => None,
            },
            if self.joint_weights@.len() == self.vertices@.len() {
                Some(self.joint_weights@[corner.0 as int])
            } else {
                None
            },
        )
    }

    /// The vertex of a corner, of the kind `T`, if its parts make one.
    pub open spec fn vertex_of<T: VertexFromParts>(&self, corner: Corner) -> Option<T> {
        let parts = self.parts(corner);
        T::made_of(parts.0, parts.1, parts.2, parts.3)
    }

    /// The shapes of all geometries, geometry after geometry.
    pub open spec fn shapes(&self) -> Seq<CornerShape> {
        all_shapes(self.geometry@)
    }
}

/// The shapes of a list of geometries, geometry after geometry.
pub open spec fn all_shapes(geometry: Seq<Vec<CornerShape>>) -> Seq<CornerShape>
    decreases geometry.len(),
{
    if geometry.len() == 0 {
        Seq::empty()
    } else {
        all_shapes(geometry.drop_last()) + geometry.last()@
    }
}

impl MeshSource {
    /// Whether the object has what the corner names.
    pub fn has_corner(&self, corner: Corner) -> (r: bool)
        ensures
            r == self.has(corner),
    {
        if corner.0 >= self.vertices.len() {
            return false;
        }
        if let Some(index) = corner.1 {
            if index >= self.tex_vertices.len() {
                return false;
            }
        }
        match corner.2 {
            Some(index) => index < self.normals.len(),
            None => true,
        }
    }
}

fn get_parts(index: Corner, obj: &MeshSource) -> (r: (
    Vertex,
    Option<TVertex>,
    Option<Vertex>,
    Option<JointWeights>,
))
    requires
        obj.has(index),
    ensures
        r == obj.parts(index),
{
    let vertex = obj.vertices[index.0];
    let texture = match index.1 {
        Some(index) => Some(obj.tex_vertices[index]),
        None => None,
    };
    let normal = match index.2 {
        Some(index) => Some(obj.normals[index]),
        None => None,
    };
    let joint = if obj.joint_weights.len() == obj.vertices.len() {
        Some(obj.joint_weights[index.0])
    } else {
        None
    };
    (vertex, texture, normal, joint)
}

/// The mesh of the shapes of the object: one vertex for each distinct
/// corner, in order of first use, made of the parts that the corner names,
/// and the shapes with their corners renumbered to match. Fails where the
/// parts of a corner make no vertex.
pub fn load_mesh<T: VertexFromParts + Copy>(obj: &MeshSource) -> (r: Result<Mesh<T>, MeshLoadError>)
    requires
        forall|c: Corner| #[trigger] kept_corners(obj.shapes(), true).contains(c) ==> obj.has(c),
    ensures
        match r {
            Ok(mesh) => {
                let uses = first_uses(kept_corners(obj.shapes(), true));
                &&& mesh.shapes@ == mesh_shapes(obj.shapes(), true)
                &&& mesh.vertices@.len() == uses.len()
                &&& forall|p: int|
                    0 <= p < uses.len() ==> obj.vertex_of::<T>(#[trigger] uses[p]) == Some(
                        mesh.vertices@[p],
                    )
            },
            Err(_) => exists|c: Corner| #[trigger]
                kept_corners(obj.shapes(), true).contains(c) && obj.vertex_of::<T>(c) is None,
        },
{
    let mut shapes: Vec<CornerShape> = Vec::new();
    let mut g: usize = 0;
    assert(obj.geometry@.take(0) =~= Seq::<Vec<CornerShape>>::empty());
    while g < obj.geometry.len()
        invariant
            g <= obj.geometry@.len(),
            shapes@ == all_shapes(obj.geometry@.take(g as int)),
        decreases obj.geometry@.len() - g,
    {
        let geometry = &obj.geometry[g];
        let ghost before = shapes@;
        let mut k: usize = 0;
        while k < geometry.len()
            invariant
                k <= geometry@.len(),
                shapes@ == before + geometry@.take(k as int),
            decreases geometry@.len() - k,
        {
            shapes.push(geometry[k]);
            k += 1;
            assert(shapes@ =~= before + geometry@.take(k as int));
        }
        proof {
            assert(geometry@.take(k as int) =~= geometry@);
            assert(obj.geometry@.take(g + 1).drop_last() =~= obj.geometry@.take(g as int));
            assert(obj.geometry@.take(g + 1).last() == obj.geometry@[g as int]);
        }
        g += 1;
    }
    assert(obj.geometry@.take(g as int) =~= obj.geometry@);
    let make_vertex = |corner: Corner| -> (made: Option<T>)
        requires
            obj.has(corner),
        ensures
            made == obj.vertex_of::<T>(corner),
        {
            let (vertex, tvertex, normal, weights) = get_parts(corner, obj);
            T::from_parts(vertex, tvertex, normal, weights)
        };
    load_shapes(shapes.as_slice(), true, make_vertex)
}

} // verus!
