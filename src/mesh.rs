//! Mesh data, shared by reference count and never copied per placement.
use vstd::prelude::*;

use std::rc::Rc;

verus! {

/// Geometry that rules place: vertices, optional per-vertex normals, and faces, each face a
/// list of 1-based indices into the vertices.
pub struct Mesh<V> {
    pub vertices: Vec<V>,
    pub normals: Option<Vec<V>>,
    pub faces: Vec<Vec<usize>>,
}

impl<V> Mesh<V> {
    /// Allocates a mesh from the given vertices, normals and faces, shared by every rule
    /// that places it.
    pub fn from(vertices: Vec<V>, normals: Option<Vec<V>>, faces: Vec<Vec<usize>>) -> (r: Rc<
        Self,
    >)
        ensures
            r.vertices == vertices,
            r.normals == normals,
            r.faces == faces,
    {
        Rc::new(Mesh { vertices, normals, faces })
    }
}

/// A built-in mesh, whose data a `Primitives` table holds.
#[derive(Clone, Copy, Debug, PartialEq, Eq, Structural)]
pub enum PrimitiveMesh {
    Cube,
    IcoSphere,
}

/// Where the geometry of a placed mesh lives.
pub enum OutputMeshSource<V> {
    /// A built-in mesh.
    Primitive(PrimitiveMesh),
    /// A mesh made by the caller.
    Dynamic(Rc<Mesh<V>>),
}

impl<V> OutputMeshSource<V> {
    /// Another handle to the same geometry; the mesh data is shared, not copied.
    pub fn share(&self) -> (r: Self)
        ensures
            r == *self,
    {
        match self {
            OutputMeshSource::Primitive(p) => OutputMeshSource::Primitive(*p),
            OutputMeshSource::Dynamic(m) => OutputMeshSource::Dynamic(Rc::clone(m)),
        }
    }
}

} // verus!

verus! {

/// The data of the built-in meshes, made once and shared by every placement.
pub struct Primitives<V> {
    pub cube: Rc<Mesh<V>>,
    pub icosphere: Rc<Mesh<V>>,
}

impl PrimitiveMesh {
    /// The data of this built-in mesh in `table`.
    pub fn mesh<'a, V>(&self, table: &'a Primitives<V>) -> (r: &'a Mesh<V>)
        ensures
            *r == self.spec_mesh(*table),
    {
        match self {
            PrimitiveMesh::Cube => &*table.cube,
            PrimitiveMesh::IcoSphere => &*table.icosphere,
        }
    }

    pub open spec fn spec_mesh<V>(&self, table: Primitives<V>) -> Mesh<V> {
        match self {
            PrimitiveMesh::Cube => *table.cube,
            PrimitiveMesh::IcoSphere => *table.icosphere,
        }
    }
}

impl<V> OutputMeshSource<V> {
    /// The mesh data this source refers to.
    pub open spec fn spec_mesh(&self, table: Primitives<V>) -> Mesh<V> {
        match self {
            OutputMeshSource::Primitive(p) => p.spec_mesh(table),
            OutputMeshSource::Dynamic(m) => **m,
        }
    }

    /// The mesh data this source refers to, borrowed, never copied.
    pub fn mesh<'a>(&'a self, table: &'a Primitives<V>) -> (r: &'a Mesh<V>)
        ensures
            *r == self.spec_mesh(*table),
    {
        match self {
            OutputMeshSource::Primitive(p) => p.mesh(table),
            OutputMeshSource::Dynamic(m) => &**m,
        }
    }
}

/// `r` is `points` moved by an optional transform: unchanged without one, else each point
/// as `apply` gives it under the transform.
pub open spec fn is_moved<T, V, A: Fn(T, V) -> V>(
    apply: A,
    transform: Option<T>,
    points: Seq<V>,
    r: Seq<V>,
) -> bool {
    &&& r.len() == points.len()
    &&& forall|i: int|
        0 <= i < points.len() ==> match transform {
            None => r[i] == points[i],
            Some(t) => apply.ensures((t, points[i]), #[trigger] r[i]),
        }
}

/// `apply` can place any point under any transform.
pub open spec fn apply_total<T, V, A: Fn(T, V) -> V>(apply: A) -> bool {
    forall|t: T, v: V| #[trigger] apply.requires((t, v))
}

/// Moves each of `points` by an optional transform.
pub fn move_points<T: Copy, V: Copy, A: Fn(T, V) -> V>(
    transform: Option<T>,
    points: &Vec<V>,
    apply: &A,
) -> (r: Vec<V>)
    requires
        apply_total(*apply),
    ensures
        is_moved(*apply, transform, points@, r@),
{
    let mut out: Vec<V> = Vec::new();
    let mut i: usize = 0;
    while i < points.len()
        invariant
            apply_total(*apply),
            i <= points.len(),
            is_moved(*apply, transform, points@.take(i as int), out@),
        decreases points.len() - i,
    {
        let p = match transform {
            None => points[i],
            Some(t) => apply(t, points[i]),
        };
        let ghost before = out@;
        out.push(p);
        proof {
            assert forall|j: int| 0 <= j < i + 1 implies match transform {
                None => out@[j] == points@.take(i + 1)[j],
                Some(t) => apply.ensures((t, points@.take(i + 1)[j]), #[trigger] out@[j]),
            } by {
                if j < i {
                    assert(out@[j] == before[j]);
                    assert(points@.take(i + 1)[j] == points@.take(i as int)[j]);
                }
            }
        }
        i += 1;
    }
    assert(points@.take(i as int) =~= points@);
    out
}

} // verus!
