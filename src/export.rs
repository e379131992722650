//! Export settings and the index bookkeeping of a Wavefront object file.
use vstd::prelude::*;

verus! {

/// Relies on `std::io::Error` only as a value carried inside an export error.
#[verifier::external_type_specification]
#[verifier::external_body]
pub struct ExIoError(std::io::Error);

/// Why an export stopped: the object data or the material data could not be written.
pub enum ExportError {
    ObjWriteError { write_error: std::io::Error },
    MtlWriteError { write_error: std::io::Error },
}

/// How the placed meshes are grouped in the object file.
#[derive(Clone, Copy, Debug, PartialEq, Eq, Structural)]
pub enum MeshGrouping {
    /// All meshes will be combined into one object.
    AllTogether,
    /// Each mesh will be its own object.
    Individual,
    /// Each mesh is grouped with others of the same color.
    ByColor,
}

impl Default for MeshGrouping {
    fn default() -> (r: MeshGrouping)
        ensures
            r == MeshGrouping::AllTogether,
    {
        MeshGrouping::AllTogether
    }
}

/// Export settings.
pub struct ExportConfig {
    /// Mesh grouping policy.
    pub grouping: MeshGrouping,
    /// Material library to write each colour to, referenced from the object file.
    pub export_colors: Option<String>,
}

impl Default for ExportConfig {
    fn default() -> (r: ExportConfig)
        ensures
            r.grouping == MeshGrouping::AllTogether,
            r.export_colors is None,
    {
        ExportConfig { grouping: MeshGrouping::AllTogether, export_colors: None }
    }
}

/// The group directive written before a mesh.
#[derive(Clone, Copy, Debug, PartialEq, Eq, Structural)]
pub enum GroupLine {
    /// No directive.
    Nothing,
    /// A group named after the number of vertices written before this mesh.
    Numbered(usize),
    /// A group named after the mesh's colour.
    Colored,
}

/// The group directive for the next mesh, which starts after `vertex_offset` vertices.
pub fn group_line(grouping: MeshGrouping, vertex_offset: usize) -> (r: GroupLine)
    ensures
        r == match grouping {
            MeshGrouping::AllTogether => GroupLine::Nothing,
            MeshGrouping::Individual => GroupLine::Numbered(vertex_offset),
            MeshGrouping::ByColor => GroupLine::Colored,
        },
{
    match grouping {
        MeshGrouping::AllTogether => GroupLine::Nothing,
        MeshGrouping::Individual => GroupLine::Numbered(vertex_offset),
        MeshGrouping::ByColor => GroupLine::Colored,
    }
}

/// One corner of a face in the object file: a global vertex index, and a global normal
/// index where the mesh has normals.
#[derive(Clone, Copy, Debug, PartialEq, Eq, Structural)]
pub struct FaceRef {
    pub vertex: usize,
    pub normal: Option<usize>,
}

/// How many vertices and normals the meshes written so far hold; each mesh's 1-based
/// local indices are shifted past them.
#[derive(Clone, Copy, Debug, PartialEq, Eq, Structural)]
pub struct ObjOffsets {
    pub vertex_offset: usize,
    pub normal_offset: usize,
}

impl ObjOffsets {
    /// Nothing written yet.
    pub fn new() -> (r: Self)
        ensures
            r.vertex_offset == 0,
            r.normal_offset == 0,
    {
        ObjOffsets { vertex_offset: 0, normal_offset: 0 }
    }

    /// Counts a written mesh with `vertex_count` vertices and `normal_count` normals.
    pub fn advance(&mut self, vertex_count: usize, normal_count: usize)
        requires
            old(self).vertex_offset + vertex_count <= usize::MAX,
            old(self).normal_offset + normal_count <= usize::MAX,
        ensures
            final(self).vertex_offset == old(self).vertex_offset + vertex_count,
            final(self).normal_offset == old(self).normal_offset + normal_count,
    {
        self.vertex_offset = self.vertex_offset + vertex_count;
        self.normal_offset = self.normal_offset + normal_count;
    }

    /// The corners of a face of the next mesh, its local indices shifted past what was
    /// written before.
    pub fn face_refs(&self, face: &Vec<usize>, has_normals: bool) -> (r: Vec<FaceRef>)
        requires
            forall|i: int|
                0 <= i < face.len() ==> #[trigger] face[i] + self.vertex_offset <= usize::MAX
                    && face[i] + self.normal_offset <= usize::MAX,
        ensures
            r.len() == face.len(),
            forall|i: int|
                0 <= i < face.len() ==> #[trigger] r[i] == (FaceRef {
                    vertex: (face[i] + self.vertex_offset) as usize,
                    normal: if has_normals {
                        Some((face[i] + self.normal_offset) as usize)
                    } else {
                        None
                    },
                }),
    {
        let mut out: Vec<FaceRef> = Vec::new();
        let mut i: usize = 0;
        while i < face.len()
            invariant
                i <= face.len(),
                out.len() == i,
                forall|i: int|
                    0 <= i < face.len() ==> #[trigger] face[i] + self.vertex_offset <= usize::MAX
                        && face[i] + self.normal_offset <= usize::MAX,
                forall|j: int|
                    0 <= j < i ==> #[trigger] out[j] == (FaceRef {
                        vertex: (face[j] + self.vertex_offset) as usize,
                        normal: if has_normals {
                            Some((face[j] + self.normal_offset) as usize)
                        } else {
                            None
                        },
                    }),
            decreases face.len() - i,
        {
            let index = face[i];
            let normal = if has_normals {
                Some(index + self.normal_offset)
            } else {
                None
            };
            out.push(FaceRef { vertex: index + self.vertex_offset, normal });
            i += 1;
        }
        out
    }
}

} // verus!
