//! A rule-expansion engine for procedural geometry: transforms compose along a tree of rule
//! invocations that ends in shared meshes, and a worklist walks that tree, lazily, into
//! placed mesh instances.
//!
//! The engine is generic over the transform, vertex and colour types: composition,
//! application to a point and colour adjustment are handed in as functions, and every
//! contract holds for whatever those functions return.
pub mod color;
pub mod error;
pub mod export;
pub mod mesh;
pub mod rule;
pub mod transforms;

pub use crate::color::ColorTransform;
pub use crate::error::Error;
pub use crate::export::{ExportConfig, ExportError, FaceRef, GroupLine, MeshGrouping, ObjOffsets};
pub use crate::mesh::{Mesh, OutputMeshSource, PrimitiveMesh, Primitives};
pub use crate::rule::{Invocation, MeshIter, Node, OutputMesh, Rule, Step, ToRule};
pub use crate::transforms::{Replicate, Transform, TransformArgument};
