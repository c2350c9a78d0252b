//! Meshes: one primitive's attribute streams expanded, index by index, into
//! a flat vertex list with a draw topology.

use vstd::prelude::*;
use crate::error::MeshLoadError;
use crate::material::MaterialData;
use crate::scalar::{from_index, index_bits, ONE, ZERO};

verus! {

/// One vertex as the shader reads it.
#[derive(Clone, Copy, Debug, PartialEq, Eq)]
pub struct Vertex {
    pub a_pos: [u32; 3],
    pub a_normal: [u32; 3],
    pub a_uv: [u32; 2],
    pub a_color: [u32; 4],
    /// The joints that move this vertex, as indices into the skin's joints,
    /// each held as the scalar of that value.
    pub a_joints: [u32; 4],
    pub a_weights: [u32; 4],
}

/// The topology of a primitive in the asset document.
#[derive(Clone, Copy, Debug, PartialEq, Eq)]
pub enum Mode {
    Points,
    Lines,
    LineLoop,
    LineStrip,
    Triangles,
    TriangleStrip,
    TriangleFan,
}

/// The topology of a draw call. Lines carry their width.
#[derive(Clone, Copy, Debug, PartialEq, Eq)]
pub enum DrawMode {
    Points,
    Lines { line_width: u32 },
    LineStrip { line_width: u32 },
    LineLoop { line_width: u32 },
    Triangles,
    TriangleStrip,
    TriangleFan,
}

/// One primitive as the asset document gives it. Every stream may be absent;
/// positions and indices are required of a primitive that is to be drawn.
#[derive(Debug)]
pub struct PrimitiveData {
    pub positions: Option<Vec<[u32; 3]>>,
    pub normals: Option<Vec<[u32; 3]>>,
    pub tex_coords: Option<Vec<[u32; 2]>>,
    pub colors: Option<Vec<[u32; 4]>>,
    pub joints: Option<Vec<[u16; 4]>>,
    pub weights: Option<Vec<[u32; 4]>>,
    pub indices: Option<Vec<u32>>,
    pub mode: Mode,
    pub material: PrimitiveMaterial,
}

/// The material of a primitive: one of the document's materials, or, for a
/// primitive that names none, the material that the document gives it.
#[derive(Clone, Copy, Debug, PartialEq, Eq)]
pub enum PrimitiveMaterial {
    /// An index into the document's materials.
    Indexed(usize),
    /// A material of the primitive's own.
    Default(MaterialData),
}

/// One mesh as the asset document gives it: its primitives, each of which
/// becomes a mesh of its own to draw.
#[derive(Debug)]
pub struct MeshData {
    pub name: Option<String>,
    pub primitives: Vec<PrimitiveData>,
}

/// Every primitive of the first `upto` meshes, in document order.
pub open spec fn primitives_of(meshes: Seq<MeshData>, upto: nat) -> Seq<PrimitiveData>
    decreases upto,
{
    if upto == 0 {
        Seq::empty()
    } else {
        primitives_of(meshes, (upto - 1) as nat) + meshes[upto - 1].primitives@
    }
}

/// For every primitive of the first `upto` meshes, in document order, the
/// mesh that it is a primitive of.
pub open spec fn sources_of(meshes: Seq<MeshData>, upto: nat) -> Seq<usize>
    decreases upto,
{
    if upto == 0 {
        Seq::empty()
    } else {
        sources_of(meshes, (upto - 1) as nat) + Seq::new(
            meshes[upto - 1].primitives@.len(),
            |p: int| (upto - 1) as usize,
        )
    }
}

/// There is one source per primitive.
pub proof fn lemma_sources_len(meshes: Seq<MeshData>, upto: nat)
    requires
        upto <= meshes.len(),
    ensures
        sources_of(meshes, upto).len() == primitives_of(meshes, upto).len(),
    decreases upto,
{
    if upto > 0 {
        lemma_sources_len(meshes, (upto - 1) as nat);
    }
}

/// Primitive `p` of mesh `m` stands among the primitives of all meshes right
/// after those of the meshes before `m` and the `p` before it, and its
/// source is `m`.
pub proof fn lemma_primitive_place(meshes: Seq<MeshData>, upto: nat, m: int, p: int)
    requires
        0 <= m < upto <= meshes.len(),
        0 <= p < meshes[m].primitives@.len(),
        meshes.len() <= usize::MAX,
    ensures
        primitives_of(meshes, m as nat).len() + p < primitives_of(meshes, upto).len(),
        primitives_of(meshes, upto)[primitives_of(meshes, m as nat).len() + p]
            == meshes[m].primitives@[p],
        sources_of(meshes, upto)[primitives_of(meshes, m as nat).len() + p] == m,
        sources_of(meshes, upto).len() == primitives_of(meshes, upto).len(),
    decreases upto,
{
    lemma_sources_len(meshes, upto);
    lemma_sources_len(meshes, (upto - 1) as nat);
    lemma_sources_len(meshes, m as nat);
    if m < upto - 1 {
        lemma_primitive_place(meshes, (upto - 1) as nat, m, p);
    }
}

/// One renderable primitive: its vertices, one per index, its material and
/// its topology.
#[derive(Debug)]
pub struct Mesh {
    pub data: Vec<Vertex>,
    pub material: usize,
    pub mode: DrawMode,
}

/// The draw topology of a primitive mode. Lines are one unit wide: the asset
/// has no field for their width.
pub open spec fn draw_mode_spec(mode: Mode) -> DrawMode {
    match mode {
        Mode::Points => DrawMode::Points,
        Mode::Lines => DrawMode::Lines { line_width: ONE },
        Mode::LineLoop => DrawMode::LineLoop { line_width: ONE },
        Mode::LineStrip => DrawMode::LineStrip { line_width: ONE },
        Mode::Triangles => DrawMode::Triangles,
        Mode::TriangleStrip => DrawMode::TriangleStrip,
        Mode::TriangleFan => DrawMode::TriangleFan,
    }
}

/// The draw topology of a primitive mode.
pub fn draw_mode(mode: Mode) -> (r: DrawMode)
    ensures
        r == draw_mode_spec(mode),
{
    match mode {
        Mode::Points => DrawMode::Points,
        Mode::Lines => DrawMode::Lines { line_width: ONE },
        Mode::LineLoop => DrawMode::LineLoop { line_width: ONE },
        Mode::LineStrip => DrawMode::LineStrip { line_width: ONE },
        Mode::Triangles => DrawMode::Triangles,
        Mode::TriangleStrip => DrawMode::TriangleStrip,
        Mode::TriangleFan => DrawMode::TriangleFan,
    }
}

/// Four joint indices as scalars of the same values.
pub open spec fn joint_scalars(joints: [u16; 4]) -> [u32; 4] {
    [index_bits(joints[0]), index_bits(joints[1]), index_bits(joints[2]), index_bits(joints[3])]
}

/// An optional stream reaches index `ix`: it is absent, or long enough.
pub open spec fn reaches<T>(stream: Option<Vec<T>>, ix: int) -> bool {
    stream matches Some(values) ==> ix < values@.len()
}

/// Element `ix` of an optional stream, and `default` where it is absent.
pub open spec fn element_or<T>(stream: Option<Vec<T>>, ix: int, default: T) -> T {
    match stream {
        Some(values) => values@[ix],
        None => default,
    }
}

/// Reads element `ix` of an optional stream, `default` where the stream is
/// absent, and nothing where it is too short.
fn fetch<T: Copy>(stream: &Option<Vec<T>>, ix: usize, default: T) -> (r: Option<T>)
    ensures
        r is Some <==> reaches(*stream, ix as int),
        r matches Some(value) ==> value == element_or(*stream, ix as int, default),
{
    match stream {
        Some(values) => if ix < values.len() {
            Some(values[ix])
        } else {
            None
        },
        None => Some(default),
    }
}

impl PrimitiveData {
    /// Vertex `ix` exists in the position stream and in every optional
    /// stream that is present.
    pub open spec fn has_vertex(&self, ix: int) -> bool {
        &&& self.positions matches Some(positions) && 0 <= ix < positions@.len()
        &&& reaches(self.normals, ix)
        &&& reaches(self.tex_coords, ix)
        &&& reaches(self.colors, ix)
        &&& reaches(self.joints, ix)
        &&& reaches(self.weights, ix)
    }

    /// Vertex `ix`: position copied; normal, texture coordinate, joints and
    /// weights zero where their stream is absent, and colour opaque white.
    pub open spec fn vertex(&self, ix: int) -> Vertex {
        Vertex {
            a_pos: element_or(self.positions, ix, [ZERO, ZERO, ZERO]),
            a_normal: element_or(self.normals, ix, [ZERO, ZERO, ZERO]),
            a_uv: element_or(self.tex_coords, ix, [ZERO, ZERO]),
            a_color: element_or(self.colors, ix, [ONE, ONE, ONE, ONE]),
            a_joints: match self.joints {
                Some(joints) => joint_scalars(joints@[ix]),
                None => [ZERO, ZERO, ZERO, ZERO],
            },
            a_weights: element_or(self.weights, ix, [ZERO, ZERO, ZERO, ZERO]),
        }
    }

    /// Reads vertex `ix`, if every stream that is present holds it.
    pub fn read_vertex(&self, ix: usize) -> (r: Option<Vertex>)
        requires
            self.positions is Some,
        ensures
            r is Some <==> self.has_vertex(ix as int),
            r matches Some(vertex) ==> vertex == self.vertex(ix as int),
    {
        let a_pos = match fetch(&self.positions, ix, [ZERO, ZERO, ZERO]) {
            Some(value) => value,
            None => {
                return None;
            },
        };
        let a_normal = match fetch(&self.normals, ix, [ZERO, ZERO, ZERO]) {
            Some(value) => value,
            None => {
                return None;
            },
        };
        let a_uv = match fetch(&self.tex_coords, ix, [ZERO, ZERO]) {
            Some(value) => value,
            None => {
                return None;
            },
        };
        let a_color = match fetch(&self.colors, ix, [ONE, ONE, ONE, ONE]) {
            Some(value) => value,
            None => {
                return None;
            },
        };
        let a_joints = match fetch(&self.joints, ix, [0u16, 0u16, 0u16, 0u16]) {
            Some(value) => [
                from_index(value[0]),
                from_index(value[1]),
                from_index(value[2]),
                from_index(value[3]),
            ],
            None => {
                return None;
            },
        };
        let a_weights = match fetch(&self.weights, ix, [ZERO, ZERO, ZERO, ZERO]) {
            Some(value) => value,
            None => {
                return None;
            },
        };
        Some(Vertex { a_pos, a_normal, a_uv, a_color, a_joints, a_weights })
    }
}

/// A primitive that has positions and no other stream still yields whole
/// vertices: the position as given, normal and texture coordinate zero,
/// colour opaque white, joints and weights zero.
pub proof fn lemma_bare_vertex_defaults(primitive: PrimitiveData, ix: int)
    requires
        primitive.positions matches Some(positions) && 0 <= ix < positions@.len(),
        primitive.normals is None,
        primitive.tex_coords is None,
        primitive.colors is None,
        primitive.joints is None,
        primitive.weights is None,
    ensures
        primitive.has_vertex(ix),
        primitive.vertex(ix) == (Vertex {
            a_pos: primitive.positions->Some_0@[ix],
            a_normal: [ZERO, ZERO, ZERO],
            a_uv: [ZERO, ZERO],
            a_color: [ONE, ONE, ONE, ONE],
            a_joints: [ZERO, ZERO, ZERO, ZERO],
            a_weights: [ZERO, ZERO, ZERO, ZERO],
        }),
{
}

impl Mesh {
    /// Why a primitive is rejected, if it is: it has no positions, or else no
    /// indices, or else an index names a vertex that a stream does not hold.
    pub open spec fn rejection(primitive: PrimitiveData) -> Option<MeshLoadError> {
        if primitive.positions is None {
            Some(MeshLoadError::MissingPositions)
        } else {
            match primitive.indices {
                None => Some(MeshLoadError::MissingIndices),
                Some(indices) => if exists|i: int|
                    0 <= i < indices@.len() && !primitive.has_vertex(#[trigger] indices@[i] as int) {
                    Some(MeshLoadError::InvalidIndex)
                } else {
                    None
                },
            }
        }
    }

    /// The mesh holds one vertex per index of `primitive`, in index order.
    pub open spec fn loaded_from(&self, primitive: PrimitiveData, material: int) -> bool {
        &&& primitive.indices matches Some(indices)
        &&& self.data@.len() == indices@.len()
        &&& forall|i: int|
            0 <= i < indices@.len() ==> #[trigger] self.data@[i] == primitive.vertex(
                indices@[i] as int,
            )
        &&& self.material == material
        &&& self.mode == draw_mode_spec(primitive.mode)
    }

    /// Expands a primitive into one vertex per index.
    #[verifier::loop_isolation(false)]
    pub fn load(primitive: &PrimitiveData, material: usize) -> (r: Result<Mesh, MeshLoadError>)
        ensures
            match r {
                Ok(mesh) => Mesh::rejection(*primitive) is None && mesh.loaded_from(
                    *primitive,
                    material as int,
                ),
                Err(e) => Mesh::rejection(*primitive) == Some(e),
            },
    {
        if primitive.positions.is_none() {
            return Err(MeshLoadError::MissingPositions);
        }
        let indices = match &primitive.indices {
            Some(indices) => indices,
            None => {
                return Err(MeshLoadError::MissingIndices);
            },
        };
        let mode = draw_mode(primitive.mode);
        let mut data: Vec<Vertex> = Vec::new();
        let mut i: usize = 0;
        while i < indices.len()
            invariant
                i <= indices@.len(),
                data@.len() == i,
                forall|j: int| 0 <= j < i ==> primitive.has_vertex(#[trigger] indices@[j] as int),
                forall|j: int|
                    0 <= j < i ==> #[trigger] data@[j] == primitive.vertex(indices@[j] as int),
            decreases indices@.len() - i,
        {
            match primitive.read_vertex(indices[i] as usize) {
                Some(vertex) => {
                    data.push(vertex);
                },
                None => {
                    assert(!primitive.has_vertex(indices@[i as int] as int));
                    return Err(MeshLoadError::InvalidIndex);
                },
            }
            i += 1;
        }
        Ok(Mesh { data, material, mode })
    }
}

} // verus!
