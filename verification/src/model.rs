//! The model: everything derived from one asset document, and the override
//! table that animation writes and every frame reads.

use vstd::prelude::*;
use crate::animation::{
    applied, applied_by_calls, is_transform, Animation, AnimationData, Decomposed,
};
use crate::camera::{CameraData, Projection};
use crate::error::{first_error, lemma_first_error_at, lemma_first_error_none, MeshLoadError};
use crate::material::{ImageData, Material, MaterialData};
use crate::evaluator::{
    composed_by_calls, evaluated, lemma_evaluated_lengths, rest_pose, wanted_view, TransformsView,
};
use crate::matrix::{identities, is_product, Mat4};
use crate::mesh::{
    lemma_primitive_place, primitives_of, sources_of, Mesh, MeshData, PrimitiveData,
    PrimitiveMaterial,
};
use crate::scene::{Node, Scene};
use crate::skin::{Skin, SkinData};

verus! {

/// A parsed asset, as plain values.
#[derive(Debug)]
pub struct Document {
    /// The roots of the default scene, where the asset designates one.
    pub default_scene: Option<Vec<usize>>,
    pub nodes: Vec<Node>,
    pub meshes: Vec<MeshData>,
    pub materials: Vec<MaterialData>,
    pub images: Vec<ImageData>,
    pub cameras: Vec<CameraData>,
    pub skins: Vec<SkinData>,
    pub animations: Vec<AnimationData>,
}

/// An animation under the name it is addressed by.
#[derive(Debug)]
pub struct NamedAnimation {
    pub name: String,
    pub animation: Animation,
}

/// A loaded asset.
#[derive(Debug)]
pub struct Model {
    /// The static hierarchy of the default scene.
    pub scene: Scene,
    pub cameras: Vec<Projection>,
    /// One mesh per primitive of the document, in document order.
    pub meshes: Vec<Mesh>,
    /// For each mesh, the mesh of the document that it is a primitive of.
    pub sources: Vec<usize>,
    pub materials: Vec<Material>,
    pub skins: Vec<Skin>,
    /// The named animations in document order. Where a name occurs twice,
    /// the later animation is the one addressed.
    pub animations: Vec<NamedAnimation>,
    /// The transform of the whole model.
    pub transform: Mat4,
    /// One override per node, written by animation.
    pub transforms: Vec<Mat4>,
}

/// How many of the first `upto` primitives bring a material of their own.
pub open spec fn unassigned_before(primitives: Seq<PrimitiveData>, upto: nat) -> nat
    decreases upto,
{
    if upto == 0 {
        0
    } else {
        unassigned_before(primitives, (upto - 1) as nat) + if primitives[upto - 1].material is Default {
            1nat
        } else {
            0nat
        }
    }
}

/// How many of the first `upto` animations have a name.
pub open spec fn named_before(animations: Seq<AnimationData>, upto: nat) -> nat
    decreases upto,
{
    if upto == 0 {
        0
    } else {
        named_before(animations, (upto - 1) as nat) + if animations[upto - 1].name is Some {
            1nat
        } else {
            0nat
        }
    }
}

/// The last of the first `upto` animations that goes by `name`.
pub open spec fn last_named(list: Seq<NamedAnimation>, name: Seq<char>, upto: nat) -> Option<int>
    decreases upto,
{
    if upto == 0 {
        None
    } else if list[upto - 1].name@ == name {
        Some(upto - 1)
    } else {
        last_named(list, name, (upto - 1) as nat)
    }
}

/// An animation addresses one of `node_count` nodes with every channel.
pub open spec fn targets_within(data: AnimationData, node_count: nat) -> bool {
    forall|c: int| 0 <= c < data.channels@.len() ==> (#[trigger] data.channels@[c]).target < node_count
}

impl Document {
    /// Every primitive of every mesh, in document order. Each becomes one
    /// mesh of the model.
    pub open spec fn primitives(&self) -> Seq<PrimitiveData> {
        primitives_of(self.meshes@, self.meshes@.len())
    }

    /// The mesh of the document that primitive `i` belongs to.
    pub open spec fn source_of(&self, i: int) -> usize {
        sources_of(self.meshes@, self.meshes@.len())[i]
    }

    /// The material that primitive `i` is drawn with: the one it names, or
    /// its own, appended after the document's materials.
    pub open spec fn material_of(&self, i: int) -> int {
        match self.primitives()[i].material {
            PrimitiveMaterial::Indexed(m) => m as int,
            PrimitiveMaterial::Default(_) => (self.materials@.len() + unassigned_before(
                self.primitives(),
                i as nat,
            )) as int,
        }
    }

    /// The outcome of resolving each material.
    pub open spec fn material_outcomes(&self) -> Seq<Option<MeshLoadError>> {
        Seq::new(
            self.materials@.len(),
            |i: int| Material::rejection(self.materials@[i], self.images@),
        )
    }

    /// The outcome of loading primitive `i`: its material decides, where it
    /// names one that the document does not hold or brings one that is
    /// rejected, or else its streams decide.
    pub open spec fn primitive_outcome(&self, i: int) -> Option<MeshLoadError> {
        match self.primitives()[i].material {
            PrimitiveMaterial::Indexed(m) => if m < self.materials@.len() {
                Mesh::rejection(self.primitives()[i])
            } else {
                Some(MeshLoadError::InvalidIndex)
            },
            PrimitiveMaterial::Default(data) => if Material::rejection(data, self.images@) is Some {
                Material::rejection(data, self.images@)
            } else {
                Mesh::rejection(self.primitives()[i])
            },
        }
    }

    /// The outcome of loading each primitive.
    pub open spec fn primitive_outcomes(&self) -> Seq<Option<MeshLoadError>> {
        Seq::new(self.primitives().len(), |i: int| self.primitive_outcome(i))
    }

    /// The outcome of loading each skin.
    pub open spec fn skin_outcomes(&self) -> Seq<Option<MeshLoadError>> {
        Seq::new(self.skins@.len(), |i: int| Skin::rejection(self.skins@[i], self.nodes@.len()))
    }

    /// The outcome of loading animation `i`. One without a name is passed
    /// over unread; a named one is rejected as its channels are, or else
    /// where a channel targets a node that does not exist.
    pub open spec fn animation_outcome(&self, i: int) -> Option<MeshLoadError> {
        let data = self.animations@[i];
        if data.name is None {
            None
        } else if Animation::rejection(data) is Some {
            Animation::rejection(data)
        } else if !targets_within(data, self.nodes@.len()) {
            Some(MeshLoadError::InvalidIndex)
        } else {
            None
        }
    }

    /// The outcome of loading each animation.
    pub open spec fn animation_outcomes(&self) -> Seq<Option<MeshLoadError>> {
        Seq::new(self.animations@.len(), |i: int| self.animation_outcome(i))
    }
}

impl Model {
    /// The derived arrays agree with one another: every index that one of
    /// them holds into another is in range, and there is one override per
    /// node. Whether an animation can be played is no part of this.
    pub open spec fn wf(&self) -> bool {
        &&& self.scene.wf()
        &&& self.sources@.len() == self.meshes@.len()
        &&& forall|i: int|
            0 <= i < self.sources@.len() ==> #[trigger] self.sources@[i] < self.scene.mesh_count
        &&& self.scene.camera_names@.len() == self.cameras@.len()
        &&& self.transforms@.len() == self.scene.nodes@.len()
        &&& forall|i: int|
            0 <= i < self.meshes@.len() ==> (#[trigger] self.meshes@[i]).material
                < self.materials@.len()
        &&& forall|i: int|
            0 <= i < self.skins@.len() ==> (#[trigger] self.skins@[i]).wf(self.scene.nodes@.len())
        &&& forall|i: int|
            0 <= i < self.animations@.len() ==> (#[trigger] self.animations@[i]).animation.wf(
                self.scene.nodes@.len(),
            )
    }

    /// Whether the model is well formed: what [`Model::from_gltf`] makes
    /// always is, and the operations keep it so; one whose fields were
    /// changed by hand is tested with this.
    pub fn is_well_formed(&self) -> (r: bool)
        ensures
            r == self.wf(),
    {
        if !self.scene.is_well_formed() || self.sources.len() != self.meshes.len()
            || self.scene.camera_names.len() != self.cameras.len() || self.transforms.len()
            != self.scene.nodes.len() {
            return false;
        }
        let mut i: usize = 0;
        while i < self.meshes.len()
            invariant
                i <= self.meshes@.len(),
                self.sources@.len() == self.meshes@.len(),
                forall|j: int| 0 <= j < i ==> #[trigger] self.sources@[j] < self.scene.mesh_count,
                forall|j: int|
                    0 <= j < i ==> (#[trigger] self.meshes@[j]).material < self.materials@.len(),
            decreases self.meshes@.len() - i,
        {
            if self.sources[i] >= self.scene.mesh_count || self.meshes[i].material
                >= self.materials.len() {
                return false;
            }
            i += 1;
        }
        let mut i: usize = 0;
        while i < self.skins.len()
            invariant
                i <= self.skins@.len(),
                forall|j: int|
                    0 <= j < i ==> (#[trigger] self.skins@[j]).wf(self.scene.nodes@.len()),
            decreases self.skins@.len() - i,
        {
            if !self.skins[i].is_well_formed(self.scene.nodes.len()) {
                return false;
            }
            i += 1;
        }
        let mut i: usize = 0;
        while i < self.animations.len()
            invariant
                i <= self.animations@.len(),
                forall|j: int|
                    0 <= j < i ==> (#[trigger] self.animations@[j]).animation.wf(
                        self.scene.nodes@.len(),
                    ),
            decreases self.animations@.len() - i,
        {
            if !self.animations[i].animation.is_well_formed(self.scene.nodes.len()) {
                return false;
            }
            i += 1;
        }
        true
    }

    /// Whether the animation addressed by `name` can be played at every time:
    /// there is none, or the times of each of its channels ascend and each
    /// keyframe has a sample.
    pub fn can_apply(&self, name: &str) -> (r: bool)
        ensures
            r == (self.addressed(name@) matches Some(k)
                ==> self.animations@[k].animation.playable()),
    {
        match self.find_animation(name) {
            Some(k) => self.animations[k].animation.is_playable(),
            None => true,
        }
    }

    /// Why a document is rejected, if it is. It has no default scene; or
    /// else the first stage that fails decides, and in it the first item:
    /// materials, primitives, skins, animations, and last the hierarchy.
    pub open spec fn rejection(document: Document) -> Option<MeshLoadError> {
        match document.default_scene {
            None => Some(MeshLoadError::NoDefaultScene),
            Some(roots) => {
                let materials = first_error(document.material_outcomes());
                let primitives = first_error(document.primitive_outcomes());
                let skins = first_error(document.skin_outcomes());
                let animations = first_error(document.animation_outcomes());
                if materials is Some {
                    materials
                } else if primitives is Some {
                    primitives
                } else if skins is Some {
                    skins
                } else if animations is Some {
                    animations
                } else {
                    Scene::rejection(
                        document.nodes@,
                        roots@,
                        document.meshes@.len(),
                        document.cameras@.len(),
                    )
                }
            },
        }
    }

    /// The model holds what `document` describes.
    pub open spec fn loaded_from(&self, document: Document) -> bool {
        &&& document.default_scene matches Some(roots)
        &&& self.scene.nodes == document.nodes
        &&& self.scene.roots == roots
        &&& self.scene.camera_names@.len() == document.cameras@.len()
        &&& forall|i: int|
            0 <= i < document.cameras@.len() ==> #[trigger] self.scene.camera_names@[i]
                == document.cameras@[i].name
        &&& self.cameras@.len() == document.cameras@.len()
        &&& forall|i: int|
            0 <= i < document.cameras@.len() ==> #[trigger] self.cameras@[i] == Projection::from_spec(
                document.cameras@[i].projection,
            )
        &&& self.materials@.len() == document.materials@.len() + unassigned_before(
            document.primitives(),
            document.primitives().len(),
        )
        &&& forall|i: int|
            0 <= i < document.materials@.len() ==> (#[trigger] self.materials@[i]).loaded_from(
                document.materials@[i],
                document.images@,
            )
        &&& forall|i: int|
            0 <= i < document.primitives().len() ==> ((
            #[trigger] document.primitives()[i]).material matches PrimitiveMaterial::Default(data)
                ==> document.material_of(i) < self.materials@.len()
                && self.materials@[document.material_of(i)].loaded_from(data, document.images@))
        &&& self.scene.mesh_count == document.meshes@.len()
        &&& self.sources@.len() == document.primitives().len()
        &&& forall|i: int|
            0 <= i < document.primitives().len() ==> #[trigger] self.sources@[i]
                == document.source_of(i)
        &&& self.meshes@.len() == document.primitives().len()
        &&& forall|i: int|
            0 <= i < document.primitives().len() ==> (#[trigger] self.meshes@[i]).loaded_from(
                document.primitives()[i],
                document.material_of(i),
            )
        &&& self.skins@.len() == document.skins@.len()
        &&& forall|i: int|
            0 <= i < document.skins@.len() ==> (#[trigger] self.skins@[i]).loaded_from(
                document.skins@[i],
            )
        &&& self.animations@.len() == named_before(document.animations@, document.animations@.len())
        &&& forall|i: int|
            0 <= i < document.animations@.len() ==> ((#[trigger] document.animations@[i]).name matches Some(
                name,
            ) ==> {
                let k = named_before(document.animations@, i as nat) as int;
                &&& k < self.animations@.len()
                &&& self.animations@[k].name@ == name@
                &&& self.animations@[k].animation.loaded_from(document.animations@[i])
            })
        &&& self.transform == Mat4::identity_spec()
        &&& self.transforms@ == Seq::new(document.nodes@.len(), |i: int| Mat4::identity_spec())
    }

    /// Builds a model from a parsed asset. Every failure is fatal: there is
    /// no partial model.
    #[verifier::loop_isolation(false)]
    pub fn from_gltf(document: Document) -> (r: Result<Model, MeshLoadError>)
        ensures
            match r {
                Ok(model) => Model::rejection(document) is None && model.loaded_from(document)
                    && model.wf(),
                Err(e) => Model::rejection(document) == Some(e),
            },
    {
        let ghost doc = document;
        let Document {
            default_scene,
            nodes,
            meshes: mesh_data,
            materials: material_data,
            images,
            cameras: camera_data,
            skins: skin_data,
            animations: animation_data,
        } = document;
        let roots = match default_scene {
            Some(roots) => roots,
            None => {
                return Err(MeshLoadError::NoDefaultScene);
            },
        };

        let mut materials: Vec<Material> = Vec::new();
        let mut i: usize = 0;
        while i < material_data.len()
            invariant
                i <= material_data@.len(),
                materials@.len() == i,
                forall|j: int| 0 <= j < i ==> #[trigger] doc.material_outcomes()[j] is None,
                forall|j: int|
                    0 <= j < i ==> (#[trigger] materials@[j]).loaded_from(
                        material_data@[j],
                        images@,
                    ),
            decreases material_data@.len() - i,
        {
            match Material::load(&material_data[i], &images) {
                Ok(material) => {
                    materials.push(material);
                },
                Err(e) => {
                    proof {
                        lemma_first_error_at(doc.material_outcomes(), i as int);
                    }
                    return Err(e);
                },
            }
            i += 1;
        }
        proof {
            lemma_first_error_none(doc.material_outcomes());
        }

        let ghost primitives = doc.primitives();
        let mut meshes: Vec<Mesh> = Vec::new();
        let mut sources: Vec<usize> = Vec::new();
        let mut m: usize = 0;
        while m < mesh_data.len()
            invariant
                m <= mesh_data@.len(),
                meshes@.len() == primitives_of(mesh_data@, m as nat).len(),
                meshes@.len() <= primitives.len(),
                materials@.len() == material_data@.len() + unassigned_before(
                    primitives,
                    meshes@.len() as nat,
                ),
                forall|j: int|
                    0 <= j < meshes@.len() ==> #[trigger] doc.primitive_outcomes()[j] is None,
                forall|j: int|
                    0 <= j < material_data@.len() ==> (#[trigger] materials@[j]).loaded_from(
                        material_data@[j],
                        images@,
                    ),
                forall|j: int|
                    0 <= j < meshes@.len() ==> ((
                    #[trigger] primitives[j]).material matches PrimitiveMaterial::Default(data)
                        ==> doc.material_of(j) < materials@.len() && materials@[doc.material_of(
                        j,
                    )].loaded_from(data, images@)),
                sources@.len() == meshes@.len(),
                forall|j: int|
                    0 <= j < meshes@.len() ==> #[trigger] sources@[j] == doc.source_of(j)
                        && sources@[j] < mesh_data@.len(),
                forall|j: int|
                    0 <= j < meshes@.len() ==> (#[trigger] meshes@[j]).loaded_from(
                        primitives[j],
                        doc.material_of(j),
                    ) && meshes@[j].material < materials@.len(),
            decreases mesh_data@.len() - m,
        {
            let mut p: usize = 0;
            while p < mesh_data[m].primitives.len()
                invariant
                    m < mesh_data@.len(),
                    p <= mesh_data@[m as int].primitives@.len(),
                    meshes@.len() == primitives_of(mesh_data@, m as nat).len() + p,
                    meshes@.len() <= primitives.len(),
                    materials@.len() == material_data@.len() + unassigned_before(
                        primitives,
                        meshes@.len() as nat,
                    ),
                    forall|j: int|
                        0 <= j < meshes@.len() ==> #[trigger] doc.primitive_outcomes()[j] is None,
                    forall|j: int|
                        0 <= j < material_data@.len() ==> (#[trigger] materials@[j]).loaded_from(
                            material_data@[j],
                            images@,
                        ),
                    forall|j: int|
                        0 <= j < meshes@.len() ==> ((
                        #[trigger] primitives[j]).material matches PrimitiveMaterial::Default(data)
                            ==> doc.material_of(j) < materials@.len() && materials@[doc.material_of(
                            j,
                        )].loaded_from(data, images@)),
                    sources@.len() == meshes@.len(),
                    forall|j: int|
                        0 <= j < meshes@.len() ==> #[trigger] sources@[j] == doc.source_of(j)
                            && sources@[j] < mesh_data@.len(),
                    forall|j: int|
                        0 <= j < meshes@.len() ==> (#[trigger] meshes@[j]).loaded_from(
                            primitives[j],
                            doc.material_of(j),
                        ) && meshes@[j].material < materials@.len(),
                decreases mesh_data@[m as int].primitives@.len() - p,
            {
                let primitive = &mesh_data[m].primitives[p];
                let ghost i = meshes@.len() as int;
                proof {
                    lemma_primitive_place(mesh_data@, mesh_data@.len() as nat, m as int, p as int);
                    assert(primitives[i] == *primitive);
                }
                let material = match primitive.material {
                    PrimitiveMaterial::Indexed(index) => {
                        if index >= material_data.len() {
                            proof {
                                lemma_first_error_at(doc.primitive_outcomes(), i);
                            }
                            return Err(MeshLoadError::InvalidIndex);
                        }
                        index
                    },
                    PrimitiveMaterial::Default(data) => {
                        match Material::load(&data, &images) {
                            Ok(material) => {
                                materials.push(material);
                            },
                            Err(e) => {
                                proof {
                                    lemma_first_error_at(doc.primitive_outcomes(), i);
                                }
                                return Err(e);
                            },
                        }
                        materials.len() - 1
                    },
                };
                match Mesh::load(primitive, material) {
                    Ok(mesh) => {
                        meshes.push(mesh);
                        sources.push(m);
                    },
                    Err(e) => {
                        proof {
                            lemma_first_error_at(doc.primitive_outcomes(), i);
                        }
                        return Err(e);
                    },
                }
                p += 1;
            }
            m += 1;
        }
        proof {
            lemma_first_error_none(doc.primitive_outcomes());
        }

        let mut cameras: Vec<Projection> = Vec::new();
        let mut camera_names: Vec<Option<String>> = Vec::new();
        let mut i: usize = 0;
        while i < camera_data.len()
            invariant
                i <= camera_data@.len(),
                cameras@.len() == i,
                camera_names@.len() == i,
                forall|j: int| 0 <= j < i ==> #[trigger] camera_names@[j] == camera_data@[j].name,
                forall|j: int|
                    0 <= j < i ==> #[trigger] cameras@[j] == Projection::from_spec(
                        camera_data@[j].projection,
                    ),
            decreases camera_data@.len() - i,
        {
            cameras.push(Projection::from(camera_data[i].projection));
            let name = match &camera_data[i].name {
                Some(name) => Some(name.clone()),
                None => None,
            };
            camera_names.push(name);
            i += 1;
        }

        let mut skins: Vec<Skin> = Vec::new();
        let mut i: usize = 0;
        while i < skin_data.len()
            invariant
                i <= skin_data@.len(),
                skins@.len() == i,
                forall|j: int| 0 <= j < i ==> #[trigger] doc.skin_outcomes()[j] is None,
                forall|j: int|
                    0 <= j < i ==> (#[trigger] skins@[j]).loaded_from(skin_data@[j]) && skins@[j].wf(
                        nodes@.len(),
                    ),
            decreases skin_data@.len() - i,
        {
            match Skin::load(&skin_data[i], nodes.len()) {
                Ok(skin) => {
                    skins.push(skin);
                },
                Err(e) => {
                    proof {
                        lemma_first_error_at(doc.skin_outcomes(), i as int);
                    }
                    return Err(e);
                },
            }
            i += 1;
        }
        proof {
            lemma_first_error_none(doc.skin_outcomes());
        }

        let mut animations: Vec<NamedAnimation> = Vec::new();
        let mut i: usize = 0;
        while i < animation_data.len()
            invariant
                i <= animation_data@.len(),
                animations@.len() == named_before(animation_data@, i as nat),
                forall|j: int| 0 <= j < i ==> #[trigger] doc.animation_outcomes()[j] is None,
                forall|k: int|
                    0 <= k < animations@.len() ==> (#[trigger] animations@[k]).animation.wf(
                        nodes@.len(),
                    ),
                forall|j: int|
                    0 <= j < i ==> ((#[trigger] animation_data@[j]).name matches Some(name) ==> {
                        let k = named_before(animation_data@, j as nat) as int;
                        &&& k < animations@.len()
                        &&& animations@[k].name@ == name@
                        &&& animations@[k].animation.loaded_from(animation_data@[j])
                    }),
            decreases animation_data@.len() - i,
        {
            match &animation_data[i].name {
                Some(name) => {
                    let animation = match Animation::load(&animation_data[i]) {
                        Ok(animation) => animation,
                        Err(e) => {
                            proof {
                                lemma_first_error_at(doc.animation_outcomes(), i as int);
                            }
                            return Err(e);
                        },
                    };
                    if !animation.is_well_formed(nodes.len()) {
                        proof {
                            let data = animation_data@[i as int];
                            if targets_within(data, nodes@.len() as nat) {
                                assert forall|c: int| 0 <= c < animation.channels@.len() implies (
                                #[trigger] animation.channels@[c]).target < nodes@.len() by {
                                    assert(animation.channels@[c].loaded_from(data.channels@[c]));
                                    assert(data.channels@[c].target < nodes@.len());
                                }
                            }
                            lemma_first_error_at(doc.animation_outcomes(), i as int);
                        }
                        return Err(MeshLoadError::InvalidIndex);
                    }
                    proof {
                        let data = animation_data@[i as int];
                        assert forall|c: int| 0 <= c < data.channels@.len() implies (
                        #[trigger] data.channels@[c]).target < nodes@.len() by {
                            assert(animation.channels@[c].loaded_from(data.channels@[c]));
                        }
                    }
                    animations.push(NamedAnimation { name: name.clone(), animation });
                },
                None => {},
            }
            i += 1;
        }
        proof {
            lemma_first_error_none(doc.animation_outcomes());
        }

        let transforms = identities(nodes.len());
        let scene = match Scene::new(nodes, roots, camera_names, mesh_data.len()) {
            Ok(scene) => scene,
            Err(e) => {
                return Err(e);
            },
        };
        Ok(
            Model {
                scene,
                cameras,
                meshes,
                sources,
                materials,
                skins,
                animations,
                transform: Mat4::identity(),
                transforms,
            },
        )
    }
}

/// The camera that a frame is seen through.
#[derive(Clone, Copy, Debug, PartialEq, Eq)]
pub struct ActiveCamera {
    /// The camera, as an index into the model's cameras.
    pub index: usize,
    /// The world transform of the node that carries it.
    pub transform: Mat4,
}

/// One draw call: a mesh of the model, the world transform of the node
/// that carries the mesh of the document it came from, and its material.
#[derive(Clone, Copy, Debug, PartialEq, Eq)]
pub struct DrawCall {
    pub mesh: usize,
    pub model_matrix: Mat4,
    pub material: usize,
}

/// What one frame draws.
#[derive(Debug)]
pub struct Frame {
    /// The camera found under the wanted name. `None` binds no camera.
    pub camera: Option<ActiveCamera>,
    /// A camera was asked for by name, and the scene has none of that name.
    pub camera_missing: bool,
    /// The joint matrices of every skin, in skin order.
    pub joint_matrices: Vec<Vec<Mat4>>,
    /// One call per mesh, in mesh order.
    pub calls: Vec<DrawCall>,
}

impl Model {
    /// The animation addressed by `name`: the last one that goes by it.
    pub open spec fn addressed(&self, name: Seq<char>) -> Option<int> {
        last_named(self.animations@, name, self.animations@.len())
    }

    /// Finds the animation addressed by `name`.
    pub fn find_animation(&self, name: &str) -> (r: Option<usize>)
        ensures
            match r {
                Some(k) => self.addressed(name@) == Some(k as int) && k < self.animations@.len(),
                None => self.addressed(name@) is None,
            },
    {
        let wanted = name.to_owned();
        let mut k: usize = self.animations.len();
        while k > 0
            invariant
                k <= self.animations@.len(),
                wanted@ == name@,
                self.addressed(name@) == last_named(self.animations@, name@, k as nat),
            decreases k,
        {
            if self.animations[k - 1].name == wanted {
                return Some(k - 1);
            }
            k -= 1;
        }
        None
    }

    /// Sets every override back to the identity, and leaves the rest alone.
    pub fn reset_transforms(&mut self)
        ensures
            final(self).transforms@ == Seq::new(
                old(self).transforms@.len(),
                |i: int| Mat4::identity_spec(),
            ),
            final(self).scene == old(self).scene,
            final(self).cameras == old(self).cameras,
            final(self).meshes == old(self).meshes,
            final(self).sources == old(self).sources,
            final(self).materials == old(self).materials,
            final(self).skins == old(self).skins,
            final(self).animations == old(self).animations,
            final(self).transform == old(self).transform,
            old(self).wf() ==> final(self).wf(),
    {
        self.transforms = identities(self.transforms.len());
    }

    /// Applies the animation addressed by `name` at `time` onto the
    /// overrides: each channel multiplies the matrix of the sample it holds
    /// onto its target's override from the left. An unknown name changes
    /// nothing and is reported by `false`. The animation has to be one that
    /// can be played, which [`Model::can_apply`] tells.
    pub fn apply_animation<T: Fn(Decomposed) -> Mat4, P: Fn(Mat4, Mat4) -> Mat4>(
        &mut self,
        name: &str,
        time: u32,
        transform: &T,
        compose: &P,
    ) -> (found: bool)
        requires
            old(self).wf(),
            old(self).addressed(name@) matches Some(k) ==> old(self).animations@[k].animation.playable(),
            is_transform(*transform),
            is_product(*compose),
        ensures
            final(self).wf(),
            final(self).scene == old(self).scene,
            final(self).cameras == old(self).cameras,
            final(self).meshes == old(self).meshes,
            final(self).sources == old(self).sources,
            final(self).materials == old(self).materials,
            final(self).skins == old(self).skins,
            final(self).animations == old(self).animations,
            final(self).transform == old(self).transform,
            found == old(self).addressed(name@) is Some,
            match old(self).addressed(name@) {
                Some(k) => final(self).transforms@ == applied(
                    *transform,
                    *compose,
                    old(self).animations@[k].animation.channels@,
                    time,
                    old(self).transforms@,
                    old(self).animations@[k].animation.channels@.len(),
                ) && forall|i: int|
                    0 <= i < old(self).animations@[k].animation.channels@.len()
                        ==> #[trigger] applied_by_calls(
                        *transform,
                        *compose,
                        old(self).animations@[k].animation.channels@,
                        time,
                        old(self).transforms@,
                        i,
                    ),
                None => final(self).transforms@ == old(self).transforms@,
            },
    {
        match self.find_animation(name) {
            Some(k) => {
                self.animations[k].animation.apply(time, &mut self.transforms, transform, compose);
                true
            },
            None => false,
        }
    }

    /// The joint matrices of every skin, in skin order.
    pub fn armature_uniforms<P: Fn(Mat4, Mat4) -> Mat4>(
        &self,
        node_transforms: &Vec<Mat4>,
        compose: &P,
    ) -> (r: Vec<Vec<Mat4>>)
        requires
            forall|s: int|
                0 <= s < self.skins@.len() ==> (#[trigger] self.skins@[s]).wf(node_transforms@.len()),
            is_product(*compose),
        ensures
            r@.len() == self.skins@.len(),
            forall|s: int|
                0 <= s < self.skins@.len() ==> (#[trigger] r@[s])@ == self.skins@[s].joint_matrices(
                    *compose,
                    node_transforms@,
                ) && self.skins@[s].composed_by_calls(*compose, node_transforms@, r@[s]@),
    {
        let mut all: Vec<Vec<Mat4>> = Vec::new();
        let mut s: usize = 0;
        while s < self.skins.len()
            invariant
                s <= self.skins@.len(),
                forall|j: int|
                    0 <= j < self.skins@.len() ==> (#[trigger] self.skins@[j]).wf(
                        node_transforms@.len(),
                    ),
                is_product(*compose),
                all@.len() == s,
                forall|j: int|
                    0 <= j < s ==> (#[trigger] all@[j])@ == self.skins@[j].joint_matrices(
                        *compose,
                        node_transforms@,
                    ) && self.skins@[j].composed_by_calls(*compose, node_transforms@, all@[j]@),
            decreases self.skins@.len() - s,
        {
            all.push(self.skins[s].uniforms(node_transforms, compose));
            s += 1;
        }
        all
    }

    /// The pose of the model in this frame: the walk of its scene under its
    /// transform and its overrides.
    pub open spec fn pose<P: Fn(Mat4, Mat4) -> Mat4>(
        &self,
        compose: P,
        wanted: Option<Seq<char>>,
    ) -> TransformsView {
        evaluated(
            compose,
            self.scene,
            self.transform,
            self.transforms@,
            wanted,
            self.scene.order@.len(),
        )
    }

    /// Evaluates the scene once and composes one draw call per mesh. A
    /// camera that is asked for and not found is reported, and the frame is
    /// drawn without it.
    pub fn draw<P: Fn(Mat4, Mat4) -> Mat4>(&self, camera: Option<&str>, compose: &P) -> (frame: Frame)
        requires
            self.wf(),
            is_product(*compose),
        ensures
            ({
                let pose = self.pose(*compose, wanted_view(camera));
                &&& frame.camera == match pose.camera_index {
                    Some(c) => Some(ActiveCamera { index: c, transform: pose.camera[c as int] }),
                    None => None,
                }
                &&& frame.camera_missing == (camera is Some && pose.camera_index is None)
                &&& frame.joint_matrices@.len() == self.skins@.len()
                &&& forall|s: int|
                    0 <= s < self.skins@.len() ==> (#[trigger] frame.joint_matrices@[s])@
                        == self.skins@[s].joint_matrices(*compose, pose.node)
                        && self.skins@[s].composed_by_calls(
                        *compose,
                        pose.node,
                        frame.joint_matrices@[s]@,
                    )
                &&& forall|k: int|
                    0 <= k < self.scene.order@.len() ==> #[trigger] composed_by_calls(
                        *compose,
                        self.scene,
                        self.transform,
                        self.transforms@,
                        wanted_view(camera),
                        k,
                    )
                &&& frame.calls@.len() == self.meshes@.len()
                &&& forall|i: int|
                    0 <= i < self.meshes@.len() ==> #[trigger] frame.calls@[i] == (DrawCall {
                        mesh: i as usize,
                        model_matrix: pose.model[self.sources@[i] as int],
                        material: self.meshes@[i].material,
                    })
            }),
    {
        let transforms = self.scene.evaluate(self.transform, &self.transforms, camera, compose);
        proof {
            lemma_evaluated_lengths(
                *compose,
                self.scene,
                self.transform,
                self.transforms@,
                wanted_view(camera),
                self.scene.order@.len(),
            );
        }
        let active = match transforms.camera_index {
            Some(c) => Some(ActiveCamera { index: c, transform: transforms.camera[c] }),
            None => None,
        };
        let camera_missing = camera.is_some() && transforms.camera_index.is_none();
        let joint_matrices = self.armature_uniforms(&transforms.node, compose);
        let mut calls: Vec<DrawCall> = Vec::new();
        let mut i: usize = 0;
        while i < self.meshes.len()
            invariant
                i <= self.meshes@.len(),
                self.wf(),
                transforms.model@.len() == self.scene.mesh_count,
                calls@.len() == i,
                forall|j: int|
                    0 <= j < i ==> #[trigger] calls@[j] == (DrawCall {
                        mesh: j as usize,
                        model_matrix: transforms.model@[self.sources@[j] as int],
                        material: self.meshes@[j].material,
                    }),
            decreases self.meshes@.len() - i,
        {
            calls.push(
                DrawCall {
                    mesh: i,
                    model_matrix: transforms.model[self.sources[i]],
                    material: self.meshes[i].material,
                },
            );
            i += 1;
        }
        Frame { camera: active, camera_missing, joint_matrices, calls }
    }
}

/// A reset brings back the pose at rest. Where `after` is what
/// `reset_transforms` makes of `before`, a frame of `after` poses the scene
/// as it is without animation, node for node, whatever `before` had
/// accumulated.
pub proof fn lemma_reset_restores_rest_pose<P: Fn(Mat4, Mat4) -> Mat4>(
    compose: P,
    before: Model,
    after: Model,
    wanted: Option<Seq<char>>,
)
    requires
        before.wf(),
        after.scene == before.scene,
        after.transform == before.transform,
        after.transforms@ == Seq::new(before.transforms@.len(), |i: int| Mat4::identity_spec()),
    ensures
        after.pose(compose, wanted) == rest_pose(compose, before.scene, before.transform, wanted),
{
}

} // verus!
