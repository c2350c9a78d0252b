//! Skins: ordered joints, each a node and its inverse bind matrix, and the
//! joint matrices of a frame.

use vstd::prelude::*;
use crate::error::MeshLoadError;
use crate::matrix::{is_product, product, Mat4};

verus! {

/// One bone: the node it follows, and the matrix that takes geometry from
/// mesh space at rest into the joint's space.
#[derive(Clone, Copy, Debug, PartialEq, Eq)]
pub struct Joint {
    pub node_index: usize,
    pub inverse_bind_matrix: Mat4,
}

/// A skeleton: its joints in source order.
#[derive(Debug)]
pub struct Skin {
    pub joints: Vec<Joint>,
}

/// One skeleton as the asset document gives it: the joint nodes in order,
/// and the inverse bind matrices, which may be absent.
#[derive(Debug)]
pub struct SkinData {
    pub joints: Vec<usize>,
    pub inverse_bind_matrices: Option<Vec<Mat4>>,
}

impl Skin {
    /// Every joint follows one of `node_count` nodes.
    pub open spec fn wf(&self, node_count: nat) -> bool {
        forall|j: int|
            0 <= j < self.joints@.len() ==> (#[trigger] self.joints@[j]).node_index < node_count
    }

    /// Whether every joint follows one of `node_count` nodes.
    pub fn is_well_formed(&self, node_count: usize) -> (r: bool)
        ensures
            r == self.wf(node_count as nat),
    {
        let mut j: usize = 0;
        while j < self.joints.len()
            invariant
                j <= self.joints@.len(),
                forall|k: int| 0 <= k < j ==> (#[trigger] self.joints@[k]).node_index < node_count,
            decreases self.joints@.len() - j,
        {
            if self.joints[j].node_index >= node_count {
                return false;
            }
            j += 1;
        }
        true
    }

    /// Why a skeleton is rejected, if it is: it has no inverse bind matrices,
    /// or fewer than joints, or else a joint follows a node that does not
    /// exist.
    pub open spec fn rejection(data: SkinData, node_count: nat) -> Option<MeshLoadError> {
        match data.inverse_bind_matrices {
            None => Some(MeshLoadError::MissingInverseBindMatrices),
            Some(matrices) => if matrices@.len() < data.joints@.len() {
                Some(MeshLoadError::MissingInverseBindMatrices)
            } else if exists|j: int| 0 <= j < data.joints@.len() && #[trigger] data.joints@[j] >= node_count {
                Some(MeshLoadError::InvalidIndex)
            } else {
                None
            },
        }
    }

    /// The skin pairs each joint of `data`, in order, with its matrix.
    pub open spec fn loaded_from(&self, data: SkinData) -> bool {
        &&& data.inverse_bind_matrices matches Some(matrices)
        &&& self.joints@.len() == data.joints@.len()
        &&& forall|j: int|
            0 <= j < self.joints@.len() ==> #[trigger] self.joints@[j] == (Joint {
                node_index: data.joints@[j],
                inverse_bind_matrix: matrices@[j],
            })
    }

    /// Pairs each joint, in source order, with its inverse bind matrix.
    #[verifier::loop_isolation(false)]
    pub fn load(data: &SkinData, node_count: usize) -> (r: Result<Skin, MeshLoadError>)
        ensures
            match r {
                Ok(skin) => Skin::rejection(*data, node_count as nat) is None && skin.loaded_from(
                    *data,
                ) && skin.wf(node_count as nat),
                Err(e) => Skin::rejection(*data, node_count as nat) == Some(e),
            },
    {
        let matrices = match &data.inverse_bind_matrices {
            Some(matrices) => matrices,
            None => {
                return Err(MeshLoadError::MissingInverseBindMatrices);
            },
        };
        if matrices.len() < data.joints.len() {
            return Err(MeshLoadError::MissingInverseBindMatrices);
        }
        let mut joints: Vec<Joint> = Vec::new();
        let mut j: usize = 0;
        while j < data.joints.len()
            invariant
                j <= data.joints@.len(),
                data.joints@.len() <= matrices@.len(),
                joints@.len() == j,
                forall|k: int| 0 <= k < j ==> #[trigger] data.joints@[k] < node_count,
                forall|k: int|
                    0 <= k < j ==> #[trigger] joints@[k] == (Joint {
                        node_index: data.joints@[k],
                        inverse_bind_matrix: matrices@[k],
                    }),
            decreases data.joints@.len() - j,
        {
            let node_index = data.joints[j];
            if node_index >= node_count {
                assert(data.joints@[j as int] >= node_count);
                return Err(MeshLoadError::InvalidIndex);
            }
            joints.push(Joint { node_index, inverse_bind_matrix: matrices[j] });
            j += 1;
        }
        Ok(Skin { joints })
    }

    /// The joint matrices of a frame: for each joint, in order, the world
    /// transform of its node times its inverse bind matrix.
    pub open spec fn joint_matrices<P: Fn(Mat4, Mat4) -> Mat4>(
        &self,
        compose: P,
        node_transforms: Seq<Mat4>,
    ) -> Seq<Mat4> {
        Seq::new(
            self.joints@.len(),
            |j: int|
                product(
                    compose,
                    node_transforms[self.joints@[j].node_index as int],
                    self.joints@[j].inverse_bind_matrix,
                ),
        )
    }

    /// Each of the matrices `r` is a value that `compose` has returned for
    /// the world transform of its joint's node and the joint's inverse bind
    /// matrix.
    pub open spec fn composed_by_calls<P: Fn(Mat4, Mat4) -> Mat4>(
        &self,
        compose: P,
        node_transforms: Seq<Mat4>,
        r: Seq<Mat4>,
    ) -> bool {
        forall|j: int|
            0 <= j < self.joints@.len() ==> compose.ensures(
                (
                    node_transforms[self.joints@[j].node_index as int],
                    self.joints@[j].inverse_bind_matrix,
                ),
                #[trigger] r[j],
            )
    }

    /// Computes the joint matrices that the vertex shader consumes.
    pub fn uniforms<P: Fn(Mat4, Mat4) -> Mat4>(&self, node_transforms: &Vec<Mat4>, compose: &P) -> (r:
        Vec<Mat4>)
        requires
            self.wf(node_transforms@.len()),
            is_product(*compose),
        ensures
            r@ == self.joint_matrices(*compose, node_transforms@),
            forall|j: int|
                0 <= j < self.joints@.len() ==> compose.ensures(
                    (
                        node_transforms@[self.joints@[j].node_index as int],
                        self.joints@[j].inverse_bind_matrix,
                    ),
                    #[trigger] r@[j],
                ),
    {
        let mut transforms: Vec<Mat4> = Vec::new();
        let mut j: usize = 0;
        while j < self.joints.len()
            invariant
                j <= self.joints@.len(),
                self.wf(node_transforms@.len()),
                is_product(*compose),
                transforms@.len() == j,
                forall|k: int|
                    0 <= k < j ==> #[trigger] transforms@[k] == product(
                        *compose,
                        node_transforms@[self.joints@[k].node_index as int],
                        self.joints@[k].inverse_bind_matrix,
                    ),
                forall|k: int|
                    0 <= k < j ==> compose.ensures(
                        (
                            node_transforms@[self.joints@[k].node_index as int],
                            self.joints@[k].inverse_bind_matrix,
                        ),
                        #[trigger] transforms@[k],
                    ),
            decreases self.joints@.len() - j,
        {
            let joint = self.joints[j];
            transforms.push(compose(node_transforms[joint.node_index], joint.inverse_bind_matrix));
            j += 1;
        }
        assert(transforms@ =~= self.joint_matrices(*compose, node_transforms@));
        transforms
    }
}

} // verus!
