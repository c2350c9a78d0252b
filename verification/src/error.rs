//! Why an asset is rejected at load.

use vstd::prelude::*;

verus! {

/// Why an asset is rejected at load. Every load error is fatal: there is no
/// partially built model.
#[derive(Clone, Copy, Debug, PartialEq, Eq, Structural)]
pub enum MeshLoadError {
    /// A primitive has no vertex positions.
    MissingPositions,
    /// A primitive has no index stream.
    MissingIndices,
    /// A skin has no inverse bind matrices.
    MissingInverseBindMatrices,
    /// The document designates no default scene.
    NoDefaultScene,
    /// An animation channel has no keyframe times.
    MissingAnimationInputs,
    /// An animation channel has no samples.
    MissingAnimationOutputs,
    /// A reference names a node, mesh, camera, material, image or vertex
    /// that the document does not hold.
    InvalidIndex,
    /// The walk of the default scene from its roots does not end: a node is
    /// reached from itself.
    InvalidHierarchy,
}

impl MeshLoadError {
    /// The error in words.
    pub fn message(&self) -> (text: String)
        ensures
            text@ == match self {
                MeshLoadError::MissingPositions => "Missing positions"@,
                MeshLoadError::MissingIndices => "Missing indices, this is not supported yet"@,
                MeshLoadError::MissingInverseBindMatrices => "Missing inverse bind matrices"@,
                MeshLoadError::NoDefaultScene =>
                    "No default scene, multiple scenes are not supported yet"@,
                MeshLoadError::MissingAnimationInputs => "Missing animation inputs (time)"@,
                MeshLoadError::MissingAnimationOutputs => "Missing animation outputs"@,
                MeshLoadError::InvalidIndex => "Reference to an item that does not exist"@,
                MeshLoadError::InvalidHierarchy => "The default scene reaches a node from itself"@,
            },
    {
        match self {
            MeshLoadError::MissingPositions => "Missing positions".to_owned(),
            MeshLoadError::MissingIndices => "Missing indices, this is not supported yet".to_owned(),
            MeshLoadError::MissingInverseBindMatrices => "Missing inverse bind matrices".to_owned(),
            MeshLoadError::NoDefaultScene =>
                "No default scene, multiple scenes are not supported yet".to_owned(),
            MeshLoadError::MissingAnimationInputs => "Missing animation inputs (time)".to_owned(),
            MeshLoadError::MissingAnimationOutputs => "Missing animation outputs".to_owned(),
            MeshLoadError::InvalidIndex => "Reference to an item that does not exist".to_owned(),
            MeshLoadError::InvalidHierarchy =>
                "The default scene reaches a node from itself".to_owned(),
        }
    }
}

/// The first error in a list of outcomes, where `None` is success.
pub open spec fn first_error(outcomes: Seq<Option<MeshLoadError>>) -> Option<MeshLoadError>
    decreases outcomes.len(),
{
    if outcomes.len() == 0 {
        None
    } else if outcomes[0] is Some {
        outcomes[0]
    } else {
        first_error(outcomes.skip(1))
    }
}

/// A list has no first error exactly when every outcome is a success.
pub proof fn lemma_first_error_none(outcomes: Seq<Option<MeshLoadError>>)
    ensures
        first_error(outcomes) is None <==> forall|i: int|
            0 <= i < outcomes.len() ==> #[trigger] outcomes[i] is None,
    decreases outcomes.len(),
{
    if outcomes.len() > 0 {
        let rest = outcomes.skip(1);
        lemma_first_error_none(rest);
        if outcomes[0] is None {
            if first_error(rest) is None {
                assert forall|i: int| 0 <= i < outcomes.len() implies #[trigger] outcomes[i] is None by {
                    if i > 0 {
                        assert(rest[i - 1] == outcomes[i]);
                    }
                }
            } else {
                let j = choose|j: int| 0 <= j < rest.len() && !(#[trigger] rest[j] is None);
                assert(outcomes[j + 1] == rest[j]);
            }
        }
    }
}

/// The first error of a list is the error at `i` when every outcome before
/// `i` is a success.
pub proof fn lemma_first_error_at(outcomes: Seq<Option<MeshLoadError>>, i: int)
    requires
        0 <= i < outcomes.len(),
        outcomes[i] is Some,
        forall|j: int| 0 <= j < i ==> #[trigger] outcomes[j] is None,
    ensures
        first_error(outcomes) == outcomes[i],
    decreases i,
{
    if i > 0 {
        let rest = outcomes.skip(1);
        assert(outcomes[0] is None);
        assert forall|j: int| 0 <= j < i - 1 implies #[trigger] rest[j] is None by {
            assert(rest[j] == outcomes[j + 1]);
        }
        assert(rest[i - 1] == outcomes[i]);
        lemma_first_error_at(rest, i - 1);
    }
}

} // verus!
