//! Camera projections as the scene carries them.

use vstd::prelude::*;
use crate::scalar::THOUSAND;

verus! {

/// The projection of a camera in the node tree, and of a [`FreeCamera`].
#[derive(Clone, Copy, Debug, PartialEq, Eq)]
pub enum Projection {
    Orthographic { x_mag: u32, y_mag: u32, z_near: u32, z_far: u32 },
    Perspective { aspect_ratio: Option<u32>, y_fov: u32, z_near: u32, z_far: u32 },
}

/// The projection of a camera as the asset document gives it: a perspective
/// camera may have no far plane.
#[derive(Clone, Copy, Debug, PartialEq, Eq)]
#[allow(inconsistent_fields)]
pub enum ProjectionData {
    Orthographic { xmag: u32, ymag: u32, znear: u32, zfar: u32 },
    Perspective { aspect_ratio: Option<u32>, yfov: u32, znear: u32, zfar: Option<u32> },
}

/// One camera as the asset document gives it.
#[derive(Debug)]
pub struct CameraData {
    pub name: Option<String>,
    pub projection: ProjectionData,
}

/// A camera that is moved by hand rather than by the node tree.
#[derive(Clone, Copy, Debug, PartialEq, Eq)]
pub struct FreeCamera {
    pub projection: Projection,
    pub pos: [u32; 3],
    /// Horizontal rotation, in radians.
    pub rot_h: u32,
    /// Vertical rotation, in radians.
    pub rot_v: u32,
}

impl Projection {
    /// The projection of `value`; a perspective camera without a far plane
    /// gets one at a thousand units.
    pub open spec fn from_spec(value: ProjectionData) -> Projection {
        match value {
            ProjectionData::Orthographic { xmag, ymag, znear, zfar } => Projection::Orthographic {
                x_mag: xmag,
                y_mag: ymag,
                z_near: znear,
                z_far: zfar,
            },
            ProjectionData::Perspective { aspect_ratio, yfov, znear, zfar } => Projection::Perspective {
                aspect_ratio,
                y_fov: yfov,
                z_near: znear,
                z_far: match zfar {
                    Some(far) => far,
                    None => THOUSAND,
                },
            },
        }
    }

    /// Takes the projection of a camera over.
    pub fn from(value: ProjectionData) -> (projection: Projection)
        ensures
            projection == Projection::from_spec(value),
    {
        match value {
            ProjectionData::Orthographic { xmag, ymag, znear, zfar } => Projection::Orthographic {
                x_mag: xmag,
                y_mag: ymag,
                z_near: znear,
                z_far: zfar,
            },
            ProjectionData::Perspective { aspect_ratio, yfov, znear, zfar } => Projection::Perspective {
                aspect_ratio,
                y_fov: yfov,
                z_near: znear,
                z_far: match zfar {
                    Some(far) => far,
                    None => THOUSAND,
                },
            },
        }
    }
}

} // verus!
