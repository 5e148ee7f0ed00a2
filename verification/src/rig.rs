//! Labels and plugin markers of the skinned-mesh rig systems.

use vstd::prelude::*;

verus! {

/// The two systems of the animation rig, in the order in which they are scheduled.
#[derive(Debug, Hash, PartialEq, Eq, Structural)]
pub enum AnimationRigSystem {
    SkinnedMeshSetup,
    SkinnedMeshUpdate,
}

impl Clone for AnimationRigSystem {
    fn clone(&self) -> (copy: AnimationRigSystem)
        ensures
            copy == *self,
    {
        match self {
            AnimationRigSystem::SkinnedMeshSetup => AnimationRigSystem::SkinnedMeshSetup,
            AnimationRigSystem::SkinnedMeshUpdate => AnimationRigSystem::SkinnedMeshUpdate,
        }
    }
}

/// Marker of the animation rig plugin.
#[derive(Default)]
pub struct AnimationRigPlugin;

/// The two systems of the rig, in the order in which they are scheduled.
#[derive(Debug, Hash, PartialEq, Eq, Structural)]
pub enum RigSystem {
    SkinnedMeshSetup,
    SkinnedMeshUpdate,
}

impl Clone for RigSystem {
    fn clone(&self) -> (copy: RigSystem)
        ensures
            copy == *self,
    {
        match self {
            RigSystem::SkinnedMeshSetup => RigSystem::SkinnedMeshSetup,
            RigSystem::SkinnedMeshUpdate => RigSystem::SkinnedMeshUpdate,
        }
    }
}

/// Marker of the rig plugin.
#[derive(Default)]
pub struct RigPlugin;

} // verus!
