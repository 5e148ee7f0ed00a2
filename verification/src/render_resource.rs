//! The resources that a draw call binds, and what the renderer knows of them.

use vstd::prelude::*;
use crate::handle::PipelineHandle;
use crate::search::{first_match, lemma_first_match_is, lemma_first_match_none};
use crate::specialization::PipelineSpecialization;

verus! {

/// Identifies one resource that the renderer holds.
#[derive(Clone, Copy, Debug, PartialEq, Eq, Hash, Structural)]
pub struct RenderResource {
    pub id: u64,
}

/// What the renderer knows of a buffer.
#[derive(Clone, Copy, Debug, PartialEq, Eq, Hash, Structural)]
pub struct BufferInfo {
    pub size: u64,
    pub is_dynamic: bool,
}

/// What the renderer knows of a resource.
#[derive(Clone, Copy, Debug, PartialEq, Eq, Hash, Structural)]
pub enum ResourceInfo {
    Buffer(BufferInfo),
    Texture,
    Sampler,
}

/// The registry of the resources that are live in the renderer.
///
/// A renderer implements this trait. What it answers is taken on trust: the layout of
/// a compiled pipeline is stated in terms of `resource_info`, and nothing checks that
/// an implementation outside verified code answers `get_resource_info` with it. Such an
/// implementation defines both alike.
pub trait RenderResourceContext {
    /// What the registry holds on `resource`.
    spec fn resource_info(&self, resource: RenderResource) -> Option<ResourceInfo>;

    /// Describes `resource`, or gives nothing where the registry does not know it.
    fn get_resource_info(&self, resource: RenderResource) -> (info: Option<ResourceInfo>)
        ensures
            info == self.resource_info(resource),
    ;
}

/// Identifies the resource set of one draw call.
#[derive(Clone, Copy, Debug, PartialEq, Eq, Hash, Structural)]
pub struct RenderResourceAssignmentsId {
    pub id: u64,
}

/// The resource set of one draw call: its named resources, and the specialization that
/// the draw call asks of its pipelines.
#[derive(Debug)]
pub struct RenderResourceAssignments {
    pub id: RenderResourceAssignmentsId,
    pub render_resources: Vec<(String, RenderResource)>,
    pub pipeline_specialization: PipelineSpecialization,
}

/// The bindings with the name `name`.
pub open spec fn bound_as(name: Seq<char>) -> spec_fn((Seq<char>, RenderResource)) -> bool {
    |bound: (Seq<char>, RenderResource)| bound.0 == name
}

impl RenderResourceAssignments {
    /// The named resources, in the order in which their names were first bound.
    pub open spec fn bound(&self) -> Seq<(Seq<char>, RenderResource)> {
        self.render_resources@.map_values(|bound: (String, RenderResource)| (bound.0@, bound.1))
    }

    /// The resource bound to `name`.
    pub open spec fn resource_named(&self, name: Seq<char>) -> Option<RenderResource> {
        match first_match(self.bound(), bound_as(name)) {
            Some(k) => Some(self.bound()[k].1),
            None => None,
        }
    }

    /// A resource set without resources, with the default specialization.
    pub fn new(id: RenderResourceAssignmentsId) -> (assignments: RenderResourceAssignments)
        ensures
            assignments.id == id,
            assignments.bound() == Seq::<(Seq<char>, RenderResource)>::empty(),
            assignments.pipeline_specialization@ == PipelineSpecialization::default_view(),
    {
        let assignments = RenderResourceAssignments {
            id,
            render_resources: Vec::new(),
            pipeline_specialization: PipelineSpecialization::default(),
        };
        assert(assignments.bound() =~= Seq::<(Seq<char>, RenderResource)>::empty());
        assignments
    }

    /// The position of the first binding with the name `name`.
    pub fn position(&self, name: &String) -> (found: Option<usize>)
        ensures
            match found {
                Some(k) => first_match(self.bound(), bound_as(name@)) == Some(k as int) && k
                    < self.render_resources.len(),
                None => first_match(self.bound(), bound_as(name@)) is None,
            },
    {
        let mut i: usize = 0;
        while i < self.render_resources.len()
            invariant
                i <= self.render_resources.len(),
                forall|k: int| 0 <= k < i ==> !bound_as(name@)(#[trigger] self.bound()[k]),
            decreases self.render_resources.len() - i,
        {
            if self.render_resources[i].0 == *name {
                proof {
                    assert(bound_as(name@)(self.bound()[i as int]));
                    lemma_first_match_is(self.bound(), bound_as(name@), i as int);
                }
                return Some(i);
            }
            i += 1;
        }
        proof {
            lemma_first_match_none(self.bound(), bound_as(name@));
        }
        None
    }

    /// The resource bound to `name`, if one is.
    pub fn get(&self, name: &String) -> (resource: Option<RenderResource>)
        ensures
            resource == self.resource_named(name@),
    {
        match self.position(name) {
            Some(k) => Some(self.render_resources[k].1),
            None => None,
        }
    }

    /// Binds `resource` to `name`, in place of what was bound to that name before.
    pub fn set(&mut self, name: String, resource: RenderResource)
        ensures
            final(self).id == old(self).id,
            final(self).pipeline_specialization == old(self).pipeline_specialization,
            final(self).bound() == match first_match(old(self).bound(), bound_as(name@)) {
                Some(k) => old(self).bound().update(k, (name@, resource)),
                None => old(self).bound().push((name@, resource)),
            },
            final(self).resource_named(name@) == Some(resource),
    {
        match self.position(&name) {
            Some(k) => {
                self.render_resources[k] = (name, resource);
                proof {
                    assert(self.bound() =~= old(self).bound().update(k as int, (name@, resource)));
                    assert forall|j: int| 0 <= j < k implies !bound_as(name@)(
                        #[trigger] self.bound()[j],
                    ) by {
                        crate::search::lemma_first_match_sound(old(self).bound(), bound_as(name@));
                        assert(self.bound()[j] == old(self).bound()[j]);
                    }
                    assert(bound_as(name@)(self.bound()[k as int]));
                    lemma_first_match_is(self.bound(), bound_as(name@), k as int);
                }
            },
            None => {
                self.render_resources.push((name, resource));
                proof {
                    assert(self.bound() =~= old(self).bound().push((name@, resource)));
                    crate::search::lemma_first_match_push(
                        old(self).bound(),
                        bound_as(name@),
                        (name@, resource),
                    );
                }
            },
        }
    }
}

/// What makes an entity drawable: the source pipelines to draw it with, and its
/// resource set.
#[derive(Debug)]
pub struct Renderable {
    pub is_instanced: bool,
    pub pipelines: Vec<PipelineHandle>,
    pub render_resource_assignments: RenderResourceAssignments,
}

} // verus!
