//! The model of a pass over draw calls: the requests of a frame, what becomes of
//! each, and the table that the outcomes make.

use vstd::prelude::*;
use crate::error::PipelineError;
use crate::handle::PipelineHandle;
use crate::layout::VertexBufferDescriptors;
use crate::render_resource::{RenderResourceAssignmentsId, RenderResourceContext, Renderable};
use crate::resolution::{CompileEnv, CompilerState, compile_env, pipeline_resolved};
use crate::shader::{LayoutReflector, ShaderCompiler};
use crate::variant_cache::with_appended;

verus! {

/// The table of a frame: for each compiled pipeline, by the identifier of its handle,
/// the resource sets of the draw calls that are drawn with it, in the order in which
/// they were resolved.
pub type AssignmentTable = Map<u128, Seq<RenderResourceAssignmentsId>>;

/// One draw call asking for one source pipeline.
pub struct DrawRequest {
    pub id: RenderResourceAssignmentsId,
    pub source: PipelineHandle,
    pub env: CompileEnv,
}

/// What became of one request: the compiled pipeline that the draw call was assigned
/// to, or why it was dropped for this frame.
#[derive(Debug)]
pub struct DrawOutcome {
    pub id: RenderResourceAssignmentsId,
    pub pipeline: PipelineHandle,
    pub result: Result<PipelineHandle, PipelineError>,
}

/// What a pass over draw calls reads and changes: the compiler state and the table.
pub struct FrameState<C> {
    pub compiler: CompilerState<C>,
    pub table: AssignmentTable,
}

/// `table` after one outcome: the draw call is appended to the list of the pipeline
/// that it resolved to; a draw call that failed is in no list.
pub open spec fn table_after(table: AssignmentTable, outcome: DrawOutcome) -> AssignmentTable {
    match outcome.result {
        Ok(handle) => with_appended(table, handle.id, outcome.id),
        Err(_) => table,
    }
}

/// `table` after the outcomes, in order.
pub open spec fn table_with(table: AssignmentTable, outcomes: Seq<DrawOutcome>) -> AssignmentTable
    decreases outcomes.len(),
{
    if outcomes.len() == 0 {
        table
    } else {
        table_after(table_with(table, outcomes.drop_last()), outcomes.last())
    }
}

/// The table that the outcomes of a whole frame make.
pub open spec fn table_of(outcomes: Seq<DrawOutcome>) -> AssignmentTable {
    table_with(Map::empty(), outcomes)
}

/// Serving `request` may take the state `pre` to `post` with `outcome`: the pipeline is
/// resolved, and on success the draw call is entered in the table.
pub open spec fn draw_resolved<C: ShaderCompiler>(
    pre: FrameState<C>,
    request: DrawRequest,
    post: FrameState<C>,
    outcome: DrawOutcome,
) -> bool {
    &&& outcome.id == request.id
    &&& outcome.pipeline == request.source
    &&& pipeline_resolved(pre.compiler, request.source, request.env, post.compiler, outcome.result)
    &&& post.table == table_after(pre.table, outcome)
}

/// `states` are the states that serving `requests` one after another went through,
/// with `outcomes`.
pub open spec fn draws_resolved<C: ShaderCompiler>(
    states: Seq<FrameState<C>>,
    requests: Seq<DrawRequest>,
    outcomes: Seq<DrawOutcome>,
) -> bool {
    &&& states.len() == requests.len() + 1
    &&& outcomes.len() == requests.len()
    &&& forall|i: int|
        #![trigger requests[i]]
        0 <= i < requests.len() ==> draw_resolved(
            states[i],
            requests[i],
            states[i + 1],
            outcomes[i],
        )
}

/// Serving `requests` one after another may take the state `pre` to `post` with
/// `outcomes`.
pub open spec fn pass_resolved<C: ShaderCompiler>(
    pre: FrameState<C>,
    requests: Seq<DrawRequest>,
    post: FrameState<C>,
    outcomes: Seq<DrawOutcome>,
) -> bool {
    exists|states: Seq<FrameState<C>>|
        {
            &&& #[trigger] draws_resolved(states, requests, outcomes)
            &&& states.first() == pre
            &&& states.last() == post
        }
}

/// The requests of one draw call: one for each of its source pipelines, in order.
pub open spec fn draw_requests(
    pipelines: Seq<PipelineHandle>,
    id: RenderResourceAssignmentsId,
    env: CompileEnv,
) -> Seq<DrawRequest> {
    pipelines.map_values(|source: PipelineHandle| DrawRequest { id, source, env })
}

/// The requests of one renderable: those of its draw call, or none where the entity is
/// instanced.
pub open spec fn renderable_requests<R: LayoutReflector, X: RenderResourceContext>(
    renderable: Renderable,
    vertex_buffer_descriptors: &VertexBufferDescriptors,
    reflector: &R,
    render_resource_context: &X,
) -> Seq<DrawRequest> {
    if renderable.is_instanced {
        Seq::empty()
    } else {
        draw_requests(
            renderable.pipelines@,
            renderable.render_resource_assignments.id,
            compile_env(
                vertex_buffer_descriptors,
                reflector,
                render_resource_context,
                &renderable.render_resource_assignments,
            ),
        )
    }
}

/// The requests of a frame: those of each renderable, in order.
pub open spec fn frame_requests<R: LayoutReflector, X: RenderResourceContext>(
    renderables: Seq<Renderable>,
    vertex_buffer_descriptors: &VertexBufferDescriptors,
    reflector: &R,
    render_resource_context: &X,
) -> Seq<DrawRequest>
    decreases renderables.len(),
{
    if renderables.len() == 0 {
        Seq::empty()
    } else {
        frame_requests(
            renderables.drop_last(),
            vertex_buffer_descriptors,
            reflector,
            render_resource_context,
        ) + renderable_requests(
            renderables.last(),
            vertex_buffer_descriptors,
            reflector,
            render_resource_context,
        )
    }
}

/// `after` is `before` once the frame pass has gone over it: an instanced entity is
/// left as it was; of any other, the shader defines are cleared and nothing else is
/// touched.
pub open spec fn passed_over(before: Renderable, after: Renderable) -> bool {
    if before.is_instanced {
        after == before
    } else {
        &&& after.is_instanced == before.is_instanced
        &&& after.pipelines == before.pipelines
        &&& after.render_resource_assignments.id == before.render_resource_assignments.id
        &&& after.render_resource_assignments.render_resources
            == before.render_resource_assignments.render_resources
        &&& after.render_resource_assignments.pipeline_specialization.primitive_topology
            == before.render_resource_assignments.pipeline_specialization.primitive_topology
        &&& after.render_resource_assignments.pipeline_specialization.shader_specialization@
            == Set::<Seq<char>>::empty()
    }
}

/// Some renderable of the frame that is not instanced has the resource set `id`.
pub open spec fn drawn_in_frame(renderables: Seq<Renderable>, id: RenderResourceAssignmentsId) -> bool {
    exists|k: int|
        0 <= k < renderables.len() && !(#[trigger] renderables[k]).is_instanced
            && renderables[k].render_resource_assignments.id == id
}

/// Every resource set in the table belongs to a renderable of the frame that is not
/// instanced.
pub open spec fn table_from_frame(table: AssignmentTable, renderables: Seq<Renderable>) -> bool {
    forall|pipeline: u128, j: int|
        table.contains_key(pipeline) && 0 <= j < table[pipeline].len() ==> drawn_in_frame(
            renderables,
            #[trigger] table[pipeline][j],
        )
}

/// A pass without requests changes nothing.
pub proof fn lemma_pass_empty<C: ShaderCompiler>(state: FrameState<C>)
    ensures
        pass_resolved(state, Seq::empty(), state, Seq::empty()),
{
    let states = seq![state];
    assert(draws_resolved(states, Seq::empty(), Seq::empty()));
}

/// A pass followed by a pass is a pass over the requests of both.
pub proof fn lemma_pass_concat<C: ShaderCompiler>(
    pre: FrameState<C>,
    first_requests: Seq<DrawRequest>,
    first_outcomes: Seq<DrawOutcome>,
    mid: FrameState<C>,
    second_requests: Seq<DrawRequest>,
    second_outcomes: Seq<DrawOutcome>,
    post: FrameState<C>,
)
    requires
        pass_resolved(pre, first_requests, mid, first_outcomes),
        pass_resolved(mid, second_requests, post, second_outcomes),
    ensures
        pass_resolved(
            pre,
            first_requests + second_requests,
            post,
            first_outcomes + second_outcomes,
        ),
{
    let first = choose|states: Seq<FrameState<C>>|
        {
            &&& #[trigger] draws_resolved(states, first_requests, first_outcomes)
            &&& states.first() == pre
            &&& states.last() == mid
        };
    let second = choose|states: Seq<FrameState<C>>|
        {
            &&& #[trigger] draws_resolved(states, second_requests, second_outcomes)
            &&& states.first() == mid
            &&& states.last() == post
        };
    let states = first + second.drop_first();
    let requests = first_requests + second_requests;
    let outcomes = first_outcomes + second_outcomes;
    let n = first_requests.len() as int;
    assert forall|i: int|
        #![trigger requests[i]]
        0 <= i < requests.len() implies draw_resolved(
        states[i],
        requests[i],
        states[i + 1],
        outcomes[i],
    ) by {
        if i < n {
            assert(draw_resolved(
                first[i],
                first_requests[i],
                first[i + 1],
                first_outcomes[i],
            ));
            assert(states[i] == first[i]);
            assert(states[i + 1] == first[i + 1]);
        } else {
            let j = i - n;
            assert(requests[i] == second_requests[j]);
            assert(draw_resolved(
                second[j],
                second_requests[j],
                second[j + 1],
                second_outcomes[j],
            ));
            assert(states[i + 1] == second[j + 1]);
            if j == 0 {
                assert(states[i] == first[n]);
            } else {
                assert(states[i] == second[j]);
            }
        }
    }
    assert(draws_resolved(states, requests, outcomes));
    if second_requests.len() == 0 {
        assert(states.last() == first.last());
    } else {
        assert(states.last() == second.last());
    }
}

/// A pass changes the table by its outcomes alone.
pub proof fn lemma_pass_table<C: ShaderCompiler>(
    pre: FrameState<C>,
    requests: Seq<DrawRequest>,
    post: FrameState<C>,
    outcomes: Seq<DrawOutcome>,
)
    requires
        pass_resolved(pre, requests, post, outcomes),
    ensures
        post.table == table_with(pre.table, outcomes),
{
    let states = choose|states: Seq<FrameState<C>>|
        {
            &&& #[trigger] draws_resolved(states, requests, outcomes)
            &&& states.first() == pre
            &&& states.last() == post
        };
    lemma_states_table(states, requests, outcomes, requests.len() as int);
    assert(outcomes.take(outcomes.len() as int) =~= outcomes);
}

/// After the first `n` requests the table is what their outcomes make of it.
proof fn lemma_states_table<C: ShaderCompiler>(
    states: Seq<FrameState<C>>,
    requests: Seq<DrawRequest>,
    outcomes: Seq<DrawOutcome>,
    n: int,
)
    requires
        draws_resolved(states, requests, outcomes),
        0 <= n <= requests.len(),
    ensures
        states[n].table == table_with(states[0].table, outcomes.take(n)),
    decreases n,
{
    if n > 0 {
        lemma_states_table(states, requests, outcomes, n - 1);
        assert(draw_resolved(states[n - 1], requests[n - 1], states[n], outcomes[n - 1]));
        assert(outcomes.take(n).drop_last() =~= outcomes.take(n - 1));
        assert(outcomes.take(n).last() == outcomes[n - 1]);
    }
}

} // verus!
