//! What holds of the caches of compiled variants and of the table from one
//! resolution to the next.

use vstd::prelude::*;
use crate::error::PipelineError;
use crate::frame::{
    DrawOutcome, DrawRequest, FrameState, draw_resolved, drawn_in_frame, draws_resolved,
    frame_requests, pass_resolved, table_from_frame, table_of,
};
use crate::handle::{PipelineHandle, ShaderHandle};
use crate::layout::{PipelineLayoutView, ShaderLayoutView, VertexBufferDescriptors};
use crate::pipeline::{PipelineDescriptorView, ShaderStages};
use crate::specialization::PipelineSpecializationView;
use crate::render_resource::{RenderResourceAssignments, RenderResourceContext, Renderable};
use crate::resolution::{
    CompileEnv, CompilerState, ShaderState, compile_env, compiled_stored, fragment_compiled, needs_compiling,
    pipeline_compiled, pipeline_resolved, service_answered, shader_resolved, stage_reflected,
    stages_reflected,
};
use crate::text_order::lemma_listing;
use crate::search::{
    first_match, is_first_match, lemma_first_match_is, lemma_first_match_none,
    lemma_first_match_sound,
};
use crate::shader::{CompileError, LayoutReflector, ShaderCompiler, ShaderView};
use crate::variant_cache::{
    cached_pipeline, cached_shader, cached_variant, grown_from, lemma_appended_grown,
    lemma_appended_keeps, lemma_grown_reflexive, lemma_grown_transitive, lemma_kept_transitive,
    lemma_with_key_grown, lemma_with_key_keeps, listed, one_variant_each, variant_of,
    variants_kept, with_appended, with_key,
};

verus! {

/// What a resolution that needed the compile service leaves behind: on success, the
/// new variant at the end of the variants of the source and a binary of the stage of
/// the source in the store under its handle, with every other asset as it was; on
/// failure, an error of the compile service and neither the cache nor the store
/// changed.
pub proof fn lemma_compiled_variant<C: ShaderCompiler>(
    pre: ShaderState<C>,
    source: ShaderHandle,
    specialization: Set<Seq<char>>,
    defines: Seq<Seq<char>>,
    post: ShaderState<C>,
    result: Result<ShaderHandle, PipelineError>,
)
    requires
        shader_resolved(pre, source, specialization, defines, post, result),
        needs_compiling(pre, source, specialization),
    ensures
        match result {
            Ok(handle) => {
                &&& post.cache == with_appended(pre.cache, source.id, (specialization, handle))
                &&& post.store == pre.store.insert(handle.id, post.store[handle.id])
                &&& post.store[handle.id].is_binary()
                &&& post.store[handle.id].stage == pre.store[source.id].stage
            },
            Err(error) => error is Compile && post.cache == pre.cache && post.store == pre.store,
        },
{
    let outcome = choose|outcome: Result<Vec<u32>, CompileError>|
        {
            &&& #[trigger] service_answered(
                pre.service,
                pre.store[source.id],
                defines,
                outcome,
            )
            &&& compiled_stored(pre, source, specialization, outcome, post, result)
        };
    assert(compiled_stored(pre, source, specialization, outcome, post, result));
}

/// Resolving a shader keeps every shader variant and keeps the cache at one variant
/// for each specialization; and a shader that resolved to a compiled variant is found
/// in the cache afterwards.
pub proof fn lemma_shader_resolution_keeps<C: ShaderCompiler>(
    pre: ShaderState<C>,
    source: ShaderHandle,
    specialization: Set<Seq<char>>,
    defines: Seq<Seq<char>>,
    post: ShaderState<C>,
    result: Result<ShaderHandle, PipelineError>,
)
    requires
        shader_resolved(pre, source, specialization, defines, post, result),
    ensures
        variants_kept(pre.cache, post.cache),
        grown_from(pre.cache, post.cache),
        one_variant_each(pre.cache) ==> one_variant_each(post.cache),
        pre.store.dom().subset_of(post.store.dom()),
        result is Ok && pre.store.contains_key(source.id) && !pre.store[source.id].is_binary()
            ==> cached_shader(post.cache, source.id, specialization) == Some(result->Ok_0),
{
    lemma_grown_reflexive(pre.cache);
    if needs_compiling(pre, source, specialization) {
        lemma_compiled_variant(pre, source, specialization, defines, post, result);
        if result is Ok {
            lemma_appended_keeps(pre.cache, source.id, (specialization, result->Ok_0));
            lemma_appended_grown(pre.cache, source.id, (specialization, result->Ok_0));
        }
    }
}

/// Compiling a pipeline keeps every shader variant and keeps the cache of shader
/// variants at one variant for each specialization.
pub proof fn lemma_compilation_keeps<C: ShaderCompiler>(
    pre: ShaderState<C>,
    source: PipelineDescriptorView,
    env: CompileEnv,
    post: ShaderState<C>,
    result: Result<PipelineDescriptorView, PipelineError>,
)
    requires
        pipeline_compiled(pre, source, env, post, result),
    ensures
        variants_kept(pre.cache, post.cache),
        grown_from(pre.cache, post.cache),
        one_variant_each(pre.cache) ==> one_variant_each(post.cache),
        pre.store.dom().subset_of(post.store.dom()),
{
    let (mid, vertex) = choose|mid: ShaderState<C>, vertex: Result<ShaderHandle, PipelineError>|
        {
            &&& #[trigger] shader_resolved(
                pre,
                source.shader_stages.vertex,
                env.specialization.shader_defs,
        env.defines,
                mid,
                vertex,
            )
            &&& match vertex {
                Ok(handle) => fragment_compiled(mid, source, env, handle, post, result),
                Err(error) => post == mid && result == Err::<
                    PipelineDescriptorView,
                    PipelineError,
                >(error),
            }
        };
    lemma_shader_resolution_keeps(
        pre,
        source.shader_stages.vertex,
        env.specialization.shader_defs,
        env.defines,
        mid,
        vertex,
    );
    if vertex is Ok && source.shader_stages.fragment is Some {
        let fragment = source.shader_stages.fragment->0;
        let resolved = choose|resolved: Result<ShaderHandle, PipelineError>| #[trigger]
            shader_resolved(
                mid,
                fragment,
                env.specialization.shader_defs,
                env.defines,
                post,
                resolved,
            );
        lemma_shader_resolution_keeps(
            mid,
            fragment,
            env.specialization.shader_defs,
        env.defines,
            post,
            resolved,
        );
        lemma_kept_transitive(pre.cache, mid.cache, post.cache);
        lemma_grown_transitive(pre.cache, mid.cache, post.cache);
    }
}

/// Resolving a pipeline keeps every variant of both caches and keeps both caches at one
/// variant for each specialization; and the pipeline that it resolved to is found in
/// the cache afterwards.
pub proof fn lemma_resolution_keeps<C: ShaderCompiler>(
    pre: CompilerState<C>,
    source: PipelineHandle,
    env: CompileEnv,
    post: CompilerState<C>,
    result: Result<PipelineHandle, PipelineError>,
)
    requires
        pipeline_resolved(pre, source, env, post, result),
    ensures
        variants_kept(pre.pipelines, post.pipelines),
        variants_kept(pre.shaders.cache, post.shaders.cache),
        grown_from(pre.pipelines, post.pipelines),
        grown_from(pre.shaders.cache, post.shaders.cache),
        one_variant_each(pre.pipelines) ==> one_variant_each(post.pipelines),
        one_variant_each(pre.shaders.cache) ==> one_variant_each(post.shaders.cache),
        result is Ok ==> cached_pipeline(post.pipelines, source.id, env.specialization) == Some(
            result->Ok_0,
        ),
{
    lemma_grown_reflexive(pre.pipelines);
    lemma_grown_reflexive(pre.shaders.cache);
    if cached_pipeline(pre.pipelines, source.id, env.specialization) is None {
        lemma_with_key_keeps(pre.pipelines, source.id);
        lemma_with_key_grown(pre.pipelines, source.id);
        if pre.pipeline_store.contains_key(source.id) {
            let compiled = choose|compiled: Result<PipelineDescriptorView, PipelineError>|
                {
                    &&& #[trigger] pipeline_compiled(
                        pre.shaders,
                        pre.pipeline_store[source.id],
                        env,
                        post.shaders,
                        compiled,
                    )
                    &&& match compiled {
                        Ok(descriptor) => {
                            &&& result matches Ok(handle)
                            &&& post.pipeline_store == pre.pipeline_store.insert(
                                handle.id,
                                descriptor,
                            )
                            &&& post.pipelines == with_appended(
                                pre.pipelines,
                                source.id,
                                (env.specialization, handle),
                            )
                        },
                        Err(error) => {
                            &&& result == Err::<PipelineHandle, PipelineError>(error)
                            &&& post.pipeline_store == pre.pipeline_store
                            &&& post.pipelines == with_key(pre.pipelines, source.id)
                        },
                    }
                };
            lemma_compilation_keeps(
                pre.shaders,
                pre.pipeline_store[source.id],
                env,
                post.shaders,
                compiled,
            );
            if compiled is Ok {
                lemma_appended_keeps(
                    pre.pipelines,
                    source.id,
                    (env.specialization, result->Ok_0),
                );
                lemma_appended_grown(
                    pre.pipelines,
                    source.id,
                    (env.specialization, result->Ok_0),
                );
            }
        }
    }
}

/// The states that a pass goes through keep every variant of both caches, and keep
/// both caches at one variant for each specialization.
pub proof fn lemma_states_keep<C: ShaderCompiler>(
    states: Seq<FrameState<C>>,
    requests: Seq<DrawRequest>,
    outcomes: Seq<DrawOutcome>,
    m: int,
    n: int,
)
    requires
        draws_resolved(states, requests, outcomes),
        0 <= m <= n <= requests.len(),
    ensures
        variants_kept(states[m].compiler.pipelines, states[n].compiler.pipelines),
        variants_kept(states[m].compiler.shaders.cache, states[n].compiler.shaders.cache),
        grown_from(states[m].compiler.pipelines, states[n].compiler.pipelines),
        grown_from(states[m].compiler.shaders.cache, states[n].compiler.shaders.cache),
        one_variant_each(states[m].compiler.pipelines) ==> one_variant_each(
            states[n].compiler.pipelines,
        ),
        one_variant_each(states[m].compiler.shaders.cache) ==> one_variant_each(
            states[n].compiler.shaders.cache,
        ),
    decreases n - m,
{
    if m < n {
        lemma_states_keep(states, requests, outcomes, m, n - 1);
        assert(draw_resolved(states[n - 1], requests[n - 1], states[n], outcomes[n - 1]));
        lemma_resolution_keeps(
            states[n - 1].compiler,
            requests[n - 1].source,
            requests[n - 1].env,
            states[n].compiler,
            outcomes[n - 1].result,
        );
        lemma_kept_transitive(
            states[m].compiler.pipelines,
            states[n - 1].compiler.pipelines,
            states[n].compiler.pipelines,
        );
        lemma_kept_transitive(
            states[m].compiler.shaders.cache,
            states[n - 1].compiler.shaders.cache,
            states[n].compiler.shaders.cache,
        );
        lemma_grown_transitive(
            states[m].compiler.pipelines,
            states[n - 1].compiler.pipelines,
            states[n].compiler.pipelines,
        );
        lemma_grown_transitive(
            states[m].compiler.shaders.cache,
            states[n - 1].compiler.shaders.cache,
            states[n].compiler.shaders.cache,
        );
    } else {
        lemma_grown_reflexive(states[m].compiler.pipelines);
        lemma_grown_reflexive(states[m].compiler.shaders.cache);
    }
}

/// A pass keeps every variant of both caches, and keeps both caches at one variant for
/// each specialization: the caches grow, and never by a second variant for a
/// specialization that has one.
pub proof fn lemma_pass_keeps<C: ShaderCompiler>(
    pre: FrameState<C>,
    requests: Seq<DrawRequest>,
    post: FrameState<C>,
    outcomes: Seq<DrawOutcome>,
)
    requires
        pass_resolved(pre, requests, post, outcomes),
    ensures
        variants_kept(pre.compiler.pipelines, post.compiler.pipelines),
        variants_kept(pre.compiler.shaders.cache, post.compiler.shaders.cache),
        grown_from(pre.compiler.pipelines, post.compiler.pipelines),
        grown_from(pre.compiler.shaders.cache, post.compiler.shaders.cache),
        one_variant_each(pre.compiler.pipelines) ==> one_variant_each(post.compiler.pipelines),
        one_variant_each(pre.compiler.shaders.cache) ==> one_variant_each(
            post.compiler.shaders.cache,
        ),
{
    let states = choose|states: Seq<FrameState<C>>|
        {
            &&& #[trigger] draws_resolved(states, requests, outcomes)
            &&& states.first() == pre
            &&& states.last() == post
        };
    lemma_states_keep(states, requests, outcomes, 0, requests.len() as int);
}

/// Resolving a pipeline for a specialization that the cache holds a variant for gives
/// that variant and changes nothing.
pub proof fn lemma_cached_pipeline_reused<C: ShaderCompiler>(
    pre: CompilerState<C>,
    source: PipelineHandle,
    env: CompileEnv,
    post: CompilerState<C>,
    result: Result<PipelineHandle, PipelineError>,
    handle: PipelineHandle,
)
    requires
        pipeline_resolved(pre, source, env, post, result),
        cached_pipeline(pre.pipelines, source.id, env.specialization) == Some(handle),
    ensures
        result == Ok::<PipelineHandle, PipelineError>(handle),
        post == pre,
{
}

/// Resolution is idempotent. Once a pipeline has resolved to a compiled pipeline for a
/// specialization, resolving it again for an equal specialization, in any later state
/// that keeps the variants of the state after the first resolution, gives the same
/// compiled pipeline and changes nothing: the list of variants does not grow.
pub proof fn lemma_resolution_idempotent<C: ShaderCompiler>(
    pre: CompilerState<C>,
    source: PipelineHandle,
    env: CompileEnv,
    post: CompilerState<C>,
    handle: PipelineHandle,
    later: CompilerState<C>,
    later_env: CompileEnv,
    last: CompilerState<C>,
    result: Result<PipelineHandle, PipelineError>,
)
    requires
        pipeline_resolved(pre, source, env, post, Ok(handle)),
        variants_kept(post.pipelines, later.pipelines),
        later_env.specialization == env.specialization,
        pipeline_resolved(later, source, later_env, last, result),
    ensures
        result == Ok::<PipelineHandle, PipelineError>(handle),
        last == later,
{
    lemma_resolution_keeps(pre, source, env, post, Ok(handle));
    assert(cached_variant(post.pipelines, source.id, env.specialization) is Some);
}

/// Within one pass, a request that repeats the pipeline and the specialization of an
/// earlier request that succeeded gets the same compiled pipeline.
pub proof fn lemma_pass_repeats<C: ShaderCompiler>(
    pre: FrameState<C>,
    requests: Seq<DrawRequest>,
    post: FrameState<C>,
    outcomes: Seq<DrawOutcome>,
    i: int,
    j: int,
)
    requires
        pass_resolved(pre, requests, post, outcomes),
        0 <= i < j < requests.len(),
        requests[j].source == requests[i].source,
        requests[j].env.specialization == requests[i].env.specialization,
        outcomes[i].result is Ok,
    ensures
        outcomes[j].result == outcomes[i].result,
{
    let states = choose|states: Seq<FrameState<C>>|
        {
            &&& #[trigger] draws_resolved(states, requests, outcomes)
            &&& states.first() == pre
            &&& states.last() == post
        };
    assert(draw_resolved(states[i], requests[i], states[i + 1], outcomes[i]));
    assert(draw_resolved(states[j], requests[j], states[j + 1], outcomes[j]));
    lemma_states_keep(states, requests, outcomes, i + 1, j);
    lemma_resolution_idempotent(
        states[i].compiler,
        requests[i].source,
        requests[i].env,
        states[i + 1].compiler,
        outcomes[i].result->Ok_0,
        states[j].compiler,
        requests[j].env,
        states[j + 1].compiler,
        outcomes[j].result,
    );
}

/// Across passes, a request that repeats the pipeline and the specialization of a
/// request that succeeded in an earlier pass gets the same compiled pipeline, however
/// many passes lie between the two, as long as the caches were kept from one to the
/// next.
pub proof fn lemma_frames_repeat<C: ShaderCompiler>(
    pre: FrameState<C>,
    requests: Seq<DrawRequest>,
    post: FrameState<C>,
    outcomes: Seq<DrawOutcome>,
    i: int,
    later_pre: FrameState<C>,
    later_requests: Seq<DrawRequest>,
    later_post: FrameState<C>,
    later_outcomes: Seq<DrawOutcome>,
    j: int,
)
    requires
        pass_resolved(pre, requests, post, outcomes),
        0 <= i < requests.len(),
        outcomes[i].result is Ok,
        variants_kept(post.compiler.pipelines, later_pre.compiler.pipelines),
        pass_resolved(later_pre, later_requests, later_post, later_outcomes),
        0 <= j < later_requests.len(),
        later_requests[j].source == requests[i].source,
        later_requests[j].env.specialization == requests[i].env.specialization,
    ensures
        later_outcomes[j].result == outcomes[i].result,
{
    let states = choose|states: Seq<FrameState<C>>|
        {
            &&& #[trigger] draws_resolved(states, requests, outcomes)
            &&& states.first() == pre
            &&& states.last() == post
        };
    let later_states = choose|states: Seq<FrameState<C>>|
        {
            &&& #[trigger] draws_resolved(states, later_requests, later_outcomes)
            &&& states.first() == later_pre
            &&& states.last() == later_post
        };
    assert(draw_resolved(states[i], requests[i], states[i + 1], outcomes[i]));
    assert(draw_resolved(
        later_states[j],
        later_requests[j],
        later_states[j + 1],
        later_outcomes[j],
    ));
    lemma_states_keep(states, requests, outcomes, i + 1, requests.len() as int);
    lemma_states_keep(later_states, later_requests, later_outcomes, 0, j);
    lemma_kept_transitive(
        states[i + 1].compiler.pipelines,
        post.compiler.pipelines,
        later_pre.compiler.pipelines,
    );
    lemma_kept_transitive(
        states[i + 1].compiler.pipelines,
        later_pre.compiler.pipelines,
        later_states[j].compiler.pipelines,
    );
    lemma_resolution_idempotent(
        states[i].compiler,
        requests[i].source,
        requests[i].env,
        states[i + 1].compiler,
        outcomes[i].result->Ok_0,
        later_states[j].compiler,
        later_requests[j].env,
        later_states[j + 1].compiler,
        later_outcomes[j].result,
    );
}

/// Every request asks for a variant that the cache holds.
pub open spec fn all_cached<C>(state: CompilerState<C>, requests: Seq<DrawRequest>) -> bool {
    forall|i: int|
        0 <= i < requests.len() ==> cached_pipeline(
            state.pipelines,
            (#[trigger] requests[i]).source.id,
            requests[i].env.specialization,
        ) is Some
}

/// A pass in which every request asks for a variant that the cache holds changes the
/// table and nothing else: the caches, the stores and the compile service are as they
/// were, and each request gets the variant that the cache holds for it.
pub proof fn lemma_cached_pass_changes_only_the_table<C: ShaderCompiler>(
    pre: FrameState<C>,
    requests: Seq<DrawRequest>,
    post: FrameState<C>,
    outcomes: Seq<DrawOutcome>,
)
    requires
        pass_resolved(pre, requests, post, outcomes),
        all_cached(pre.compiler, requests),
    ensures
        post.compiler == pre.compiler,
        forall|i: int|
            0 <= i < requests.len() ==> (#[trigger] outcomes[i]).result == Ok::<
                PipelineHandle,
                PipelineError,
            >(
                cached_pipeline(
                    pre.compiler.pipelines,
                    requests[i].source.id,
                    requests[i].env.specialization,
                )->0,
            ),
{
    let states = choose|states: Seq<FrameState<C>>|
        {
            &&& #[trigger] draws_resolved(states, requests, outcomes)
            &&& states.first() == pre
            &&& states.last() == post
        };
    lemma_cached_states_stay(states, requests, outcomes, requests.len() as int);
    assert forall|i: int| 0 <= i < requests.len() implies (#[trigger] outcomes[i]).result == Ok::<
        PipelineHandle,
        PipelineError,
    >(
        cached_pipeline(
            pre.compiler.pipelines,
            requests[i].source.id,
            requests[i].env.specialization,
        )->0,
    ) by {
        lemma_cached_states_stay(states, requests, outcomes, i);
        assert(draw_resolved(states[i], requests[i], states[i + 1], outcomes[i]));
    }
}

/// Through the first `n` requests of a pass in which every request asks for a variant
/// that the cache holds, the caches, the stores and the compile service stay as they
/// were.
proof fn lemma_cached_states_stay<C: ShaderCompiler>(
    states: Seq<FrameState<C>>,
    requests: Seq<DrawRequest>,
    outcomes: Seq<DrawOutcome>,
    n: int,
)
    requires
        draws_resolved(states, requests, outcomes),
        all_cached(states[0].compiler, requests),
        0 <= n <= requests.len(),
    ensures
        states[n].compiler == states[0].compiler,
    decreases n,
{
    if n > 0 {
        lemma_cached_states_stay(states, requests, outcomes, n - 1);
        assert(draw_resolved(states[n - 1], requests[n - 1], states[n], outcomes[n - 1]));
    }
}

/// Reflection succeeds where it can: with every stage in the store as a binary off
/// which the reflector reads a layout whenever it is asked, a layout is the result.
pub proof fn lemma_reflection_succeeds(
    env: CompileEnv,
    store: Map<u128, ShaderView>,
    stages: ShaderStages,
    result: Result<PipelineLayoutView, PipelineError>,
)
    requires
        stages_reflected(env, store, stages, result),
        store.contains_key(stages.vertex.id),
        store[stages.vertex.id].is_binary(),
        stages.fragment matches Some(fragment) ==> store.contains_key(fragment.id)
            && store[fragment.id].is_binary(),
        forall|words: Seq<u32>| !(#[trigger] (env.reflects)(words, None::<ShaderLayoutView>)),
    ensures
        result is Ok,
{
}

/// Reflection fails where the reflector finds no layout: an error of reflection names
/// a shader that is source text, or a binary for whose words the reflector answered
/// that it holds no layout.
pub proof fn lemma_reflection_error_is_an_answer(
    env: CompileEnv,
    store: Map<u128, ShaderView>,
    stages: ShaderStages,
    handle: ShaderHandle,
)
    requires
        stages_reflected(
            env,
            store,
            stages,
            Err::<PipelineLayoutView, PipelineError>(PipelineError::Reflection(handle)),
        ),
    ensures
        handle == stages.vertex || stages.fragment == Some(handle),
        store.contains_key(handle.id),
        stage_reflected(env.reflects, store, handle, None::<ShaderLayoutView>),
{
}

/// A shader that is a binary resolves to itself under every specialization, and
/// nothing changes.
pub proof fn lemma_binary_passes_through<C: ShaderCompiler>(
    pre: ShaderState<C>,
    source: ShaderHandle,
    specialization: Set<Seq<char>>,
    defines: Seq<Seq<char>>,
    post: ShaderState<C>,
    result: Result<ShaderHandle, PipelineError>,
)
    requires
        shader_resolved(pre, source, specialization, defines, post, result),
        pre.store.contains_key(source.id),
        pre.store[source.id].is_binary(),
    ensures
        result == Ok::<ShaderHandle, PipelineError>(source),
        post == pre,
        !needs_compiling(pre, source, specialization),
{
}

/// No two of the variants have the same handle.
pub open spec fn handles_distinct<S, H>(variants: Seq<(S, H)>) -> bool {
    forall|i: int, j: int|
        0 <= i < j < variants.len() ==> (#[trigger] variants[i]).1 != (#[trigger] variants[j]).1
}

/// The cache of shader variants fits the store: each source has at most one variant
/// for each specialization, the variants of a source have handles of their own, and
/// the store holds a shader under each of them.
pub open spec fn shader_state_sound<C: ShaderCompiler>(state: ShaderState<C>) -> bool {
    &&& one_variant_each(state.cache)
    &&& forall|source: u128|
        state.cache.contains_key(source) ==> handles_distinct(#[trigger] state.cache[source])
    &&& forall|source: u128, k: int|
        state.cache.contains_key(source) && 0 <= k < state.cache[source].len()
            ==> state.store.contains_key((#[trigger] state.cache[source][k]).1.id)
}

/// Where the resolution stored a compiled shader, the store gave it a handle that it
/// had not been using.
pub open spec fn handle_was_fresh<C: ShaderCompiler>(
    pre: ShaderState<C>,
    source: ShaderHandle,
    specialization: Set<Seq<char>>,
    result: Result<ShaderHandle, PipelineError>,
) -> bool {
    needs_compiling(pre, source, specialization) && result is Ok ==> !pre.store.contains_key(
        result->Ok_0.id,
    )
}

/// As long as the store gives out fresh handles, resolving a shader keeps the cache
/// fitting the store.
pub proof fn lemma_shader_state_stays_sound<C: ShaderCompiler>(
    pre: ShaderState<C>,
    source: ShaderHandle,
    specialization: Set<Seq<char>>,
    defines: Seq<Seq<char>>,
    post: ShaderState<C>,
    result: Result<ShaderHandle, PipelineError>,
)
    requires
        shader_state_sound(pre),
        shader_resolved(pre, source, specialization, defines, post, result),
        handle_was_fresh(pre, source, specialization, result),
    ensures
        shader_state_sound(post),
{
    lemma_shader_resolution_keeps(pre, source, specialization, defines, post, result);
    if needs_compiling(pre, source, specialization) && result is Ok {
        let handle = result->Ok_0;
        let before = listed(pre.cache, source.id);
        assert(post.cache[source.id] == before.push((specialization, handle)));
        assert forall|other: u128| post.cache.contains_key(other) implies handles_distinct(
            #[trigger] post.cache[other],
        ) by {
            if other == source.id {
                let longer = post.cache[other];
                assert forall|i: int, j: int| 0 <= i < j < longer.len() implies (
                #[trigger] longer[i]).1 != (#[trigger] longer[j]).1 by {
                    if j < before.len() {
                        assert(handles_distinct(pre.cache[source.id]));
                        assert(longer[i] == before[i]);
                        assert(longer[j] == before[j]);
                    } else {
                        assert(longer[i] == pre.cache[source.id][i]);
                        assert(pre.store.contains_key(pre.cache[source.id][i].1.id));
                    }
                }
            } else {
                assert(post.cache[other] == pre.cache[other]);
            }
        }
        assert forall|other: u128, k: int|
            post.cache.contains_key(other) && 0 <= k < post.cache[other].len() implies post.store.contains_key(
            (#[trigger] post.cache[other][k]).1.id,
        ) by {
            if other == source.id {
                if k < before.len() {
                    assert(post.cache[other][k] == pre.cache[source.id][k]);
                    assert(pre.store.contains_key(pre.cache[source.id][k].1.id));
                }
            } else {
                assert(post.cache[other] == pre.cache[other]);
                assert(pre.store.contains_key(pre.cache[other][k].1.id));
            }
        }
    }
}

/// The cache of shader variants is sound. Take a source shader that is not a binary,
/// and two specializations that differ as sets. Resolving the shader for the first and
/// then for the second gives two different compiled shaders, and the cache holds each
/// under its specialization; resolving it for the first again gives the first compiled
/// shader and changes nothing, the compile service included, so nothing is compiled
/// again. Where the cache held no variant of the source at the start, neither compiled
/// shader is the source itself, and the variants of the source are these two, in the
/// order of the calls. This holds as long as the store gives out handles that it was
/// not using.
pub proof fn lemma_cache_soundness<C: ShaderCompiler>(
    start: ShaderState<C>,
    source: ShaderHandle,
    a: Set<Seq<char>>,
    a_defines: Seq<Seq<char>>,
    b: Set<Seq<char>>,
    b_defines: Seq<Seq<char>>,
    first: ShaderHandle,
    after_first: ShaderState<C>,
    second: ShaderHandle,
    after_second: ShaderState<C>,
    again: Result<ShaderHandle, PipelineError>,
    after_again: ShaderState<C>,
)
    requires
        shader_state_sound(start),
        start.store.contains_key(source.id),
        !start.store[source.id].is_binary(),
        a != b,
        shader_resolved(start, source, a, a_defines, after_first, Ok(first)),
        handle_was_fresh(start, source, a, Ok(first)),
        shader_resolved(after_first, source, b, b_defines, after_second, Ok(second)),
        handle_was_fresh(after_first, source, b, Ok(second)),
        shader_resolved(after_second, source, a, a_defines, after_again, again),
    ensures
        first != second,
        cached_shader(after_second.cache, source.id, a) == Some(first),
        cached_shader(after_second.cache, source.id, b) == Some(second),
        again == Ok::<ShaderHandle, PipelineError>(first),
        after_again == after_second,
        !needs_compiling(after_second, source, a),
        shader_state_sound(after_second),
        listed(start.cache, source.id).len() == 0 ==> {
            &&& first != source
            &&& second != source
            &&& after_second.cache[source.id] == seq![(a, first), (b, second)]
        },
{
    lemma_shader_resolution_keeps(start, source, a, a_defines, after_first, Ok(first));
    lemma_shader_state_stays_sound(start, source, a, a_defines, after_first, Ok(first));
    if needs_compiling(start, source, a) {
        lemma_compiled_variant(start, source, a, a_defines, after_first, Ok(first));
    }
    assert(after_first.store.contains_key(source.id));
    assert(after_first.store[source.id] == start.store[source.id]);
    assert(cached_shader(after_first.cache, source.id, a) == Some(first));
    lemma_shader_resolution_keeps(after_first, source, b, b_defines, after_second, Ok(second));
    lemma_shader_state_stays_sound(after_first, source, b, b_defines, after_second, Ok(second));
    if needs_compiling(after_first, source, b) {
        lemma_compiled_variant(after_first, source, b, b_defines, after_second, Ok(second));
    }
    assert(cached_variant(after_first.cache, source.id, a) is Some);
    assert(cached_shader(after_second.cache, source.id, a) == Some(first));
    assert(cached_shader(after_second.cache, source.id, b) == Some(second));
    assert(after_second.store[source.id] == after_first.store[source.id]);
    let variants = listed(after_second.cache, source.id);
    lemma_first_match_sound(variants, variant_of::<Set<Seq<char>>, ShaderHandle>(a));
    lemma_first_match_sound(variants, variant_of::<Set<Seq<char>>, ShaderHandle>(b));
    let i = first_match(variants, variant_of::<Set<Seq<char>>, ShaderHandle>(a))->0;
    let j = first_match(variants, variant_of::<Set<Seq<char>>, ShaderHandle>(b))->0;
    assert(variants[i].0 == a);
    assert(variants[j].0 == b);
    assert(i != j);
    assert(handles_distinct(after_second.cache[source.id]));
    if i < j {
        assert(variants[i].1 != variants[j].1);
    } else {
        assert(variants[j].1 != variants[i].1);
    }
    if listed(start.cache, source.id).len() == 0 {
        let nothing = listed(start.cache, source.id);
        lemma_first_match_none(nothing, variant_of::<Set<Seq<char>>, ShaderHandle>(a));
        assert(needs_compiling(start, source, a));
        let one = listed(after_first.cache, source.id);
        assert(one == nothing.push((a, first)));
        assert(one =~= seq![(a, first)]);
        assert(!variant_of::<Set<Seq<char>>, ShaderHandle>(b)(one[0]));
        lemma_first_match_none(one, variant_of::<Set<Seq<char>>, ShaderHandle>(b));
        assert(needs_compiling(after_first, source, b));
        assert(after_second.cache[source.id] == one.push((b, second)));
        assert(after_second.cache[source.id] =~= seq![(a, first), (b, second)]);
    }
}

/// Each entry of the table that the outcomes of a frame make comes from an outcome of
/// that frame: one that succeeded with the pipeline under which the entry stands.
pub proof fn lemma_table_entry_origin(outcomes: Seq<DrawOutcome>, pipeline: u128, j: int)
    requires
        table_of(outcomes).contains_key(pipeline),
        0 <= j < table_of(outcomes)[pipeline].len(),
    ensures
        exists|i: int|
            0 <= i < outcomes.len() && (#[trigger] outcomes[i]).id == table_of(
                outcomes,
            )[pipeline][j] && outcomes[i].result is Ok && outcomes[i].result->Ok_0.id == pipeline,
    decreases outcomes.len(),
{
    if outcomes.len() > 0 {
        let earlier = outcomes.drop_last();
        let last = outcomes.last();
        let before = table_of(earlier);
        let found_earlier = before.contains_key(pipeline) && j < before[pipeline].len();
        match last.result {
            Ok(handle) => {
                if handle.id == pipeline {
                    assert(table_of(outcomes)[pipeline] == listed(before, pipeline).push(
                        last.id,
                    ));
                    if found_earlier {
                        assert(table_of(outcomes)[pipeline][j] == before[pipeline][j]);
                    } else {
                        assert(j == listed(before, pipeline).len());
                        assert(outcomes[outcomes.len() - 1] == last);
                    }
                } else {
                    assert(table_of(outcomes)[pipeline] == before[pipeline]);
                }
            },
            Err(_) => {},
        }
        if found_earlier {
            lemma_table_entry_origin(earlier, pipeline, j);
            let i = choose|i: int|
                0 <= i < earlier.len() && (#[trigger] earlier[i]).id == before[pipeline][j]
                    && earlier[i].result is Ok && earlier[i].result->Ok_0.id == pipeline;
            assert(outcomes[i] == earlier[i]);
        }
    }
}

/// Each draw call that succeeded stands in the table under the pipeline that it
/// resolved to.
pub proof fn lemma_table_holds_success(outcomes: Seq<DrawOutcome>, i: int)
    requires
        0 <= i < outcomes.len(),
        outcomes[i].result is Ok,
    ensures
        table_of(outcomes).contains_key(outcomes[i].result->Ok_0.id),
        table_of(outcomes)[outcomes[i].result->Ok_0.id].contains(outcomes[i].id),
    decreases outcomes.len(),
{
    let pipeline = outcomes[i].result->Ok_0.id;
    let earlier = outcomes.drop_last();
    let last = outcomes.last();
    let before = table_of(earlier);
    if i < earlier.len() {
        assert(earlier[i] == outcomes[i]);
        lemma_table_holds_success(earlier, i);
        let at = choose|at: int|
            0 <= at < before[pipeline].len() && before[pipeline][at] == outcomes[i].id;
        match last.result {
            Ok(handle) => {
                if handle.id == pipeline {
                    assert(table_of(outcomes)[pipeline] == before[pipeline].push(last.id));
                    assert(table_of(outcomes)[pipeline][at] == outcomes[i].id);
                } else {
                    assert(table_of(outcomes)[pipeline] == before[pipeline]);
                }
            },
            Err(_) => {},
        }
    } else {
        let list = listed(before, pipeline).push(last.id);
        assert(table_of(outcomes)[pipeline] == list);
        assert(list[list.len() - 1] == last.id);
    }
}

/// Two draw calls of one pass that ask for the same source pipeline under equal
/// specializations stand in the same list of the table, where the first of them
/// succeeded.
pub proof fn lemma_equal_requests_share_a_list<C: ShaderCompiler>(
    pre: FrameState<C>,
    requests: Seq<DrawRequest>,
    post: FrameState<C>,
    outcomes: Seq<DrawOutcome>,
    i: int,
    j: int,
)
    requires
        pass_resolved(pre, requests, post, outcomes),
        0 <= i < j < requests.len(),
        requests[j].source == requests[i].source,
        requests[j].env.specialization == requests[i].env.specialization,
        outcomes[i].result is Ok,
    ensures
        table_of(outcomes).contains_key(outcomes[i].result->Ok_0.id),
        table_of(outcomes)[outcomes[i].result->Ok_0.id].contains(requests[i].id),
        table_of(outcomes)[outcomes[i].result->Ok_0.id].contains(requests[j].id),
{
    lemma_pass_repeats(pre, requests, post, outcomes, i, j);
    lemma_table_holds_success(outcomes, i);
    lemma_table_holds_success(outcomes, j);
    let states = choose|states: Seq<FrameState<C>>|
        {
            &&& #[trigger] draws_resolved(states, requests, outcomes)
            &&& states.first() == pre
            &&& states.last() == post
        };
    assert(draw_resolved(states[i], requests[i], states[i + 1], outcomes[i]));
    assert(draw_resolved(states[j], requests[j], states[j + 1], outcomes[j]));
}

/// A frame in which every renderable is instanced has no request.
pub proof fn lemma_instanced_renderables_ask_nothing<R: LayoutReflector, X: RenderResourceContext>(
    renderables: Seq<Renderable>,
    vertex_buffer_descriptors: &VertexBufferDescriptors,
    reflector: &R,
    render_resource_context: &X,
)
    requires
        forall|k: int| 0 <= k < renderables.len() ==> (#[trigger] renderables[k]).is_instanced,
    ensures
        frame_requests(renderables, vertex_buffer_descriptors, reflector, render_resource_context).len()
            == 0,
    decreases renderables.len(),
{
    if renderables.len() > 0 {
        let earlier = renderables.drop_last();
        assert forall|k: int| 0 <= k < earlier.len() implies (#[trigger] earlier[k]).is_instanced by {
            assert(earlier[k] == renderables[k]);
        }
        lemma_instanced_renderables_ask_nothing(
            earlier,
            vertex_buffer_descriptors,
            reflector,
            render_resource_context,
        );
        assert(renderables[renderables.len() - 1].is_instanced);
    }
}

/// Instanced entities are skipped entirely: a pass over a frame in which every
/// renderable is instanced changes neither the caches nor the stores nor the compile
/// service, and leaves the table as it found it.
pub proof fn lemma_instanced_frame_changes_nothing<C: ShaderCompiler, R: LayoutReflector, X: RenderResourceContext>(
    pre: FrameState<C>,
    renderables: Seq<Renderable>,
    vertex_buffer_descriptors: &VertexBufferDescriptors,
    reflector: &R,
    render_resource_context: &X,
    post: FrameState<C>,
    outcomes: Seq<DrawOutcome>,
)
    requires
        forall|k: int| 0 <= k < renderables.len() ==> (#[trigger] renderables[k]).is_instanced,
        pass_resolved(
            pre,
            frame_requests(renderables, vertex_buffer_descriptors, reflector, render_resource_context),
            post,
            outcomes,
        ),
    ensures
        post == pre,
        outcomes.len() == 0,
{
    lemma_instanced_renderables_ask_nothing(
        renderables,
        vertex_buffer_descriptors,
        reflector,
        render_resource_context,
    );
}

/// Each request of a frame comes from a renderable of the frame that is not
/// instanced.
pub proof fn lemma_request_origin<R: LayoutReflector, X: RenderResourceContext>(
    renderables: Seq<Renderable>,
    vertex_buffer_descriptors: &VertexBufferDescriptors,
    reflector: &R,
    render_resource_context: &X,
    i: int,
)
    requires
        0 <= i < frame_requests(
            renderables,
            vertex_buffer_descriptors,
            reflector,
            render_resource_context,
        ).len(),
    ensures
        drawn_in_frame(
            renderables,
            frame_requests(renderables, vertex_buffer_descriptors, reflector, render_resource_context)[i].id,
        ),
    decreases renderables.len(),
{
    if renderables.len() > 0 {
        let earlier = renderables.drop_last();
        let served = frame_requests(earlier, vertex_buffer_descriptors, reflector, render_resource_context);
        if i < served.len() {
            lemma_request_origin(earlier, vertex_buffer_descriptors, reflector, render_resource_context, i);
            let k = choose|k: int|
                0 <= k < earlier.len() && !(#[trigger] earlier[k]).is_instanced
                    && earlier[k].render_resource_assignments.id == served[i].id;
            assert(renderables[k] == earlier[k]);
        } else {
            let last = renderables.last();
            assert(renderables[renderables.len() - 1] == last);
            assert(!last.is_instanced);
        }
    }
}

/// The table that a frame pass builds holds resource sets of that frame only: each
/// entry belongs to a renderable that the pass went over and that is not instanced.
pub proof fn lemma_frame_isolation<C: ShaderCompiler, R: LayoutReflector, X: RenderResourceContext>(
    pre: FrameState<C>,
    renderables: Seq<Renderable>,
    vertex_buffer_descriptors: &VertexBufferDescriptors,
    reflector: &R,
    render_resource_context: &X,
    post: FrameState<C>,
    outcomes: Seq<DrawOutcome>,
)
    requires
        pass_resolved(
            pre,
            frame_requests(renderables, vertex_buffer_descriptors, reflector, render_resource_context),
            post,
            outcomes,
        ),
    ensures
        table_from_frame(table_of(outcomes), renderables),
{
    let requests = frame_requests(renderables, vertex_buffer_descriptors, reflector, render_resource_context);
    let states = choose|states: Seq<FrameState<C>>|
        {
            &&& #[trigger] draws_resolved(states, requests, outcomes)
            &&& states.first() == pre
            &&& states.last() == post
        };
    let table = table_of(outcomes);
    assert forall|pipeline: u128, j: int|
        table.contains_key(pipeline) && 0 <= j < table[pipeline].len() implies drawn_in_frame(
        renderables,
        #[trigger] table[pipeline][j],
    ) by {
        lemma_table_entry_origin(outcomes, pipeline, j);
        let i = choose|i: int|
            0 <= i < outcomes.len() && (#[trigger] outcomes[i]).id == table[pipeline][j]
                && outcomes[i].result is Ok && outcomes[i].result->Ok_0.id == pipeline;
        assert(draw_resolved(states[i], requests[i], states[i + 1], outcomes[i]));
        lemma_request_origin(renderables, vertex_buffer_descriptors, reflector, render_resource_context, i);
    }
}

/// Two draw calls whose specializations hold the same defines ask with the same list,
/// in whatever order the defines were added to each: the list that a request carries
/// to the compile service is the listing of the draw call's specialization, and equal
/// sets of defines are listed alike.
pub proof fn lemma_equal_defines_ask_alike<R: LayoutReflector, X: RenderResourceContext>(
    vertex_buffer_descriptors: &VertexBufferDescriptors,
    reflector: &R,
    render_resource_context: &X,
    first: &RenderResourceAssignments,
    second: &RenderResourceAssignments,
)
    requires
        first.pipeline_specialization.shader_specialization.in_order(),
        second.pipeline_specialization.shader_specialization.in_order(),
        first.pipeline_specialization.shader_specialization@
            == second.pipeline_specialization.shader_specialization@,
    ensures
        compile_env(vertex_buffer_descriptors, reflector, render_resource_context, first).defines
            == first.pipeline_specialization.shader_specialization.defines(),
        compile_env(vertex_buffer_descriptors, reflector, render_resource_context, second).defines
            == second.pipeline_specialization.shader_specialization.defines(),
        first.pipeline_specialization.shader_specialization.defines()
            == second.pipeline_specialization.shader_specialization.defines(),
{
    lemma_listing(first.pipeline_specialization.shader_specialization.defines());
    lemma_listing(second.pipeline_specialization.shader_specialization.defines());
}

/// `states` are the compiler states that resolving `source` for each of `envs` in turn
/// went through, with `results`: the calls of one pass, or of several passes one after
/// another, since nothing but resolution changes the compiler.
pub open spec fn resolved_in_turn<C: ShaderCompiler>(
    states: Seq<CompilerState<C>>,
    source: PipelineHandle,
    envs: Seq<CompileEnv>,
    results: Seq<Result<PipelineHandle, PipelineError>>,
) -> bool {
    &&& states.len() == envs.len() + 1
    &&& results.len() == envs.len()
    &&& forall|i: int|
        #![trigger envs[i]]
        0 <= i < envs.len() ==> pipeline_resolved(
            states[i],
            source,
            envs[i],
            states[i + 1],
            results[i],
        )
}

/// The requests of a pass that all ask for `source` are resolved in turn.
pub proof fn lemma_pass_resolves_in_turn<C: ShaderCompiler>(
    states: Seq<FrameState<C>>,
    requests: Seq<DrawRequest>,
    outcomes: Seq<DrawOutcome>,
    source: PipelineHandle,
)
    requires
        draws_resolved(states, requests, outcomes),
        forall|i: int| 0 <= i < requests.len() ==> (#[trigger] requests[i]).source == source,
    ensures
        resolved_in_turn(
            states.map_values(|state: FrameState<C>| state.compiler),
            source,
            requests.map_values(|request: DrawRequest| request.env),
            outcomes.map_values(|outcome: DrawOutcome| outcome.result),
        ),
{
    let compilers = states.map_values(|state: FrameState<C>| state.compiler);
    let envs = requests.map_values(|request: DrawRequest| request.env);
    let results = outcomes.map_values(|outcome: DrawOutcome| outcome.result);
    assert forall|i: int| #![trigger envs[i]] 0 <= i < envs.len() implies pipeline_resolved(
        compilers[i],
        source,
        envs[i],
        compilers[i + 1],
        results[i],
    ) by {
        assert(requests[i].source == source);
        assert(draw_resolved(states[i], requests[i], states[i + 1], outcomes[i]));
    }
}

/// While every call has failed, a compiler that held no variant of `source` holds none,
/// and the pipeline store is as it was.
proof fn lemma_failures_leave_no_variant<C: ShaderCompiler>(
    states: Seq<CompilerState<C>>,
    source: PipelineHandle,
    envs: Seq<CompileEnv>,
    results: Seq<Result<PipelineHandle, PipelineError>>,
    n: int,
)
    requires
        resolved_in_turn(states, source, envs, results),
        listed(states[0].pipelines, source.id).len() == 0,
        0 <= n <= envs.len(),
        forall|i: int| 0 <= i < n ==> (#[trigger] results[i]) is Err,
    ensures
        listed(states[n].pipelines, source.id).len() == 0,
        states[n].pipeline_store == states[0].pipeline_store,
    decreases n,
{
    if n > 0 {
        lemma_failures_leave_no_variant(states, source, envs, results, n - 1);
        let pre = states[n - 1];
        let env = envs[n - 1];
        assert(pipeline_resolved(pre, source, env, states[n], results[n - 1]));
        assert(results[n - 1] is Err);
        lemma_first_match_sound(listed(pre.pipelines, source.id), variant_of(env.specialization));
        assert(cached_pipeline(pre.pipelines, source.id, env.specialization) is None);
        assert(states[n].pipelines == with_key(pre.pipelines, source.id));
    }
}

/// However often one pipeline is resolved for one specialization, it is compiled once.
/// Let a compiler that holds no variant of `source` resolve it again and again for
/// specializations equal to `specialization`, and let the call `first` be the first
/// that succeeds. Then every later call gives the same compiled pipeline and changes
/// nothing; after any of them `source` has one variant, that of `specialization` with
/// this pipeline, and the pipeline store has gained the one compiled descriptor.
pub proof fn lemma_compiled_once<C: ShaderCompiler>(
    states: Seq<CompilerState<C>>,
    source: PipelineHandle,
    envs: Seq<CompileEnv>,
    results: Seq<Result<PipelineHandle, PipelineError>>,
    specialization: PipelineSpecializationView,
    first: int,
    n: int,
)
    requires
        resolved_in_turn(states, source, envs, results),
        forall|i: int| 0 <= i < envs.len() ==> (#[trigger] envs[i]).specialization == specialization,
        listed(states[0].pipelines, source.id).len() == 0,
        0 <= first < n <= envs.len(),
        results[first] is Ok,
        forall|i: int| 0 <= i < first ==> (#[trigger] results[i]) is Err,
    ensures
        results[n - 1] == results[first],
        states[n] == states[first + 1],
        listed(states[n].pipelines, source.id) == seq![(specialization, results[first]->Ok_0)],
        exists|descriptor: PipelineDescriptorView|
            states[n].pipeline_store == #[trigger] states[0].pipeline_store.insert(
                results[first]->Ok_0.id,
                descriptor,
            ),
    decreases n,
{
    let handle = results[first]->Ok_0;
    if n == first + 1 {
        lemma_failures_leave_no_variant(states, source, envs, results, first);
        let pre = states[first];
        let env = envs[first];
        assert(env.specialization == specialization);
        assert(pipeline_resolved(pre, source, env, states[n], results[first]));
        lemma_first_match_sound(listed(pre.pipelines, source.id), variant_of(specialization));
        assert(cached_pipeline(pre.pipelines, source.id, specialization) is None);
        let compiled = choose|compiled: Result<PipelineDescriptorView, PipelineError>|
            {
                &&& #[trigger] pipeline_compiled(
                    pre.shaders,
                    pre.pipeline_store[source.id],
                    env,
                    states[n].shaders,
                    compiled,
                )
                &&& match compiled {
                    Ok(descriptor) => {
                        &&& results[first] matches Ok(handle)
                        &&& states[n].pipeline_store == pre.pipeline_store.insert(
                            handle.id,
                            descriptor,
                        )
                        &&& states[n].pipelines == with_appended(
                            pre.pipelines,
                            source.id,
                            (env.specialization, handle),
                        )
                    },
                    Err(error) => {
                        &&& results[first] == Err::<PipelineHandle, PipelineError>(error)
                        &&& states[n].pipeline_store == pre.pipeline_store
                        &&& states[n].pipelines == with_key(pre.pipelines, source.id)
                    },
                }
            };
        assert(compiled is Ok);
        let descriptor = compiled->Ok_0;
        assert(states[n].pipeline_store == states[0].pipeline_store.insert(handle.id, descriptor));
        assert(listed(states[n].pipelines, source.id) =~= seq![(specialization, handle)]);
    } else {
        lemma_compiled_once(states, source, envs, results, specialization, first, n - 1);
        let pre = states[n - 1];
        let env = envs[n - 1];
        assert(env.specialization == specialization);
        assert(pipeline_resolved(pre, source, env, states[n], results[n - 1]));
        let variants = listed(pre.pipelines, source.id);
        assert(variant_of::<PipelineSpecializationView, PipelineHandle>(specialization)(variants[0]));
        assert(is_first_match(variants, variant_of(specialization), 0));
        lemma_first_match_is(variants, variant_of(specialization), 0);
        assert(cached_pipeline(pre.pipelines, source.id, specialization) == Some(handle));
    }
}

} // verus!
