//! The model of a cache of compiled variants: for each source, the list of its
//! variants by specialization, which only ever grows at its end.

use vstd::prelude::*;
use crate::handle::{PipelineHandle, ShaderHandle};
use crate::search::{first_match, lemma_first_match_push, lemma_first_match_sound};
use crate::specialization::PipelineSpecializationView;

verus! {

/// The compiled variants of one source shader: each specialization with the handle of
/// the shader compiled for it, oldest first.
pub type ShaderVariants = Seq<(Set<Seq<char>>, ShaderHandle)>;

/// The compiled variants of one source pipeline: each specialization with the handle of
/// the pipeline compiled for it, oldest first.
pub type PipelineVariants = Seq<(PipelineSpecializationView, PipelineHandle)>;

/// The variants compiled for the specialization `specialization`.
pub open spec fn variant_of<S, H>(specialization: S) -> spec_fn((S, H)) -> bool {
    |variant: (S, H)| variant.0 == specialization
}

/// The list that `lists` holds under `key`: empty where it holds none.
pub open spec fn listed<V>(lists: Map<u128, Seq<V>>, key: u128) -> Seq<V> {
    if lists.contains_key(key) {
        lists[key]
    } else {
        Seq::empty()
    }
}

/// The handle that a scan of the variants of `source` finds for `specialization`: that
/// of the oldest variant compiled for it.
pub open spec fn cached_variant<S, H>(
    cache: Map<u128, Seq<(S, H)>>,
    source: u128,
    specialization: S,
) -> Option<H> {
    match first_match(listed(cache, source), variant_of(specialization)) {
        Some(k) => Some(listed(cache, source)[k].1),
        None => None,
    }
}

/// The compiled shader that the cache holds for `source` and `specialization`.
pub open spec fn cached_shader(
    cache: Map<u128, ShaderVariants>,
    source: u128,
    specialization: Set<Seq<char>>,
) -> Option<ShaderHandle> {
    cached_variant(cache, source, specialization)
}

/// The compiled pipeline that the cache holds for `source` and `specialization`.
pub open spec fn cached_pipeline(
    cache: Map<u128, PipelineVariants>,
    source: u128,
    specialization: PipelineSpecializationView,
) -> Option<PipelineHandle> {
    cached_variant(cache, source, specialization)
}

/// `lists` with `item` appended to the list under `key`.
pub open spec fn with_appended<V>(lists: Map<u128, Seq<V>>, key: u128, item: V) -> Map<
    u128,
    Seq<V>,
> {
    lists.insert(key, listed(lists, key).push(item))
}

/// `lists` with an empty list under `key` where it held none.
pub open spec fn with_key<V>(lists: Map<u128, Seq<V>>, key: u128) -> Map<u128, Seq<V>> {
    if lists.contains_key(key) {
        lists
    } else {
        lists.insert(key, Seq::empty())
    }
}

/// The handles of the variants, oldest first.
pub open spec fn variant_handles<S, H>(variants: Seq<(S, H)>) -> Seq<H> {
    variants.map_values(|variant: (S, H)| variant.1)
}

/// The handles of the variants of the sources `order`, source by source.
pub open spec fn handles_in_order<S, H>(cache: Map<u128, Seq<(S, H)>>, order: Seq<u128>) -> Seq<H>
    decreases order.len(),
{
    if order.len() == 0 {
        Seq::empty()
    } else {
        handles_in_order(cache, order.drop_last()) + variant_handles(listed(cache, order.last()))
    }
}

/// No two of the variants were compiled for the same specialization.
pub open spec fn each_once<S, H>(variants: Seq<(S, H)>) -> bool {
    forall|i: int, j: int|
        0 <= i < j < variants.len() ==> (#[trigger] variants[i]).0 != (#[trigger] variants[j]).0
}

/// The cache holds at most one variant for each specialization of each source.
pub open spec fn one_variant_each<S, H>(cache: Map<u128, Seq<(S, H)>>) -> bool {
    forall|source: u128| cache.contains_key(source) ==> each_once(#[trigger] cache[source])
}

/// Every variant that `earlier` holds, `later` holds too, under the same handle.
pub open spec fn variants_kept<S, H>(
    earlier: Map<u128, Seq<(S, H)>>,
    later: Map<u128, Seq<(S, H)>>,
) -> bool {
    forall|source: u128, specialization: S|
        (#[trigger] cached_variant(earlier, source, specialization)) is Some ==> cached_variant(
            later,
            source,
            specialization,
        ) == cached_variant(earlier, source, specialization)
}

/// Nothing was evicted: every list that `earlier` holds, `later` holds too, grown at
/// its end or as it was.
pub open spec fn grown_from<V>(earlier: Map<u128, Seq<V>>, later: Map<u128, Seq<V>>) -> bool {
    forall|key: u128| #[trigger]
        earlier.contains_key(key) ==> later.contains_key(key) && earlier[key].is_prefix_of(
            later[key],
        )
}

/// Appending to a list evicts nothing.
pub proof fn lemma_appended_grown<V>(lists: Map<u128, Seq<V>>, key: u128, item: V)
    ensures
        grown_from(lists, with_appended(lists, key, item)),
{
    let after = with_appended(lists, key, item);
    assert forall|other: u128| #[trigger]
        lists.contains_key(other) implies after.contains_key(other) && lists[other].is_prefix_of(
        after[other],
    ) by {
        if other == key {
            assert(after[key] == lists[key].push(item));
            assert(lists[key] =~= after[key].subrange(0, lists[key].len() as int));
        } else {
            assert(after[other] == lists[other]);
            assert(lists[other] =~= after[other].subrange(0, lists[other].len() as int));
        }
    }
}

/// Making the lists hold a key evicts nothing.
pub proof fn lemma_with_key_grown<V>(lists: Map<u128, Seq<V>>, key: u128)
    ensures
        grown_from(lists, with_key(lists, key)),
{
    let after = with_key(lists, key);
    assert forall|other: u128| #[trigger]
        lists.contains_key(other) implies after.contains_key(other) && lists[other].is_prefix_of(
        after[other],
    ) by {
        assert(after[other] == lists[other]);
        assert(lists[other] =~= after[other].subrange(0, lists[other].len() as int));
    }
}

/// Growth is reflexive.
pub proof fn lemma_grown_reflexive<V>(lists: Map<u128, Seq<V>>)
    ensures
        grown_from(lists, lists),
{
    assert forall|key: u128| #[trigger] lists.contains_key(key) implies lists[key].is_prefix_of(
        lists[key],
    ) by {
        assert(lists[key] =~= lists[key].subrange(0, lists[key].len() as int));
    }
}

/// Growth is transitive.
pub proof fn lemma_grown_transitive<V>(
    first: Map<u128, Seq<V>>,
    second: Map<u128, Seq<V>>,
    third: Map<u128, Seq<V>>,
)
    requires
        grown_from(first, second),
        grown_from(second, third),
    ensures
        grown_from(first, third),
{
    assert forall|key: u128| #[trigger]
        first.contains_key(key) implies third.contains_key(key) && first[key].is_prefix_of(
        third[key],
    ) by {
        assert(second.contains_key(key));
        let a = first[key];
        let b = second[key];
        let c = third[key];
        assert forall|i: int| 0 <= i < a.len() implies a[i] == c[i] by {
            assert(a[i] == b.subrange(0, a.len() as int)[i]);
            assert(b[i] == c.subrange(0, b.len() as int)[i]);
        }
        assert(a =~= c.subrange(0, a.len() as int));
    }
}

/// What a scan finds once a variant has been appended: what it found before; and where
/// it found nothing for the specialization of the new variant, the new variant.
pub proof fn lemma_appended_lookup<S, H>(
    cache: Map<u128, Seq<(S, H)>>,
    source: u128,
    variant: (S, H),
    other_source: u128,
    specialization: S,
)
    ensures
        cached_variant(with_appended(cache, source, variant), other_source, specialization) == (
        if other_source != source {
            cached_variant(cache, other_source, specialization)
        } else {
            match cached_variant(cache, source, specialization) {
                Some(handle) => Some(handle),
                None => if variant.0 == specialization {
                    Some(variant.1)
                } else {
                    None
                },
            }
        }),
{
    if other_source == source {
        let before = listed(cache, source);
        lemma_first_match_push(before, variant_of::<S, H>(specialization), variant);
        lemma_first_match_sound(before, variant_of::<S, H>(specialization));
        assert(listed(with_appended(cache, source, variant), source) == before.push(variant));
    } else {
        assert(listed(with_appended(cache, source, variant), other_source) == listed(
            cache,
            other_source,
        ));
    }
}

/// What the cache holds under each source once it has been made to know one.
pub proof fn lemma_with_key_listed<S, H>(
    cache: Map<u128, Seq<(S, H)>>,
    source: u128,
    other_source: u128,
)
    ensures
        with_key(cache, source).contains_key(other_source) <==> cache.contains_key(other_source)
            || other_source == source,
        with_key(cache, source).contains_key(other_source) ==> with_key(
            cache,
            source,
        )[other_source] == listed(cache, other_source),
        listed(with_key(cache, source), other_source) == listed(cache, other_source),
{
    if !cache.contains_key(source) {
        let nothing = Seq::<(S, H)>::empty();
        let after = cache.insert(source, nothing);
        assert(with_key(cache, source) == after);
        assert(after[source] == nothing);
        if other_source != source {
            assert(after.contains_key(other_source) == cache.contains_key(other_source));
            assert(after[other_source] == cache[other_source]);
        }
    }
}

/// Making the cache know a source changes nothing that a scan finds.
pub proof fn lemma_with_key_lookup<S, H>(
    cache: Map<u128, Seq<(S, H)>>,
    source: u128,
    other_source: u128,
    specialization: S,
)
    ensures
        cached_variant(with_key(cache, source), other_source, specialization) == cached_variant(
            cache,
            other_source,
            specialization,
        ),
{
    lemma_with_key_listed(cache, source, other_source);
}

/// Appending a variant for a specialization that has none yet keeps every variant, and
/// keeps the cache at one variant for each specialization.
pub proof fn lemma_appended_keeps<S, H>(
    cache: Map<u128, Seq<(S, H)>>,
    source: u128,
    variant: (S, H),
)
    requires
        cached_variant(cache, source, variant.0) is None,
    ensures
        variants_kept(cache, with_appended(cache, source, variant)),
        one_variant_each(cache) ==> one_variant_each(with_appended(cache, source, variant)),
        cached_variant(with_appended(cache, source, variant), source, variant.0) == Some(
            variant.1,
        ),
{
    let after = with_appended(cache, source, variant);
    assert forall|other_source: u128, specialization: S|
        (#[trigger] cached_variant(cache, other_source, specialization)) is Some implies cached_variant(
        after,
        other_source,
        specialization,
    ) == cached_variant(cache, other_source, specialization) by {
        lemma_appended_lookup(cache, source, variant, other_source, specialization);
    }
    lemma_appended_lookup(cache, source, variant, source, variant.0);
    if one_variant_each(cache) {
        assert forall|other_source: u128| after.contains_key(other_source) implies each_once(
            #[trigger] after[other_source],
        ) by {
            if other_source == source {
                let before = listed(cache, source);
                let longer = after[source];
                assert(longer == before.push(variant));
                lemma_first_match_sound(before, variant_of::<S, H>(variant.0));
                if cache.contains_key(source) {
                    assert(each_once(cache[source]));
                }
                assert forall|i: int, j: int| 0 <= i < j < longer.len() implies (
                #[trigger] longer[i]).0 != (#[trigger] longer[j]).0 by {
                    if j < before.len() {
                        assert(longer[i] == before[i]);
                        assert(longer[j] == before[j]);
                    } else {
                        assert(longer[i] == before[i]);
                        assert(!variant_of::<S, H>(variant.0)(before[i]));
                    }
                }
            } else {
                assert(after[other_source] == cache[other_source]);
            }
        }
    }
}

/// Making the cache know a source keeps every variant, and keeps the cache at one
/// variant for each specialization.
pub proof fn lemma_with_key_keeps<S, H>(cache: Map<u128, Seq<(S, H)>>, source: u128)
    ensures
        variants_kept(cache, with_key(cache, source)),
        one_variant_each(cache) ==> one_variant_each(with_key(cache, source)),
{
    let after = with_key(cache, source);
    assert forall|other_source: u128, specialization: S|
        (#[trigger] cached_variant(cache, other_source, specialization)) is Some implies cached_variant(
        after,
        other_source,
        specialization,
    ) == cached_variant(cache, other_source, specialization) by {
        lemma_with_key_lookup(cache, source, other_source, specialization);
    }
    if one_variant_each(cache) {
        assert forall|other_source: u128| after.contains_key(other_source) implies each_once(
            #[trigger] after[other_source],
        ) by {
            lemma_with_key_listed(cache, source, other_source);
            if cache.contains_key(other_source) {
                assert(each_once(cache[other_source]));
            }
        }
    }
}

/// Keeping is transitive.
pub proof fn lemma_kept_transitive<S, H>(
    first: Map<u128, Seq<(S, H)>>,
    second: Map<u128, Seq<(S, H)>>,
    third: Map<u128, Seq<(S, H)>>,
)
    requires
        variants_kept(first, second),
        variants_kept(second, third),
    ensures
        variants_kept(first, third),
{
    assert forall|source: u128, specialization: S|
        (#[trigger] cached_variant(first, source, specialization)) is Some implies cached_variant(
        third,
        source,
        specialization,
    ) == cached_variant(first, source, specialization) by {
        assert(cached_variant(second, source, specialization) is Some);
    }
}

} // verus!
