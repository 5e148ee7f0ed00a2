//! First match in a sequence: the position that a linear scan stops at.

use vstd::prelude::*;

verus! {

/// `k` is the first position of `items` whose item satisfies `pred`.
pub open spec fn is_first_match<T>(items: Seq<T>, pred: spec_fn(T) -> bool, k: int) -> bool {
    &&& 0 <= k < items.len()
    &&& pred(items[k])
    &&& forall|j: int| 0 <= j < k ==> !pred(#[trigger] items[j])
}

/// No item of `items` satisfies `pred`.
pub open spec fn no_match<T>(items: Seq<T>, pred: spec_fn(T) -> bool) -> bool {
    forall|j: int| 0 <= j < items.len() ==> !pred(#[trigger] items[j])
}

/// The first position of `items` whose item satisfies `pred`, if there is one.
pub open spec fn first_match<T>(items: Seq<T>, pred: spec_fn(T) -> bool) -> Option<int> {
    if exists|k: int| is_first_match(items, pred, k) {
        Some(choose|k: int| is_first_match(items, pred, k))
    } else {
        None
    }
}

/// There is at most one first match.
pub proof fn lemma_first_match_unique<T>(items: Seq<T>, pred: spec_fn(T) -> bool, a: int, b: int)
    requires
        is_first_match(items, pred, a),
        is_first_match(items, pred, b),
    ensures
        a == b,
{
    if a < b {
        assert(!pred(items[a]));
    }
    if b < a {
        assert(!pred(items[b]));
    }
}

/// A position that is the first match is what `first_match` gives.
pub proof fn lemma_first_match_is<T>(items: Seq<T>, pred: spec_fn(T) -> bool, k: int)
    requires
        is_first_match(items, pred, k),
    ensures
        first_match(items, pred) == Some(k),
{
    let chosen = choose|c: int| is_first_match(items, pred, c);
    lemma_first_match_unique(items, pred, chosen, k);
}

/// Where nothing matches, `first_match` gives nothing.
pub proof fn lemma_first_match_none<T>(items: Seq<T>, pred: spec_fn(T) -> bool)
    requires
        no_match(items, pred),
    ensures
        first_match(items, pred) is None,
{
    if exists|k: int| is_first_match(items, pred, k) {
        let k = choose|k: int| is_first_match(items, pred, k);
        assert(!pred(items[k]));
    }
}

/// What `first_match` gives is the first match, and it gives nothing only where
/// nothing matches.
pub proof fn lemma_first_match_sound<T>(items: Seq<T>, pred: spec_fn(T) -> bool)
    ensures
        match first_match(items, pred) {
            Some(k) => is_first_match(items, pred, k),
            None => no_match(items, pred),
        },
{
    if first_match(items, pred) is None {
        if !no_match(items, pred) {
            let j = choose|j: int| 0 <= j < items.len() && pred(#[trigger] items[j]);
            lemma_some_match_has_first(items, pred, j);
        }
    }
}

/// Where some item up to position `j` matches, there is a first match.
pub proof fn lemma_some_match_has_first<T>(items: Seq<T>, pred: spec_fn(T) -> bool, j: int)
    requires
        0 <= j < items.len(),
        pred(items[j]),
    ensures
        exists|k: int| is_first_match(items, pred, k),
    decreases j,
{
    if exists|i: int| 0 <= i < j && pred(#[trigger] items[i]) {
        let i = choose|i: int| 0 <= i < j && pred(#[trigger] items[i]);
        lemma_some_match_has_first(items, pred, i);
    } else {
        assert(is_first_match(items, pred, j));
    }
}

/// Appending an item keeps the first match, and makes the new item the first match
/// where there was none and the new item matches.
pub proof fn lemma_first_match_push<T>(items: Seq<T>, pred: spec_fn(T) -> bool, item: T)
    ensures
        first_match(items.push(item), pred) == match first_match(items, pred) {
            Some(k) => Some(k),
            None => if pred(item) {
                Some(items.len() as int)
            } else {
                None
            },
        },
{
    let longer = items.push(item);
    lemma_first_match_sound(items, pred);
    match first_match(items, pred) {
        Some(k) => {
            assert(longer[k] == items[k]);
            assert forall|j: int| 0 <= j < k implies !pred(#[trigger] longer[j]) by {
                assert(longer[j] == items[j]);
            }
            lemma_first_match_is(longer, pred, k);
        },
        None => {
            assert forall|j: int| 0 <= j < items.len() implies !pred(#[trigger] longer[j]) by {
                assert(longer[j] == items[j]);
            }
            if pred(item) {
                assert(longer[items.len() as int] == item);
                lemma_first_match_is(longer, pred, items.len() as int);
            } else {
                assert(longer[items.len() as int] == item);
                lemma_first_match_none(longer, pred);
            }
        },
    }
}

} // verus!
