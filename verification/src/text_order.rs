//! The order in which defines are listed: the order of their UTF-8 encodings, byte by
//! byte. It is strict and total, so a set of texts has one ascending listing.

use vstd::prelude::*;
use vstd::utf8::{encode_utf8, encode_utf8_decode_utf8};

verus! {

/// `a` and `b` agree up to the position `k`, and there `a` comes first: it ends while `b`
/// goes on, or it has the smaller byte.
pub open spec fn differ_at(a: Seq<u8>, b: Seq<u8>, k: int) -> bool {
    &&& 0 <= k <= a.len()
    &&& k <= b.len()
    &&& forall|i: int| 0 <= i < k ==> a[i] == b[i]
    &&& (k == a.len() && k < b.len()) || (k < a.len() && k < b.len() && a[k] < b[k])
}

/// `a` comes before `b` in the lexicographic order of byte strings.
pub open spec fn bytes_before(a: Seq<u8>, b: Seq<u8>) -> bool {
    exists|k: int| differ_at(a, b, k)
}

/// `a` comes before `b`: its UTF-8 encoding comes before that of `b`.
pub open spec fn text_before(a: Seq<char>, b: Seq<char>) -> bool {
    bytes_before(encode_utf8(a), encode_utf8(b))
}

/// Each text comes before every later one.
pub open spec fn ascending(texts: Seq<Seq<char>>) -> bool {
    forall|i: int, j: int|
        0 <= i < j < texts.len() ==> text_before(#[trigger] texts[i], #[trigger] texts[j])
}

/// The ascending listing of the texts of `set`.
pub open spec fn listing(set: Set<Seq<char>>) -> Seq<Seq<char>> {
    choose|list: Seq<Seq<char>>| ascending(list) && list.to_set() == set
}

/// How one text stands to another.
#[derive(Clone, Copy, Debug, PartialEq, Eq, Structural)]
pub enum TextOrder {
    Before,
    Same,
    After,
}

/// No byte string comes before itself.
pub proof fn lemma_bytes_irreflexive(a: Seq<u8>)
    ensures
        !bytes_before(a, a),
{
}

/// The order of byte strings is transitive.
pub proof fn lemma_bytes_transitive(a: Seq<u8>, b: Seq<u8>, c: Seq<u8>)
    requires
        bytes_before(a, b),
        bytes_before(b, c),
    ensures
        bytes_before(a, c),
{
    let first = choose|k: int| differ_at(a, b, k);
    let second = choose|k: int| differ_at(b, c, k);
    if first <= second {
        assert(differ_at(a, c, first));
    } else {
        assert(differ_at(a, c, second));
    }
}

/// Of two byte strings that agree up to the position `k` and are not equal, one comes
/// before the other.
proof fn lemma_bytes_total_from(a: Seq<u8>, b: Seq<u8>, k: int)
    requires
        a != b,
        0 <= k <= a.len(),
        k <= b.len(),
        forall|i: int| 0 <= i < k ==> a[i] == b[i],
    ensures
        bytes_before(a, b) || bytes_before(b, a),
    decreases a.len() - k,
{
    if k == a.len() || k == b.len() {
        if a.len() == b.len() {
            assert(a =~= b);
        } else if k == a.len() && k < b.len() {
            assert(differ_at(a, b, k));
        } else {
            assert(differ_at(b, a, k));
        }
    } else if a[k] < b[k] {
        assert(differ_at(a, b, k));
    } else if b[k] < a[k] {
        assert(differ_at(b, a, k));
    } else {
        lemma_bytes_total_from(a, b, k + 1);
    }
}

/// No text comes before itself.
pub proof fn lemma_text_irreflexive(a: Seq<char>)
    ensures
        !text_before(a, a),
{
    lemma_bytes_irreflexive(encode_utf8(a));
}

/// The order of texts is transitive.
pub proof fn lemma_text_transitive(a: Seq<char>, b: Seq<char>, c: Seq<char>)
    requires
        text_before(a, b),
        text_before(b, c),
    ensures
        text_before(a, c),
{
    lemma_bytes_transitive(encode_utf8(a), encode_utf8(b), encode_utf8(c));
}

/// Of two different texts one comes before the other.
pub proof fn lemma_text_total(a: Seq<char>, b: Seq<char>)
    requires
        a != b,
    ensures
        text_before(a, b) || text_before(b, a),
{
    encode_utf8_decode_utf8(a);
    encode_utf8_decode_utf8(b);
    lemma_bytes_total_from(encode_utf8(a), encode_utf8(b), 0);
}

/// Of two texts, at most one comes before the other.
pub proof fn lemma_text_asymmetric(a: Seq<char>, b: Seq<char>)
    requires
        text_before(a, b),
    ensures
        !text_before(b, a),
{
    if text_before(b, a) {
        lemma_text_transitive(a, b, a);
        lemma_text_irreflexive(a);
    }
}

/// An ascending listing names no text twice.
pub proof fn lemma_ascending_no_duplicates(texts: Seq<Seq<char>>)
    requires
        ascending(texts),
    ensures
        texts.no_duplicates(),
{
    assert forall|i: int, j: int| 0 <= i < texts.len() && 0 <= j < texts.len() && i != j implies texts[i]
        != texts[j] by {
        if i < j {
            assert(text_before(texts[i], texts[j]));
            lemma_text_irreflexive(texts[i]);
        } else {
            assert(text_before(texts[j], texts[i]));
            lemma_text_irreflexive(texts[j]);
        }
    }
}

/// A set of texts has one ascending listing: two ascending listings of the same texts
/// are the same listing.
pub proof fn lemma_ascending_listing_unique(x: Seq<Seq<char>>, y: Seq<Seq<char>>)
    requires
        ascending(x),
        ascending(y),
        x.to_set() == y.to_set(),
    ensures
        x == y,
    decreases x.len(),
{
    if x.len() == 0 {
        if y.len() > 0 {
            assert(y.to_set().contains(y[0]));
            assert(x.to_set().contains(y[0]));
        }
        assert(x =~= y);
    } else {
        assert(x.to_set().contains(x[0]));
        assert(y.to_set().contains(x[0]));
        let j = choose|j: int| 0 <= j < y.len() && y[j] == x[0];
        assert(y.to_set().contains(y[0]));
        assert(x.to_set().contains(y[0]));
        let i = choose|i: int| 0 <= i < x.len() && x[i] == y[0];
        if x[0] != y[0] {
            assert(text_before(x[0], x[i]));
            assert(text_before(y[0], y[j]));
            lemma_text_asymmetric(x[0], y[0]);
        }
        let xs = x.drop_first();
        let ys = y.drop_first();
        assert forall|a: int, b: int| 0 <= a < b < xs.len() implies text_before(
            #[trigger] xs[a],
            #[trigger] xs[b],
        ) by {
            assert(text_before(x[a + 1], x[b + 1]));
        }
        assert forall|a: int, b: int| 0 <= a < b < ys.len() implies text_before(
            #[trigger] ys[a],
            #[trigger] ys[b],
        ) by {
            assert(text_before(y[a + 1], y[b + 1]));
        }
        assert forall|text: Seq<char>| xs.to_set().contains(text) <==> ys.to_set().contains(
            text,
        ) by {
            if xs.to_set().contains(text) {
                let a = choose|a: int| 0 <= a < xs.len() && xs[a] == text;
                assert(text_before(x[0], x[a + 1]));
                assert(text != y[0]) by {
                    lemma_text_irreflexive(x[0]);
                }
                assert(x.to_set().contains(x[a + 1]));
                assert(y.to_set().contains(text));
                let b = choose|b: int| 0 <= b < y.len() && y[b] == text;
                assert(ys[b - 1] == text);
            }
            if ys.to_set().contains(text) {
                let b = choose|b: int| 0 <= b < ys.len() && ys[b] == text;
                assert(text_before(y[0], y[b + 1]));
                assert(text != x[0]) by {
                    lemma_text_irreflexive(y[0]);
                }
                assert(y.to_set().contains(y[b + 1]));
                assert(x.to_set().contains(text));
                let a = choose|a: int| 0 <= a < x.len() && x[a] == text;
                assert(xs[a - 1] == text);
            }
        }
        assert(xs.to_set() =~= ys.to_set());
        lemma_ascending_listing_unique(xs, ys);
        assert(x =~= seq![x[0]] + xs);
        assert(y =~= seq![y[0]] + ys);
    }
}

/// An ascending listing is the listing of its texts.
pub proof fn lemma_listing(list: Seq<Seq<char>>)
    requires
        ascending(list),
    ensures
        listing(list.to_set()) == list,
{
    let chosen = listing(list.to_set());
    assert(ascending(chosen) && chosen.to_set() == list.to_set());
    lemma_ascending_listing_unique(chosen, list);
}

/// How the byte string `a` stands to the byte string `b`.
pub fn bytes_order(a: &[u8], b: &[u8]) -> (order: TextOrder)
    ensures
        match order {
            TextOrder::Before => bytes_before(a@, b@),
            TextOrder::Same => a@ == b@,
            TextOrder::After => bytes_before(b@, a@),
        },
{
    let mut i: usize = 0;
    while i < a.len() && i < b.len()
        invariant
            i <= a.len(),
            i <= b.len(),
            forall|k: int| 0 <= k < i ==> a@[k] == b@[k],
        decreases a.len() - i,
    {
        if a[i] < b[i] {
            assert(differ_at(a@, b@, i as int));
            return TextOrder::Before;
        }
        if b[i] < a[i] {
            assert(differ_at(b@, a@, i as int));
            return TextOrder::After;
        }
        i += 1;
    }
    if a.len() == b.len() {
        assert(a@ =~= b@);
        TextOrder::Same
    } else if a.len() < b.len() {
        assert(differ_at(a@, b@, i as int));
        TextOrder::Before
    } else {
        assert(differ_at(b@, a@, i as int));
        TextOrder::After
    }
}

/// How the text `a` stands to the text `b`.
pub fn text_order(a: &String, b: &String) -> (order: TextOrder)
    ensures
        match order {
            TextOrder::Before => text_before(a@, b@),
            TextOrder::Same => a@ == b@,
            TextOrder::After => text_before(b@, a@),
        },
{
    let order = bytes_order(a.as_str().as_bytes(), b.as_str().as_bytes());
    proof {
        encode_utf8_decode_utf8(a@);
        encode_utf8_decode_utf8(b@);
    }
    order
}

} // verus!
