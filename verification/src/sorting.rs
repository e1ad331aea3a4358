//! Stable sorting by an integer key or a text key (`slice::sort_by_key`).
use vstd::prelude::*;
use crate::text::{lex_lt, lex_less};

verus! {

/// `x` inserted into `sorted` right after the last element whose key is not
/// greater than `key(x)`.
pub open spec fn insert_by_key<V>(sorted: Seq<V>, x: V, key: spec_fn(V) -> u64) -> Seq<V>
    decreases sorted.len(),
{
    if sorted.len() == 0 {
        seq![x]
    } else if key(sorted.last()) <= key(x) {
        sorted.push(x)
    } else {
        insert_by_key(sorted.drop_last(), x, key).push(sorted.last())
    }
}

/// `s` sorted by ascending `key`, elements with equal keys in their original
/// order (the result of a stable sort).
pub open spec fn sort_by_key<V>(s: Seq<V>, key: spec_fn(V) -> u64) -> Seq<V>
    decreases s.len(),
{
    if s.len() == 0 {
        s
    } else {
        insert_by_key(sort_by_key(s.drop_last(), key), s.last(), key)
    }
}

/// `s` is in ascending order of `key`.
pub open spec fn sorted_by_key<V>(s: Seq<V>, key: spec_fn(V) -> u64) -> bool {
    forall|i: int, j: int| 0 <= i <= j < s.len() ==> key(#[trigger] s[i]) <= key(#[trigger] s[j])
}

proof fn lemma_insert_by_key_sorted<V>(sorted: Seq<V>, x: V, key: spec_fn(V) -> u64)
    requires
        sorted_by_key(sorted, key),
    ensures
        sorted_by_key(insert_by_key(sorted, x, key), key),
        insert_by_key(sorted, x, key).len() == sorted.len() + 1,
        insert_by_key(sorted, x, key).last() == x
            || (sorted.len() > 0 && insert_by_key(sorted, x, key).last() == sorted.last()),
        insert_by_key(sorted, x, key).to_multiset() =~= sorted.to_multiset().insert(x),
    decreases sorted.len(),
{
    broadcast use vstd::seq_lib::group_to_multiset_ensures;
    let r = insert_by_key(sorted, x, key);
    if sorted.len() == 0 {
        assert(r == Seq::<V>::empty().push(x));
    } else if key(sorted.last()) <= key(x) {
        assert forall|i: int, j: int| 0 <= i <= j < r.len() implies key(#[trigger] r[i]) <= key(#[trigger] r[j]) by {
            if j == sorted.len() {
                if i < j {
                    assert(key(sorted[i]) <= key(sorted[sorted.len() - 1]));
                }
            }
        }
    } else {
        let d = sorted.drop_last();
        assert(sorted_by_key(d, key));
        lemma_insert_by_key_sorted(d, x, key);
        let r0 = insert_by_key(d, x, key);
        assert(r == r0.push(sorted.last()));
        assert(key(r0.last()) <= key(sorted.last())) by {
            if r0.last() != x {
                assert(d.len() > 0 && r0.last() == d.last());
                assert(key(sorted[d.len() - 1]) <= key(sorted[sorted.len() - 1]));
            }
        }
        assert forall|i: int, j: int| 0 <= i <= j < r.len() implies key(#[trigger] r[i]) <= key(#[trigger] r[j]) by {
            if j == r0.len() && i < j {
                assert(key(r0[i]) <= key(r0[r0.len() - 1]));
            }
        }
        assert(sorted == d.push(sorted.last()));
        assert(sorted.to_multiset() =~= d.to_multiset().insert(sorted.last()));
    }
}

/// The stable sort by an integer key gives its input in ascending order of
/// the key, each element as often as in the input.
pub proof fn law_sort_by_key_orders<V>(s: Seq<V>, key: spec_fn(V) -> u64)
    ensures
        sorted_by_key(sort_by_key(s, key), key),
        sort_by_key(s, key).to_multiset() =~= s.to_multiset(),
    decreases s.len(),
{
    broadcast use vstd::seq_lib::group_to_multiset_ensures;
    if s.len() > 0 {
        law_sort_by_key_orders(s.drop_last(), key);
        lemma_insert_by_key_sorted(sort_by_key(s.drop_last(), key), s.last(), key);
        assert(s == s.drop_last().push(s.last()));
        assert(s.to_multiset() =~= s.drop_last().to_multiset().insert(s.last()));
    }
}

/// Inserting at position `p`, where everything before has a key not above
/// `key(x)` at `p - 1` and everything from `p` on has a greater key.
proof fn lemma_insert_at<V>(sorted: Seq<V>, x: V, key: spec_fn(V) -> u64, p: int)
    requires
        0 <= p <= sorted.len(),
        p == 0 || key(sorted[p - 1]) <= key(x),
        forall|j: int| p <= j < sorted.len() ==> key(#[trigger] sorted[j]) > key(x),
    ensures
        insert_by_key(sorted, x, key) == sorted.take(p).push(x) + sorted.skip(p),
    decreases sorted.len(),
{
    if sorted.len() == 0 {
        assert(sorted.take(p).push(x) + sorted.skip(p) =~= seq![x]);
    } else if p == sorted.len() {
        assert(sorted.take(p).push(x) + sorted.skip(p) =~= sorted.push(x));
    } else {
        let d = sorted.drop_last();
        assert forall|j: int| p <= j < d.len() implies key(#[trigger] d[j]) > key(x) by {
            assert(d[j] == sorted[j]);
        }
        assert(key(sorted.last()) > key(x));
        lemma_insert_at(d, x, key, p);
        assert(d.take(p).push(x) + d.skip(p) + seq![sorted.last()] =~= sorted.take(p).push(x)
            + sorted.skip(p));
    }
}

/// Sorts `items` stably by ascending key, where `keys[i]` is the key of
/// `items[i]` (the keys being `key` of the items' views).
pub fn stable_sort_by_key<T: View>(
    items: Vec<T>,
    keys: Vec<u64>,
    Ghost(key): Ghost<spec_fn(T::V) -> u64>,
) -> (r: Vec<T>)
    requires
        keys@.len() == items@.len(),
        forall|i: int| 0 <= i < items@.len() ==> keys@[i] == key(#[trigger] items@[i]@),
    ensures
        r@.map_values(|t: T| t@) == sort_by_key(items@.map_values(|t: T| t@), key),
{
    let ghost src = items@.map_values(|t: T| t@);
    let mut rest = items;
    let mut rest_keys = keys;
    // Elements are taken from the front; collect them reversed first.
    let mut pending: Vec<T> = Vec::new();
    let mut pending_keys: Vec<u64> = Vec::new();
    while rest.len() > 0
        invariant
            rest@.len() == rest_keys@.len(),
            pending@.len() == pending_keys@.len(),
            forall|i: int| 0 <= i < rest@.len() ==> rest_keys@[i] == key(#[trigger] rest@[i]@),
            forall|i: int| 0 <= i < pending@.len() ==> pending_keys@[i] == key(#[trigger] pending@[i]@),
            src == rest@.map_values(|t: T| t@) + pending@.reverse().map_values(|t: T| t@),
        decreases rest@.len(),
    {
        let t = rest.pop().unwrap();
        let k = rest_keys.pop().unwrap();
        pending.push(t);
        pending_keys.push(k);
        proof {
            assert(src =~= rest@.map_values(|t: T| t@) + pending@.reverse().map_values(|t: T| t@));
        }
    }
    // Now src == pending reversed; insert in original order.
    let mut sorted: Vec<T> = Vec::new();
    let mut sorted_keys: Vec<u64> = Vec::new();
    let ghost mut done: int = 0;
    proof {
        assert(src =~= pending@.reverse().map_values(|t: T| t@));
        assert(src.take(0) =~= Seq::<T::V>::empty());
    }
    while pending.len() > 0
        invariant
            pending@.len() == pending_keys@.len(),
            sorted@.len() == sorted_keys@.len(),
            forall|i: int| 0 <= i < pending@.len() ==> pending_keys@[i] == key(#[trigger] pending@[i]@),
            forall|i: int| 0 <= i < sorted@.len() ==> sorted_keys@[i] == key(#[trigger] sorted@[i]@),
            0 <= done <= src.len(),
            done + pending@.len() == src.len(),
            src.skip(done) == pending@.reverse().map_values(|t: T| t@),
            sorted@.map_values(|t: T| t@) == sort_by_key(src.take(done), key),
        decreases pending@.len(),
    {
        let x = pending.pop().unwrap();
        let kx = pending_keys.pop().unwrap();
        let ghost xv = x@;
        let ghost before = sorted@.map_values(|t: T| t@);
        proof {
            assert(src.skip(done)[0] == xv);
            assert(src.take(done + 1).drop_last() =~= src.take(done));
            assert(src.take(done + 1).last() == xv);
            assert(src.skip(done + 1) =~= src.skip(done).skip(1));
            assert(src.skip(done).skip(1) =~= pending@.reverse().map_values(|t: T| t@));
        }
        let mut p = sorted.len();
        while p > 0 && sorted_keys[p - 1] > kx
            invariant
                p <= sorted@.len(),
                sorted@.len() == sorted_keys@.len(),
                forall|i: int| 0 <= i < sorted@.len() ==> sorted_keys@[i] == key(#[trigger] sorted@[i]@),
                kx == key(xv),
                forall|j: int| p <= j < sorted@.len() ==> sorted_keys@[j] > kx,
            decreases p,
        {
            p = p - 1;
        }
        proof {
            assert forall|j: int| p <= j < before.len() implies key(#[trigger] before[j]) > key(xv) by {
                assert(before[j] == sorted@[j]@);
            }
            if p > 0 {
                assert(before[p - 1] == sorted@[p - 1]@);
            }
            lemma_insert_at(before, xv, key, p as int);
        }
        let ghost sorted_before = sorted@;
        let ghost keys_before = sorted_keys@;
        sorted.insert(p, x);
        sorted_keys.insert(p, kx);
        proof {
            done = done + 1;
            assert(sorted@.map_values(|t: T| t@) =~= before.take(p as int).push(xv) + before.skip(p as int));
            assert forall|i: int| 0 <= i < sorted@.len() implies sorted_keys@[i] == key(#[trigger] sorted@[i]@) by {
                if i < p {
                    assert(sorted@[i] == sorted_before[i]);
                    assert(sorted_keys@[i] == keys_before[i]);
                } else if i == p {
                } else {
                    assert(sorted@[i] == sorted_before[i - 1]);
                    assert(sorted_keys@[i] == keys_before[i - 1]);
                }
            }
        }
    }
    proof {
        assert(src.take(done) =~= src);
    }
    sorted
}

/// `x` inserted into `sorted` right after the last element whose key is not
/// greater than `key(x)`.
pub open spec fn insert_by_text_key<V>(sorted: Seq<V>, x: V, key: spec_fn(V) -> Seq<char>) -> Seq<V>
    decreases sorted.len(),
{
    if sorted.len() == 0 {
        seq![x]
    } else if !lex_lt(key(x), key(sorted.last())) {
        sorted.push(x)
    } else {
        insert_by_text_key(sorted.drop_last(), x, key).push(sorted.last())
    }
}

/// `s` sorted by ascending text `key` in character-code order, elements with equal keys in their original
/// order (the result of a stable sort).
pub open spec fn sort_by_text_key<V>(s: Seq<V>, key: spec_fn(V) -> Seq<char>) -> Seq<V>
    decreases s.len(),
{
    if s.len() == 0 {
        s
    } else {
        insert_by_text_key(sort_by_text_key(s.drop_last(), key), s.last(), key)
    }
}

/// Inserting at position `p`, where everything before has a key not above
/// `key(x)` at `p - 1` and everything from `p` on has a greater key.
proof fn lemma_insert_text_at<V>(sorted: Seq<V>, x: V, key: spec_fn(V) -> Seq<char>, p: int)
    requires
        0 <= p <= sorted.len(),
        p == 0 || !lex_lt(key(x), key(sorted[p - 1])),
        forall|j: int| p <= j < sorted.len() ==> lex_lt(key(x), key(#[trigger] sorted[j])),
    ensures
        insert_by_text_key(sorted, x, key) == sorted.take(p).push(x) + sorted.skip(p),
    decreases sorted.len(),
{
    if sorted.len() == 0 {
        assert(sorted.take(p).push(x) + sorted.skip(p) =~= seq![x]);
    } else if p == sorted.len() {
        assert(sorted.take(p).push(x) + sorted.skip(p) =~= sorted.push(x));
    } else {
        let d = sorted.drop_last();
        assert forall|j: int| p <= j < d.len() implies lex_lt(key(x), key(#[trigger] d[j])) by {
            assert(d[j] == sorted[j]);
        }
        assert(lex_lt(key(x), key(sorted.last())));
        lemma_insert_text_at(d, x, key, p);
        assert(d.take(p).push(x) + d.skip(p) + seq![sorted.last()] =~= sorted.take(p).push(x)
            + sorted.skip(p));
    }
}

/// Sorts `items` stably by ascending text key (character-code order), where `keys[i]` is the key of
/// `items[i]` (the keys being `key` of the items' views).
pub fn stable_sort_by_text_key<T: View>(
    items: Vec<T>,
    keys: Vec<Vec<char>>,
    Ghost(key): Ghost<spec_fn(T::V) -> Seq<char>>,
) -> (r: Vec<T>)
    requires
        keys@.len() == items@.len(),
        forall|i: int| 0 <= i < items@.len() ==> keys@[i]@ == key(#[trigger] items@[i]@),
    ensures
        r@.map_values(|t: T| t@) == sort_by_text_key(items@.map_values(|t: T| t@), key),
{
    let ghost src = items@.map_values(|t: T| t@);
    let mut rest = items;
    let mut rest_keys = keys;
    // Elements are taken from the front; collect them reversed first.
    let mut pending: Vec<T> = Vec::new();
    let mut pending_keys: Vec<Vec<char>> = Vec::new();
    while rest.len() > 0
        invariant
            rest@.len() == rest_keys@.len(),
            pending@.len() == pending_keys@.len(),
            forall|i: int| 0 <= i < rest@.len() ==> rest_keys@[i]@ == key(#[trigger] rest@[i]@),
            forall|i: int| 0 <= i < pending@.len() ==> pending_keys@[i]@ == key(#[trigger] pending@[i]@),
            src == rest@.map_values(|t: T| t@) + pending@.reverse().map_values(|t: T| t@),
        decreases rest@.len(),
    {
        let t = rest.pop().unwrap();
        let k = rest_keys.pop().unwrap();
        pending.push(t);
        pending_keys.push(k);
        proof {
            assert(src =~= rest@.map_values(|t: T| t@) + pending@.reverse().map_values(|t: T| t@));
        }
    }
    // Now src == pending reversed; insert in original order.
    let mut sorted: Vec<T> = Vec::new();
    let mut sorted_keys: Vec<Vec<char>> = Vec::new();
    let ghost mut done: int = 0;
    proof {
        assert(src =~= pending@.reverse().map_values(|t: T| t@));
        assert(src.take(0) =~= Seq::<T::V>::empty());
    }
    while pending.len() > 0
        invariant
            pending@.len() == pending_keys@.len(),
            sorted@.len() == sorted_keys@.len(),
            forall|i: int| 0 <= i < pending@.len() ==> pending_keys@[i]@ == key(#[trigger] pending@[i]@),
            forall|i: int| 0 <= i < sorted@.len() ==> sorted_keys@[i]@ == key(#[trigger] sorted@[i]@),
            0 <= done <= src.len(),
            done + pending@.len() == src.len(),
            src.skip(done) == pending@.reverse().map_values(|t: T| t@),
            sorted@.map_values(|t: T| t@) == sort_by_text_key(src.take(done), key),
        decreases pending@.len(),
    {
        let x = pending.pop().unwrap();
        let kx = pending_keys.pop().unwrap();
        let ghost xv = x@;
        let ghost before = sorted@.map_values(|t: T| t@);
        proof {
            assert(src.skip(done)[0] == xv);
            assert(src.take(done + 1).drop_last() =~= src.take(done));
            assert(src.take(done + 1).last() == xv);
            assert(src.skip(done + 1) =~= src.skip(done).skip(1));
            assert(src.skip(done).skip(1) =~= pending@.reverse().map_values(|t: T| t@));
        }
        let mut p = sorted.len();
        while p > 0 && lex_less(&kx, &sorted_keys[p - 1])
            invariant
                p <= sorted@.len(),
                sorted@.len() == sorted_keys@.len(),
                forall|i: int| 0 <= i < sorted@.len() ==> sorted_keys@[i]@ == key(#[trigger] sorted@[i]@),
                kx@ == key(xv),
                forall|j: int| p <= j < sorted@.len() ==> lex_lt(kx@, #[trigger] sorted_keys@[j]@),
            decreases p,
        {
            p = p - 1;
        }
        proof {
            assert forall|j: int| p <= j < before.len() implies lex_lt(key(xv), key(#[trigger] before[j])) by {
                assert(before[j] == sorted@[j]@);
            }
            if p > 0 {
                assert(before[p - 1] == sorted@[p - 1]@);
            }
            lemma_insert_text_at(before, xv, key, p as int);
        }
        let ghost sorted_before = sorted@;
        let ghost keys_before = sorted_keys@;
        sorted.insert(p, x);
        sorted_keys.insert(p, kx);
        proof {
            done = done + 1;
            assert(sorted@.map_values(|t: T| t@) =~= before.take(p as int).push(xv) + before.skip(p as int));
            assert forall|i: int| 0 <= i < sorted@.len() implies sorted_keys@[i]@ == key(#[trigger] sorted@[i]@) by {
                if i < p {
                    assert(sorted@[i] == sorted_before[i]);
                    assert(sorted_keys@[i] == keys_before[i]);
                } else if i == p {
                } else {
                    assert(sorted@[i] == sorted_before[i - 1]);
                    assert(sorted_keys@[i] == keys_before[i - 1]);
                }
            }
        }
    }
    proof {
        assert(src.take(done) =~= src);
    }
    sorted
}

/// Character-code order is transitive.
pub proof fn lemma_lex_lt_transitive(a: Seq<char>, b: Seq<char>, c: Seq<char>)
    requires
        lex_lt(a, b),
        lex_lt(b, c),
    ensures
        lex_lt(a, c),
    decreases a.len(),
{
    if a.len() > 0 && b.len() > 0 && c.len() > 0 && a[0] == b[0] && b[0] == c[0] {
        lemma_lex_lt_transitive(a.drop_first(), b.drop_first(), c.drop_first());
    }
}

/// Of two different texts, one comes first in character-code order.
pub proof fn lemma_lex_lt_total(a: Seq<char>, b: Seq<char>)
    requires
        a != b,
    ensures
        lex_lt(a, b) || lex_lt(b, a),
    decreases a.len(),
{
    if a.len() > 0 && b.len() > 0 && a[0] == b[0] {
        assert(a.drop_first() != b.drop_first()) by {
            if a.drop_first() == b.drop_first() {
                assert(a =~= seq![a[0]] + a.drop_first());
                assert(b =~= seq![b[0]] + b.drop_first());
            }
        }
        lemma_lex_lt_total(a.drop_first(), b.drop_first());
    } else if a.len() > 0 && b.len() > 0 {
        let (c, d) = (a[0], b[0]);
        vstd::utf8::char_u32_cast(c, c as u32);
        vstd::utf8::char_u32_cast(d, d as u32);
        assert((c as u32) != (d as u32));
    } else if a.len() == 0 && b.len() == 0 {
        assert(a =~= b);
    }
}

/// No text comes before itself.
pub proof fn lemma_lex_lt_irreflexive(a: Seq<char>)
    ensures
        !lex_lt(a, a),
    decreases a.len(),
{
    if a.len() > 0 {
        lemma_lex_lt_irreflexive(a.drop_first());
    }
}

/// "Not after" in character-code order is transitive.
proof fn lemma_lex_le_transitive(a: Seq<char>, b: Seq<char>, c: Seq<char>)
    requires
        !lex_lt(b, a),
        !lex_lt(c, b),
    ensures
        !lex_lt(c, a),
{
    if lex_lt(c, a) {
        if a == b {
        } else {
            lemma_lex_lt_total(a, b);
            lemma_lex_lt_transitive(c, a, b);
        }
    }
}

/// `s` is in ascending character-code order of `key`.
pub open spec fn sorted_by_text_key<V>(s: Seq<V>, key: spec_fn(V) -> Seq<char>) -> bool {
    forall|i: int, j: int| 0 <= i <= j < s.len() ==> !lex_lt(key(#[trigger] s[j]), key(#[trigger] s[i]))
}

proof fn lemma_insert_by_text_key_sorted<V>(sorted: Seq<V>, x: V, key: spec_fn(V) -> Seq<char>)
    requires
        sorted_by_text_key(sorted, key),
    ensures
        sorted_by_text_key(insert_by_text_key(sorted, x, key), key),
        insert_by_text_key(sorted, x, key).len() == sorted.len() + 1,
        insert_by_text_key(sorted, x, key).last() == x
            || (sorted.len() > 0 && insert_by_text_key(sorted, x, key).last() == sorted.last()),
        insert_by_text_key(sorted, x, key).to_multiset() =~= sorted.to_multiset().insert(x),
    decreases sorted.len(),
{
    broadcast use vstd::seq_lib::group_to_multiset_ensures;
    let r = insert_by_text_key(sorted, x, key);
    if sorted.len() == 0 {
        assert(r == Seq::<V>::empty().push(x));
        lemma_lex_lt_irreflexive(key(x));
    } else if !lex_lt(key(x), key(sorted.last())) {
        assert forall|i: int, j: int| 0 <= i <= j < r.len() implies !lex_lt(key(#[trigger] r[j]), key(#[trigger] r[i])) by {
            if j == sorted.len() {
                if i < j {
                    assert(!lex_lt(key(sorted[sorted.len() - 1]), key(sorted[i])));
                    lemma_lex_le_transitive(key(sorted[i]), key(sorted[sorted.len() - 1]), key(x));
                } else {
                    lemma_lex_lt_irreflexive(key(x));
                }
            }
        }
    } else {
        let d = sorted.drop_last();
        assert(sorted_by_text_key(d, key));
        lemma_insert_by_text_key_sorted(d, x, key);
        let r0 = insert_by_text_key(d, x, key);
        assert(r == r0.push(sorted.last()));
        assert(!lex_lt(key(sorted.last()), key(r0.last()))) by {
            if r0.last() != x {
                assert(d.len() > 0 && r0.last() == d.last());
                assert(!lex_lt(key(sorted[sorted.len() - 1]), key(sorted[d.len() - 1])));
            } else {
                lemma_lex_lt_irreflexive(key(x));
                if lex_lt(key(sorted.last()), key(x)) {
                    lemma_lex_lt_transitive(key(x), key(sorted.last()), key(x));
                }
            }
        }
        assert forall|i: int, j: int| 0 <= i <= j < r.len() implies !lex_lt(key(#[trigger] r[j]), key(#[trigger] r[i])) by {
            if j == r0.len() {
                if i < j {
                    assert(!lex_lt(key(r0[r0.len() - 1]), key(r0[i])));
                    lemma_lex_le_transitive(key(r0[i]), key(r0[r0.len() - 1]), key(sorted.last()));
                } else {
                    lemma_lex_lt_irreflexive(key(sorted.last()));
                }
            }
        }
        assert(sorted == d.push(sorted.last()));
        assert(sorted.to_multiset() =~= d.to_multiset().insert(sorted.last()));
    }
}

/// The stable sort by a text key gives its input in ascending character-code
/// order of the key, each element as often as in the input.
pub proof fn law_sort_by_text_key_orders<V>(s: Seq<V>, key: spec_fn(V) -> Seq<char>)
    ensures
        sorted_by_text_key(sort_by_text_key(s, key), key),
        sort_by_text_key(s, key).to_multiset() =~= s.to_multiset(),
    decreases s.len(),
{
    broadcast use vstd::seq_lib::group_to_multiset_ensures;
    if s.len() > 0 {
        law_sort_by_text_key_orders(s.drop_last(), key);
        lemma_insert_by_text_key_sorted(sort_by_text_key(s.drop_last(), key), s.last(), key);
        assert(s == s.drop_last().push(s.last()));
        assert(s.to_multiset() =~= s.drop_last().to_multiset().insert(s.last()));
    }
}

} // verus!
