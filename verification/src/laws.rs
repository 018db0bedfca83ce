//! What holds of every comparison of two mappings, stated over their entries.

use crate::diff::{
    diff_keys, enumerates, first_with_key, has_key, json_null, key_set, line_text, members_diff,
    same_content, sorted_keys, value_at, value_or_null,
};
use crate::json::compact_text;
use crate::lines::LineStyle;
use crate::order::{ascending, lemma_ascending_insert};
use serde_json::Value;
use vstd::prelude::*;

verus! {

/// The keys of any list of entries can be listed in ascending order.
proof fn lemma_keys_enumerable(ms: Seq<(Seq<char>, Value)>) -> (ks: Seq<Seq<char>>)
    ensures
        enumerates(ks, key_set(ms)),
    decreases ms.len(),
{
    if ms.len() == 0 {
        let ks = Seq::<Seq<char>>::empty();
        assert(forall|k: Seq<char>| !has_key(ms, k));
        ks
    } else {
        let front = ms.drop_last();
        let key = ms.last().0;
        let fs = lemma_keys_enumerable(front);
        let ks = lemma_ascending_insert(fs, key);
        assert forall|k: Seq<char>| ks.contains(k) <==> key_set(ms).contains(k) by {
            assert(ks.contains(k) <==> (fs.contains(k) || k == key));
            assert(fs.contains(k) <==> key_set(front).contains(k));
            if has_key(front, k) {
                let i = choose|i: int| 0 <= i < front.len() && (#[trigger] front[i]).0 == k;
                assert(ms[i].0 == k);
            }
            if has_key(ms, k) {
                let i = choose|i: int| 0 <= i < ms.len() && (#[trigger] ms[i]).0 == k;
                if i < front.len() {
                    assert(front[i].0 == k);
                }
            }
            if k == key {
                assert(ms[ms.len() - 1].0 == k);
            }
        }
        ks
    }
}

/// The keys that a comparison walks are the keys of either mapping and no
/// others, each once, in ascending order.
pub proof fn law_keys_are_sorted_union(left: Seq<(Seq<char>, Value)>, right: Seq<(Seq<char>, Value)>)
    ensures
        ascending(diff_keys(left, right)),
        forall|k: Seq<char>| #[trigger]
            diff_keys(left, right).contains(k) <==> (has_key(left, k) || has_key(right, k)),
        members_diff(left, right).0.len() == diff_keys(left, right).len(),
        members_diff(left, right).1.len() == diff_keys(left, right).len(),
{
    let both = left + right;
    let ks = lemma_keys_enumerable(both);
    let s = key_set(left).union(key_set(right));
    assert forall|k: Seq<char>| key_set(both).contains(k) <==> s.contains(k) by {
        if has_key(both, k) {
            let i = choose|i: int| 0 <= i < both.len() && (#[trigger] both[i]).0 == k;
            if i < left.len() {
                assert(left[i].0 == k);
            } else {
                assert(right[i - left.len()].0 == k);
            }
        }
        if has_key(left, k) {
            let i = choose|i: int| 0 <= i < left.len() && (#[trigger] left[i]).0 == k;
            assert(both[i].0 == k);
        }
        if has_key(right, k) {
            let i = choose|i: int| 0 <= i < right.len() && (#[trigger] right[i]).0 == k;
            assert(both[i + left.len()].0 == k);
        }
    }
    assert(enumerates(ks, s));
    assert(enumerates(sorted_keys(s), s));
    assert forall|k: Seq<char>| #[trigger]
        diff_keys(left, right).contains(k) <==> (has_key(left, k) || has_key(right, k)) by {
        assert(s.contains(k) <==> (has_key(left, k) || has_key(right, k)));
    }
}

/// Comparing in the other direction walks the same keys in the same order
/// and marks the same pairs as changed. Each side's value moves to the other
/// column: where a pair differs, the two texts trade places, so that the
/// marked line shows the other mapping's value. Where a pair is the same,
/// both columns show the value of the mapping on the left, and the texts
/// trade places as far as the two values are written alike.
pub proof fn law_diff_mirrored(a: Seq<(Seq<char>, Value)>, b: Seq<(Seq<char>, Value)>)
    ensures
        diff_keys(b, a) == diff_keys(a, b),
        members_diff(a, b).0.len() == members_diff(b, a).0.len(),
        members_diff(a, b).1.len() == members_diff(b, a).1.len(),
        members_diff(a, b).0.len() == members_diff(a, b).1.len(),
        forall|i: int|
            0 <= i < diff_keys(a, b).len() ==> {
                let key = #[trigger] diff_keys(a, b)[i];
                let ab = members_diff(a, b);
                let ba = members_diff(b, a);
                let differ = !same_content(value_or_null(a, key), value_or_null(b, key));
                let alike = compact_text(value_or_null(a, key)) == compact_text(
                    value_or_null(b, key),
                );
                &&& ab.0[i] == (line_text(key, value_or_null(a, key)), LineStyle::Unchanged)
                &&& ba.0[i] == (line_text(key, value_or_null(b, key)), LineStyle::Unchanged)
                &&& ab.1[i].1 == ba.1[i].1
                &&& ab.1[i].1 == if differ {
                    LineStyle::Changed
                } else {
                    LineStyle::Unchanged
                }
                &&& differ ==> ab.1[i].0 == ba.0[i].0 && ba.1[i].0 == ab.0[i].0
                &&& !differ ==> ab.1[i] == ab.0[i] && ba.1[i] == ba.0[i]
                &&& !differ && alike ==> ab.1[i] == ba.0[i] && ba.1[i] == ab.0[i]
            },
{
    assert(key_set(a).union(key_set(b)) =~= key_set(b).union(key_set(a)));
}

/// A mapping compared with itself gives one line pair per key of the
/// mapping, in ascending key order, with both lines alike and none marked as
/// changed.
pub proof fn law_diff_with_itself(a: Seq<(Seq<char>, Value)>)
    ensures
        diff_keys(a, a) == sorted_keys(key_set(a)),
        enumerates(diff_keys(a, a), key_set(a)),
        members_diff(a, a).0 == members_diff(a, a).1,
        members_diff(a, a).0.len() == diff_keys(a, a).len(),
        forall|i: int|
            0 <= i < diff_keys(a, a).len() ==> #[trigger] members_diff(a, a).0[i] == (
                line_text(diff_keys(a, a)[i], value_or_null(a, diff_keys(a, a)[i])),
                LineStyle::Unchanged,
            ),
{
    assert(key_set(a).union(key_set(a)) =~= key_set(a));
    let ks = lemma_keys_enumerable(a);
    assert(enumerates(sorted_keys(key_set(a)), key_set(a)));
    assert(members_diff(a, a).0 =~= members_diff(a, a).1);
}

/// Where an entry at or below position `n` has the key, some entry is the
/// first with it.
proof fn lemma_first_exists(ms: Seq<(Seq<char>, Value)>, key: Seq<char>, n: int)
    requires
        0 <= n < ms.len(),
        ms[n].0 == key,
    ensures
        exists|i: int| first_with_key(ms, key, i),
    decreases n,
{
    if exists|j: int| 0 <= j < n && (#[trigger] ms[j]).0 == key {
        let j = choose|j: int| 0 <= j < n && (#[trigger] ms[j]).0 == key;
        lemma_first_exists(ms, key, j);
    } else {
        assert(first_with_key(ms, key, n));
    }
}

/// An entry added behind the others is found under its own key only where
/// no earlier entry has that key, and changes nothing under any other key.
proof fn lemma_value_at_push(ms: Seq<(Seq<char>, Value)>, key: Seq<char>, value: Value, k: Seq<char>)
    ensures
        value_at(ms.push((key, value)), k) == if has_key(ms, k) {
            value_at(ms, k)
        } else if k == key {
            Some(value)
        } else {
            None
        },
{
    let more = ms.push((key, value));
    assert(forall|j: int| 0 <= j < ms.len() ==> (#[trigger] more[j]) == ms[j]);
    assert(more[ms.len() as int] == (key, value));
    if has_key(ms, k) {
        let n = choose|n: int| 0 <= n < ms.len() && (#[trigger] ms[n]).0 == k;
        lemma_first_exists(ms, k, n);
        let i = choose|i: int| first_with_key(ms, k, i);
        assert(more[i].0 == k);
        assert(first_with_key(more, k, i));
        let c = choose|c: int| first_with_key(more, k, c);
        assert(c == i);
    } else if k == key {
        assert(first_with_key(more, k, ms.len() as int));
        let c = choose|c: int| first_with_key(more, k, c);
        assert(c == ms.len());
    } else {
        if has_key(more, k) {
            let n = choose|n: int| 0 <= n < more.len() && (#[trigger] more[n]).0 == k;
            if n < ms.len() {
                assert(ms[n].0 == k);
            }
        }
    }
}

/// A missing key counts as null. Where the left mapping has a key that the
/// right one lacks, the comparison is the same as if the right mapping held
/// null under that key; and likewise with the sides exchanged.
pub proof fn law_missing_key_is_null(
    a: Seq<(Seq<char>, Value)>,
    b: Seq<(Seq<char>, Value)>,
    key: Seq<char>,
)
    requires
        has_key(a, key),
        !has_key(b, key),
    ensures
        members_diff(a, b.push((key, json_null()))) == members_diff(a, b),
        members_diff(b.push((key, json_null())), a) == members_diff(b, a),
{
    let more = b.push((key, json_null()));
    assert forall|k: Seq<char>| value_or_null(more, k) == value_or_null(b, k) by {
        lemma_value_at_push(b, key, json_null(), k);
    }
    assert forall|k: Seq<char>| key_set(more).contains(k) <==> (key_set(b).contains(k) || k
        == key) by {
        lemma_value_at_push(b, key, json_null(), k);
    }
    assert(key_set(a).union(key_set(more)) =~= key_set(a).union(key_set(b)));
    assert(key_set(more).union(key_set(a)) =~= key_set(b).union(key_set(a)));
    assert(members_diff(a, more).0 =~= members_diff(a, b).0);
    assert(members_diff(a, more).1 =~= members_diff(a, b).1);
    assert(members_diff(more, a).0 =~= members_diff(b, a).0);
    assert(members_diff(more, a).1 =~= members_diff(b, a).1);
}

} // verus!
