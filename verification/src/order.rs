//! The order of mapping keys: strings by their characters' code points, the
//! shorter first where one is a prefix of the other.

use vstd::prelude::*;

verus! {

/// How one key stands to another.
#[derive(Clone, Copy, Debug, PartialEq, Eq, Structural)]
pub enum KeyOrder {
    Before,
    Same,
    After,
}

/// `a` and `b` hold the same characters at every position below `i`.
pub open spec fn agree_below(a: Seq<char>, b: Seq<char>, i: int) -> bool {
    &&& 0 <= i <= a.len()
    &&& i <= b.len()
    &&& forall|j: int| 0 <= j < i ==> a[j] == b[j]
}

/// Position `i` is where `a` falls before `b`: they agree below it, and there
/// either `a` ends while `b` goes on, or `a` holds the smaller code point.
pub open spec fn splits_at(a: Seq<char>, b: Seq<char>, i: int) -> bool {
    &&& agree_below(a, b, i)
    &&& i < b.len()
    &&& (i == a.len() || (a[i] as int) < (b[i] as int))
}

/// `a` is lexicographically smaller than `b`.
pub open spec fn key_lt(a: Seq<char>, b: Seq<char>) -> bool {
    exists|i: int| splits_at(a, b, i)
}

/// Every key is smaller than each key after it: sorted, with no key twice.
pub open spec fn ascending(keys: Seq<Seq<char>>) -> bool {
    forall|i: int, j: int| 0 <= i < j < keys.len() ==> key_lt(#[trigger] keys[i], #[trigger] keys[j])
}

/// The keys held by a vector of strings, each by its characters.
pub open spec fn key_views(keys: Seq<String>) -> Seq<Seq<char>> {
    Seq::new(keys.len(), |i: int| keys[i]@)
}

/// No key is smaller than itself.
pub proof fn lemma_lt_irreflexive(a: Seq<char>)
    ensures
        !key_lt(a, a),
{
}

/// Two keys are never each smaller than the other.
pub proof fn lemma_lt_asymmetric(a: Seq<char>, b: Seq<char>)
    requires
        key_lt(a, b),
    ensures
        !key_lt(b, a),
        a != b,
{
    let i = choose|i: int| splits_at(a, b, i);
    if key_lt(b, a) {
        let j = choose|j: int| splits_at(b, a, j);
        if i < j {
            assert(b[i] == a[i]);
        } else if j < i {
            assert(a[j] == b[j]);
        }
    }
}

/// The order is transitive.
pub proof fn lemma_lt_transitive(a: Seq<char>, b: Seq<char>, c: Seq<char>)
    requires
        key_lt(a, b),
        key_lt(b, c),
    ensures
        key_lt(a, c),
{
    let i = choose|i: int| splits_at(a, b, i);
    let j = choose|j: int| splits_at(b, c, j);
    let k = if i <= j { i } else { j };
    assert forall|p: int| 0 <= p < k implies a[p] == c[p] by {
        assert(a[p] == b[p]);
        assert(b[p] == c[p]);
    }
    if i < j {
        assert(b[i] == c[i]);
    } else if j < i {
        assert(a[j] == b[j]);
    }
    assert(splits_at(a, c, k));
}

/// Two keys that agree below `i` are the same, or one is smaller.
proof fn lemma_lt_total_from(a: Seq<char>, b: Seq<char>, i: int)
    requires
        agree_below(a, b, i),
    ensures
        key_lt(a, b) || a == b || key_lt(b, a),
    decreases a.len() - i,
{
    assert(agree_below(b, a, i));
    if i == a.len() {
        if i == b.len() {
            assert(a =~= b);
        } else {
            assert(splits_at(a, b, i));
        }
    } else if i == b.len() {
        assert(splits_at(b, a, i));
    } else if a[i] == b[i] {
        lemma_lt_total_from(a, b, i + 1);
    } else if (a[i] as int) < (b[i] as int) {
        assert(splits_at(a, b, i));
    } else {
        assert(splits_at(b, a, i));
    }
}

/// Of two different keys one is smaller than the other.
pub proof fn lemma_lt_total(a: Seq<char>, b: Seq<char>)
    ensures
        key_lt(a, b) || a == b || key_lt(b, a),
{
    lemma_lt_total_from(a, b, 0);
}

/// Compares two keys character by character.
pub fn compare_keys(a: &str, b: &str) -> (r: KeyOrder)
    ensures
        r == KeyOrder::Before <==> key_lt(a@, b@),
        r == KeyOrder::Same <==> a@ == b@,
        r == KeyOrder::After <==> key_lt(b@, a@),
{
    let n: usize = a.unicode_len();
    let m: usize = b.unicode_len();
    let mut i: usize = 0;
    while i < n && i < m
        invariant
            n == a@.len(),
            m == b@.len(),
            agree_below(a@, b@, i as int),
            agree_below(b@, a@, i as int),
        decreases n - i,
    {
        let x: char = a.get_char(i);
        let y: char = b.get_char(i);
        if x != y {
            if (x as u32) < (y as u32) {
                proof {
                    assert(splits_at(a@, b@, i as int));
                    lemma_lt_asymmetric(a@, b@);
                }
                return KeyOrder::Before;
            } else {
                proof {
                    assert(splits_at(b@, a@, i as int));
                    lemma_lt_asymmetric(b@, a@);
                }
                return KeyOrder::After;
            }
        }
        i += 1;
    }
    if n == m {
        proof {
            assert(a@ =~= b@);
            lemma_lt_irreflexive(a@);
        }
        KeyOrder::Same
    } else if n < m {
        proof {
            assert(splits_at(a@, b@, i as int));
            lemma_lt_asymmetric(a@, b@);
        }
        KeyOrder::Before
    } else {
        proof {
            assert(splits_at(b@, a@, i as int));
            lemma_lt_asymmetric(b@, a@);
        }
        KeyOrder::After
    }
}

/// Puts `key` into an ascending vector of keys at its place, unless it is
/// already there.
pub fn insert_key(keys: &mut Vec<String>, key: &str)
    requires
        ascending(key_views(old(keys)@)),
    ensures
        ascending(key_views(final(keys)@)),
        forall|k: Seq<char>|
            #[trigger] key_views(final(keys)@).contains(k) <==> (key_views(old(keys)@).contains(k)
                || k == key@),
{
    let ghost before = key_views(keys@);
    let mut i: usize = 0;
    let mut placed: bool = false;
    while !placed && i < keys.len()
        invariant
            i <= keys.len(),
            key_views(keys@) == before,
            ascending(before),
            forall|j: int| 0 <= j < i ==> key_lt(#[trigger] before[j], key@),
            placed ==> i < keys.len() && key_lt(key@, before[i as int]),
        decreases keys.len() - i + (if placed { 0int } else { 1int }),
    {
        match compare_keys(keys[i].as_str(), key) {
            KeyOrder::Before => {
                assert(before[i as int] == keys@[i as int]@);
                i += 1;
            },
            KeyOrder::Same => {
                proof {
                    assert(before[i as int] == keys@[i as int]@);
                    assert(before.contains(key@));
                }
                return;
            },
            KeyOrder::After => {
                assert(before[i as int] == keys@[i as int]@);
                placed = true;
            },
        }
    }
    let owned: String = key.to_owned();
    keys.insert(i, owned);
    proof {
        let after = key_views(keys@);
        assert(after =~= before.insert(i as int, key@));
        assert forall|p: int, q: int| 0 <= p < q < after.len() implies key_lt(
            #[trigger] after[p],
            #[trigger] after[q],
        ) by {
            if q < i {
                assert(after[p] == before[p] && after[q] == before[q]);
            } else if q == i {
                assert(after[p] == before[p]);
            } else if p == i {
                assert(after[q] == before[q - 1]);
                if q - 1 > i {
                    lemma_lt_transitive(key@, before[i as int], before[q - 1]);
                }
            } else if p < i {
                assert(after[p] == before[p] && after[q] == before[q - 1]);
            } else {
                assert(after[p] == before[p - 1] && after[q] == before[q - 1]);
            }
        }
        assert forall|k: Seq<char>| after.contains(k) <==> (before.contains(k) || k == key@) by {
            if after.contains(k) {
                let p = choose|p: int| 0 <= p < after.len() && after[p] == k;
                if p < i {
                    assert(before[p] == k);
                } else if p > i {
                    assert(before[p - 1] == k);
                }
            }
            if before.contains(k) {
                let p = choose|p: int| 0 <= p < before.len() && before[p] == k;
                if p < i {
                    assert(after[p] == k);
                } else {
                    assert(after[p + 1] == k);
                }
            }
            if k == key@ {
                assert(after[i as int] == k);
            }
        }
    }
}

/// An ascending sequence can take in any key: there is an ascending sequence
/// that holds the keys of `keys` and `key`, and no other.
pub proof fn lemma_ascending_insert(keys: Seq<Seq<char>>, key: Seq<char>) -> (r: Seq<Seq<char>>)
    requires
        ascending(keys),
    ensures
        ascending(r),
        forall|k: Seq<char>| #[trigger] r.contains(k) <==> (keys.contains(k) || k == key),
    decreases keys.len(),
{
    if keys.len() == 0 {
        let r = seq![key];
        assert(r[0] == key);
        r
    } else {
        let last = keys.last();
        lemma_lt_total(last, key);
        if last == key {
            assert(keys.contains(key));
            keys
        } else if key_lt(last, key) {
            let r = keys.push(key);
            assert(r[keys.len() as int] == key);
            assert forall|p: int, q: int| 0 <= p < q < r.len() implies key_lt(
                #[trigger] r[p],
                #[trigger] r[q],
            ) by {
                if q == keys.len() {
                    if p < keys.len() - 1 {
                        assert(key_lt(keys[p], keys[keys.len() - 1]));
                        lemma_lt_transitive(keys[p], last, key);
                    }
                } else {
                    assert(r[p] == keys[p] && r[q] == keys[q]);
                }
            }
            assert forall|k: Seq<char>| #[trigger] r.contains(k) <==> (keys.contains(k) || k
                == key) by {
                if r.contains(k) {
                    let p = choose|p: int| 0 <= p < r.len() && r[p] == k;
                    if p < keys.len() {
                        assert(keys[p] == k);
                    }
                }
                if keys.contains(k) {
                    let p = choose|p: int| 0 <= p < keys.len() && keys[p] == k;
                    assert(r[p] == k);
                }
            }
            r
        } else {
            let front = keys.drop_last();
            assert forall|p: int, q: int| 0 <= p < q < front.len() implies key_lt(
                #[trigger] front[p],
                #[trigger] front[q],
            ) by {
                assert(front[p] == keys[p] && front[q] == keys[q]);
            }
            let placed = lemma_ascending_insert(front, key);
            let r = placed.push(last);
            assert(r[placed.len() as int] == last);
            assert forall|p: int, q: int| 0 <= p < q < r.len() implies key_lt(
                #[trigger] r[p],
                #[trigger] r[q],
            ) by {
                if q == placed.len() {
                    assert(placed.contains(placed[p]));
                    if front.contains(r[p]) {
                        let c = choose|c: int| 0 <= c < front.len() && front[c] == r[p];
                        assert(key_lt(keys[c], keys[keys.len() - 1]));
                    }
                } else {
                    assert(r[p] == placed[p] && r[q] == placed[q]);
                }
            }
            assert forall|k: Seq<char>| #[trigger] r.contains(k) <==> (keys.contains(k) || k
                == key) by {
                if r.contains(k) {
                    let p = choose|p: int| 0 <= p < r.len() && r[p] == k;
                    if p < placed.len() {
                        assert(placed.contains(placed[p]));
                        if front.contains(k) {
                            let c = choose|c: int| 0 <= c < front.len() && front[c] == k;
                            assert(keys[c] == k);
                        }
                    } else {
                        assert(keys[keys.len() - 1] == k);
                    }
                }
                if keys.contains(k) {
                    let p = choose|p: int| 0 <= p < keys.len() && keys[p] == k;
                    if p < front.len() {
                        assert(front[p] == k);
                        assert(front.contains(k));
                        assert(placed.contains(k));
                        let c = choose|c: int| 0 <= c < placed.len() && placed[c] == k;
                        assert(r[c] == k);
                    }
                }
                if k == key {
                    assert(placed.contains(k));
                    let c = choose|c: int| 0 <= c < placed.len() && placed[c] == k;
                    assert(r[c] == k);
                }
            }
            r
        }
    }
}

/// An ascending sequence is fixed by the keys it holds: two ascending
/// sequences with the same keys are the same sequence.
pub proof fn lemma_ascending_unique(p: Seq<Seq<char>>, q: Seq<Seq<char>>)
    requires
        ascending(p),
        ascending(q),
        forall|k: Seq<char>| p.contains(k) <==> q.contains(k),
    ensures
        p == q,
    decreases p.len(),
{
    if p.len() == 0 {
        if q.len() > 0 {
            assert(q.contains(q[0]));
        }
        assert(p =~= q);
    } else if q.len() == 0 {
        assert(p.contains(p[0]));
    } else {
        let x = p.last();
        let y = q.last();
        assert(p.contains(x));
        assert(q.contains(y));
        let i = choose|i: int| 0 <= i < q.len() && q[i] == x;
        let j = choose|j: int| 0 <= j < p.len() && p[j] == y;
        // Each sequence ends with the largest of the shared keys.
        if x != y {
            assert(key_lt(q[i], q[q.len() - 1]));
            assert(key_lt(p[j], p[p.len() - 1]));
            lemma_lt_asymmetric(x, y);
        }
        let p_front = p.drop_last();
        let q_front = q.drop_last();
        assert forall|k: Seq<char>| p_front.contains(k) <==> q_front.contains(k) by {
            if p_front.contains(k) {
                let a = choose|a: int| 0 <= a < p_front.len() && p_front[a] == k;
                assert(p[a] == k);
                assert(key_lt(p[a], x));
                lemma_lt_asymmetric(k, x);
                assert(p.contains(k));
                let b = choose|b: int| 0 <= b < q.len() && q[b] == k;
                assert(b < q.len() - 1);
                assert(q_front[b] == k);
            }
            if q_front.contains(k) {
                let a = choose|a: int| 0 <= a < q_front.len() && q_front[a] == k;
                assert(q[a] == k);
                assert(key_lt(q[a], y));
                lemma_lt_asymmetric(k, y);
                assert(q.contains(k));
                let b = choose|b: int| 0 <= b < p.len() && p[b] == k;
                assert(b < p.len() - 1);
                assert(p_front[b] == k);
            }
        }
        assert(ascending(p_front)) by {
            assert forall|a: int, b: int| 0 <= a < b < p_front.len() implies key_lt(
                #[trigger] p_front[a],
                #[trigger] p_front[b],
            ) by {
                assert(p_front[a] == p[a] && p_front[b] == p[b]);
            }
        }
        assert(ascending(q_front)) by {
            assert forall|a: int, b: int| 0 <= a < b < q_front.len() implies key_lt(
                #[trigger] q_front[a],
                #[trigger] q_front[b],
            ) by {
                assert(q_front[a] == q[a] && q_front[b] == q[b]);
            }
        }
        lemma_ascending_unique(p_front, q_front);
        assert(p =~= p_front.push(x));
        assert(q =~= q_front.push(y));
    }
}

} // verus!
