//! The comparison itself: key by key where both values are mappings, whole
//! value against whole value otherwise.
//!
//! Styling is one-sided on purpose. Where a pair differs, only the right line
//! is marked `Changed`; the left line keeps the style of lines that are the
//! same on both sides.

use crate::json::{
    compact, compact_text, equality_class, is_json_null, member_views, members, null_value,
    object_members, same_value, Member,
};
use crate::lines::{line_views, DiffResult, LineStyle, StyledLine};
use crate::order::{ascending, insert_key, key_views, lemma_ascending_unique};
use serde_json::Value;
use vstd::prelude::*;

verus! {

/// Some entry of `ms` has the key `key`.
pub open spec fn has_key(ms: Seq<(Seq<char>, Value)>, key: Seq<char>) -> bool {
    exists|i: int| 0 <= i < ms.len() && (#[trigger] ms[i]).0 == key
}

/// Some entry of `ms` below position `n` has the key `key`.
pub open spec fn has_key_below(ms: Seq<(Seq<char>, Value)>, key: Seq<char>, n: int) -> bool {
    exists|i: int| 0 <= i < n && i < ms.len() && (#[trigger] ms[i]).0 == key
}

/// Entry `i` is the first entry of `ms` with the key `key`.
pub open spec fn first_with_key(ms: Seq<(Seq<char>, Value)>, key: Seq<char>, i: int) -> bool {
    &&& 0 <= i < ms.len()
    &&& ms[i].0 == key
    &&& forall|j: int| 0 <= j < i ==> (#[trigger] ms[j]).0 != key
}

/// The null value.
pub open spec fn json_null() -> Value {
    choose|v: Value| is_json_null(v)
}

/// The value that `ms` holds under `key`: that of the first entry with the
/// key, `None` where no entry has it.
pub open spec fn value_at(ms: Seq<(Seq<char>, Value)>, key: Seq<char>) -> Option<Value> {
    if has_key(ms, key) {
        Some(ms[choose|i: int| first_with_key(ms, key, i)].1)
    } else {
        None
    }
}

/// The value that `ms` holds under `key`, a missing key counting as null.
pub open spec fn value_or_null(ms: Seq<(Seq<char>, Value)>, key: Seq<char>) -> Value {
    match value_at(ms, key) {
        Some(v) => v,
        None => json_null(),
    }
}

/// The keys of `ms` as a set.
pub open spec fn key_set(ms: Seq<(Seq<char>, Value)>) -> Set<Seq<char>> {
    Set::new(|k: Seq<char>| has_key(ms, k))
}

/// `ks` lists the keys of `s` in ascending order, each once.
pub open spec fn enumerates(ks: Seq<Seq<char>>, s: Set<Seq<char>>) -> bool {
    &&& ascending(ks)
    &&& forall|k: Seq<char>| ks.contains(k) <==> s.contains(k)
}

/// The keys of `s` in ascending order.
pub open spec fn sorted_keys(s: Set<Seq<char>>) -> Seq<Seq<char>> {
    choose|ks: Seq<Seq<char>>| enumerates(ks, s)
}

/// The keys that a comparison of two mappings walks: those of either one, in
/// ascending order.
pub open spec fn diff_keys(left: Seq<(Seq<char>, Value)>, right: Seq<(Seq<char>, Value)>) -> Seq<
    Seq<char>,
> {
    sorted_keys(key_set(left).union(key_set(right)))
}

/// Two values are deeply equal.
pub open spec fn same_content(a: Value, b: Value) -> bool {
    equality_class(a) == equality_class(b)
}

/// The text of a line: the key, a colon and a space, the value in compact form.
pub open spec fn line_text(key: Seq<char>, value: Value) -> Seq<char> {
    key + ": "@ + compact_text(value)
}

/// The left line for a key: the left value, never marked.
pub open spec fn left_line(key: Seq<char>, lv: Value) -> (Seq<char>, LineStyle) {
    (line_text(key, lv), LineStyle::Unchanged)
}

/// The right line for a key: a copy of the left line where the values are
/// deeply equal, else the right value, marked as changed.
pub open spec fn right_line(key: Seq<char>, lv: Value, rv: Value) -> (Seq<char>, LineStyle) {
    if same_content(lv, rv) {
        (line_text(key, lv), LineStyle::Unchanged)
    } else {
        (line_text(key, rv), LineStyle::Changed)
    }
}

/// The left column over the keys `keys`.
pub open spec fn left_column(keys: Seq<Seq<char>>, left: Seq<(Seq<char>, Value)>) -> Seq<
    (Seq<char>, LineStyle),
> {
    Seq::new(keys.len(), |i: int| left_line(keys[i], value_or_null(left, keys[i])))
}

/// The right column over the keys `keys`.
pub open spec fn right_column(
    keys: Seq<Seq<char>>,
    left: Seq<(Seq<char>, Value)>,
    right: Seq<(Seq<char>, Value)>,
) -> Seq<(Seq<char>, LineStyle)> {
    Seq::new(
        keys.len(),
        |i: int| right_line(keys[i], value_or_null(left, keys[i]), value_or_null(right, keys[i])),
    )
}

/// The comparison of two mappings, given by their entries.
pub open spec fn members_diff(left: Seq<(Seq<char>, Value)>, right: Seq<(Seq<char>, Value)>) -> (
    Seq<(Seq<char>, LineStyle)>,
    Seq<(Seq<char>, LineStyle)>,
) {
    (left_column(diff_keys(left, right), left), right_column(diff_keys(left, right), left, right))
}

/// The comparison of two values of which one is no mapping: one line pair,
/// each side's whole value in compact form, the right one marked as changed.
pub open spec fn whole_diff(left: Value, right: Value) -> (
    Seq<(Seq<char>, LineStyle)>,
    Seq<(Seq<char>, LineStyle)>,
) {
    (
        seq![(compact_text(left), LineStyle::Unchanged)],
        seq![(compact_text(right), LineStyle::Changed)],
    )
}

/// The comparison of two values.
pub open spec fn diff_of(left: Value, right: Value) -> (
    Seq<(Seq<char>, LineStyle)>,
    Seq<(Seq<char>, LineStyle)>,
) {
    match (object_members(left), object_members(right)) {
        (Some(lm), Some(rm)) => members_diff(lm, rm),
        _ => whole_diff(left, right),
    }
}

/// Looks `key` up in `ms`: the value of the first entry with that key, or
/// `None` where there is none.
pub fn value_for<'a>(ms: &'a Vec<Member>, key: &String) -> (r: Option<&'a Value>)
    ensures
        match r {
            Some(v) => value_at(member_views(ms@), key@) == Some(*v),
            None => value_at(member_views(ms@), key@) is None,
        },
{
    let ghost mv = member_views(ms@);
    let mut i: usize = 0;
    while i < ms.len()
        invariant
            i <= ms.len(),
            mv == member_views(ms@),
            forall|j: int| 0 <= j < i ==> (#[trigger] mv[j]).0 != key@,
        decreases ms.len() - i,
    {
        assert(mv[i as int] == (ms@[i as int].key@, ms@[i as int].value));
        if ms[i].key == *key {
            proof {
                assert(first_with_key(mv, key@, i as int));
                let c = choose|c: int| first_with_key(mv, key@, c);
                assert(c == i);
            }
            return Some(&ms[i].value);
        }
        i += 1;
    }
    assert(!has_key(mv, key@));
    None
}

/// Adds the keys of `ms` to an ascending vector of keys.
pub fn add_keys(keys: &mut Vec<String>, ms: &Vec<Member>)
    requires
        ascending(key_views(old(keys)@)),
    ensures
        ascending(key_views(final(keys)@)),
        forall|k: Seq<char>|
            #[trigger] key_views(final(keys)@).contains(k) <==> (key_views(old(keys)@).contains(k)
                || has_key(member_views(ms@), k)),
{
    let ghost before = key_views(keys@);
    let ghost mv = member_views(ms@);
    let mut i: usize = 0;
    while i < ms.len()
        invariant
            i <= ms.len(),
            mv == member_views(ms@),
            ascending(key_views(keys@)),
            forall|k: Seq<char>|
                #[trigger] key_views(keys@).contains(k) <==> (before.contains(k) || has_key_below(
                    mv,
                    k,
                    i as int,
                )),
        decreases ms.len() - i,
    {
        let ghost held = key_views(keys@);
        insert_key(keys, ms[i].key.as_str());
        proof {
            let key = ms@[i as int].key@;
            assert(mv[i as int].0 == key);
            assert forall|k: Seq<char>|
                #[trigger] key_views(keys@).contains(k) <==> (before.contains(k) || has_key_below(
                    mv,
                    k,
                    i + 1,
                )) by {
                assert(key_views(keys@).contains(k) <==> (held.contains(k) || k == key));
                assert(held.contains(k) <==> (before.contains(k) || has_key_below(mv, k, i as int)));
                if has_key_below(mv, k, i + 1) && !has_key_below(mv, k, i as int) {
                    let j = choose|j: int| 0 <= j < i + 1 && j < mv.len() && (#[trigger] mv[j]).0 == k;
                    assert(j == i);
                }
            }
        }
        i += 1;
    }
    proof {
        assert forall|k: Seq<char>| has_key_below(mv, k, i as int) <==> has_key(mv, k) by {
            if has_key(mv, k) {
                let j = choose|j: int| 0 <= j < mv.len() && (#[trigger] mv[j]).0 == k;
                assert(has_key_below(mv, k, i as int));
            }
        }
    }
}

/// The keys of either mapping, in ascending order, each once.
pub fn union_keys(left: &Vec<Member>, right: &Vec<Member>) -> (keys: Vec<String>)
    ensures
        enumerates(
            key_views(keys@),
            key_set(member_views(left@)).union(key_set(member_views(right@))),
        ),
        key_views(keys@) == diff_keys(member_views(left@), member_views(right@)),
{
    let mut keys: Vec<String> = Vec::new();
    assert(ascending(key_views(keys@)));
    assert(forall|k: Seq<char>| !key_views(keys@).contains(k));
    add_keys(&mut keys, left);
    let ghost first = key_views(keys@);
    assert(forall|k: Seq<char>| first.contains(k) <==> has_key(member_views(left@), k));
    add_keys(&mut keys, right);
    proof {
        let s = key_set(member_views(left@)).union(key_set(member_views(right@)));
        assert forall|k: Seq<char>| key_views(keys@).contains(k) <==> s.contains(k) by {
            assert(key_views(keys@).contains(k) <==> (first.contains(k) || has_key(
                member_views(right@),
                k,
            )));
            assert(key_set(member_views(left@)).contains(k) <==> has_key(member_views(left@), k));
            assert(key_set(member_views(right@)).contains(k) <==> has_key(
                member_views(right@),
                k,
            ));
        }
        assert(enumerates(key_views(keys@), s));
        lemma_ascending_unique(key_views(keys@), sorted_keys(s));
    }
    keys
}

/// Writes the line for a key and a value.
pub fn render_line(key: &str, value: &Value) -> (r: String)
    ensures
        r@ == line_text(key@, *value),
{
    let mut line: String = key.to_owned();
    line.append(": ");
    let text: String = compact(value);
    line.append(text.as_str());
    line
}

/// Compares two mappings, given by their entries, key by key.
pub fn diff_members(left: &Vec<Member>, right: &Vec<Member>) -> (r: DiffResult)
    ensures
        r@ == members_diff(member_views(left@), member_views(right@)),
        r.aligned(),
{
    let ghost lm = member_views(left@);
    let ghost rm = member_views(right@);
    let null: Value = null_value();
    let keys: Vec<String> = union_keys(left, right);
    let ghost kv = key_views(keys@);
    let mut out = DiffResult::empty();
    let mut i: usize = 0;
    while i < keys.len()
        invariant
            i <= keys.len(),
            kv == key_views(keys@),
            lm == member_views(left@),
            rm == member_views(right@),
            null == json_null(),
            out.left@.len() == i,
            out.right@.len() == i,
            forall|j: int| 0 <= j < i ==> (#[trigger] out.left@[j])@ == left_column(kv, lm)[j],
            forall|j: int| 0 <= j < i ==> (#[trigger] out.right@[j])@ == right_column(kv, lm, rm)[j],
        decreases keys.len() - i,
    {
        let key: &String = &keys[i];
        assert(kv[i as int] == key@);
        let lv: &Value = match value_for(left, key) {
            Some(v) => v,
            None => &null,
        };
        let rv: &Value = match value_for(right, key) {
            Some(v) => v,
            None => &null,
        };
        let left_text: String = render_line(key.as_str(), lv);
        if same_value(lv, rv) {
            let copy: String = left_text.clone();
            out.left.push(StyledLine { text: left_text, style: LineStyle::Unchanged });
            out.right.push(StyledLine { text: copy, style: LineStyle::Unchanged });
        } else {
            let right_text: String = render_line(key.as_str(), rv);
            out.left.push(StyledLine { text: left_text, style: LineStyle::Unchanged });
            out.right.push(StyledLine { text: right_text, style: LineStyle::Changed });
        }
        i += 1;
    }
    proof {
        assert(line_views(out.left@) =~= left_column(kv, lm));
        assert(line_views(out.right@) =~= right_column(kv, lm, rm));
    }
    out
}

/// Sets two whole values against each other, without looking inside them.
pub fn diff_whole(left: &Value, right: &Value) -> (r: DiffResult)
    ensures
        r@ == whole_diff(*left, *right),
        r.aligned(),
{
    let mut out = DiffResult::empty();
    out.left.push(StyledLine { text: compact(left), style: LineStyle::Unchanged });
    out.right.push(StyledLine { text: compact(right), style: LineStyle::Changed });
    proof {
        assert(line_views(out.left@) =~= whole_diff(*left, *right).0);
        assert(line_views(out.right@) =~= whole_diff(*left, *right).1);
    }
    out
}

/// Compares two JSON values. Where both are mappings: one line pair per key
/// of either, in ascending key order, a missing key counting as null. Else:
/// one line pair that holds the two whole values.
pub fn diff_json_values(left: &Value, right: &Value) -> (r: DiffResult)
    ensures
        r@ == diff_of(*left, *right),
        r.aligned(),
{
    match members(left) {
        Some(lm) => match members(right) {
            Some(rm) => diff_members(&lm, &rm),
            None => diff_whole(left, right),
        },
        None => diff_whole(left, right),
    }
}

} // verus!
