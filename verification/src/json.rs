//! What the comparison needs from `serde_json`: the value type, and the few
//! operations on it that this library calls. Nothing in this module is proved;
//! each contract states what the called function is taken to do.

use vstd::prelude::*;

verus! {

/// `serde_json::Value`, carried through as an opaque value.
#[verifier::external_type_specification]
#[verifier::external_body]
pub struct ExValue(serde_json::Value);

/// `serde_json::Error`, carried through as an opaque value.
#[verifier::external_type_specification]
#[verifier::external_body]
pub struct ExError(serde_json::Error);

/// One entry of a JSON mapping: a key and the value stored under it.
pub struct Member {
    pub key: String,
    pub value: serde_json::Value,
}

/// The entries of a mapping as pairs of a key's characters and a value.
pub open spec fn member_views(ms: Seq<Member>) -> Seq<(Seq<char>, serde_json::Value)> {
    Seq::new(ms.len(), |i: int| (ms[i].key@, ms[i].value))
}

/// The value that `serde_json::from_str` reads from a text, `None` where it
/// reports an error.
pub uninterp spec fn parsed(text: Seq<char>) -> Option<serde_json::Value>;

/// The text that `serde_json::to_string_pretty` writes for a value, `None`
/// where it reports an error.
pub uninterp spec fn pretty_text(v: serde_json::Value) -> Option<Seq<char>>;

/// The text that the value's `Display` writes: compact JSON on one line.
pub uninterp spec fn compact_text(v: serde_json::Value) -> Seq<char>;

/// The entries of a value that is a mapping, in the order in which the
/// mapping hands them out; `None` for every other value.
pub uninterp spec fn object_members(v: serde_json::Value) -> Option<
    Seq<(Seq<char>, serde_json::Value)>,
>;

/// A number that two values share exactly when `==` holds between them.
/// `Value` implements `Eq`, so `==` is an equivalence and its classes can be
/// numbered. Values with the same number need not print alike: `0.0` and
/// `-0.0` are `==`.
pub uninterp spec fn equality_class(v: serde_json::Value) -> int;

/// Whether a value is JSON null.
pub uninterp spec fn is_json_null(v: serde_json::Value) -> bool;

/// Calls `serde_json::from_str` for a `Value`. The outcome depends on the
/// text alone and is named by `parsed`.
#[verifier::external_body]
pub(crate) fn parse_text(text: &str) -> (r: Result<serde_json::Value, serde_json::Error>)
    ensures
        match r {
            Ok(v) => parsed(text@) == Some(v),
            Err(_) => parsed(text@) is None,
        },
{
    serde_json::from_str::<serde_json::Value>(text)
}

/// Calls `serde_json::to_string_pretty`. The outcome depends on the value
/// alone and is named by `pretty_text`.
#[verifier::external_body]
pub(crate) fn pretty(v: &serde_json::Value) -> (r: Result<String, serde_json::Error>)
    ensures
        match r {
            Ok(s) => pretty_text(*v) == Some(s@),
            Err(_) => pretty_text(*v) is None,
        },
{
    serde_json::to_string_pretty(v)
}

/// Calls the value's `Display` through `to_string`. The text depends on the
/// value alone and is named by `compact_text`.
#[verifier::external_body]
pub(crate) fn compact(v: &serde_json::Value) -> (r: String)
    ensures
        r@ == compact_text(*v),
{
    v.to_string()
}

/// Calls `==` of `Value`, which holds exactly between values of one
/// `equality_class`.
#[verifier::external_body]
pub(crate) fn same_value(a: &serde_json::Value, b: &serde_json::Value) -> (r: bool)
    ensures
        r == (equality_class(*a) == equality_class(*b)),
{
    a == b
}

/// Makes `Value::Null`. The variant carries no data, so there is one null
/// value and every null value is this one.
#[verifier::external_body]
pub(crate) fn null_value() -> (r: serde_json::Value)
    ensures
        is_json_null(r),
        forall|v: serde_json::Value| is_json_null(v) ==> v == r,
{
    serde_json::Value::Null
}

/// Calls `Value::as_object` and copies the entries out, in the order of the
/// mapping's `iter`. `None` where the value is no mapping.
#[verifier::external_body]
pub(crate) fn members(v: &serde_json::Value) -> (r: Option<Vec<Member>>)
    ensures
        match r {
            Some(ms) => object_members(*v) == Some(member_views(ms@)),
            None => object_members(*v) is None,
        },
{
    v.as_object().map(
        |m| m.iter().map(|(k, x)| Member { key: k.clone(), value: x.clone() }).collect(),
    )
}

/// Calls the error's `Display` through `to_string`: the parser's message with
/// the line and column. Nothing is claimed of the text.
#[verifier::external_body]
pub(crate) fn error_text(e: &serde_json::Error) -> (r: String) {
    e.to_string()
}

} // verus!
