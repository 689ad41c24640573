//! Calls into `std` functions that vstd gives no specification, and into
//! `serde_json`. Each item here is trusted: its contract is not proved.

use vstd::prelude::*;

verus! {

/// What `str::to_lowercase` returns for a string: the Unicode lowercase
/// mapping (tables of the Unicode standard), applied character by
/// character with its context rules.
pub uninterp spec fn unicode_lowercase(s: Seq<char>) -> Seq<char>;

/// Calls `str::to_lowercase`. The contract only ties the result to the
/// Unicode lowercase mapping of the argument, by name.
#[verifier::external_body]
pub(crate) fn to_lowercase(s: &str) -> (r: String)
    ensures
        r@ == unicode_lowercase(s@),
{
    s.to_lowercase()
}

/// What `Path::strip_prefix` gives for `path` and `base`, rendered by
/// `to_string_lossy` (lossless for paths made from `&str`): the rest of
/// `path` after the components of `base`, or `None` when `base` is not a
/// component-wise prefix of `path`.
pub uninterp spec fn path_strip_prefix_result(path: Seq<char>, base: Seq<char>) -> Option<
    Seq<char>,
>;

/// Calls `Path::strip_prefix` on two paths given as strings.
#[verifier::external_body]
pub(crate) fn path_strip_prefix(path: &str, base: &str) -> (r: Option<String>)
    ensures
        r is Some <==> path_strip_prefix_result(path@, base@) is Some,
        r matches Some(v) ==> path_strip_prefix_result(path@, base@) == Some(v@),
{
    std::path::Path::new(path).strip_prefix(base).ok().map(|p| p.to_string_lossy().into_owned())
}

/// What `serde_json` gives for the string field `key` of the JSON
/// document `content`: `None` when `content` does not parse, when the
/// top-level value has no member `key`, or when that member is not a
/// JSON string; otherwise the member's unescaped string value.
pub uninterp spec fn json_string_member(content: Seq<char>, key: Seq<char>) -> Option<Seq<char>>;

/// Calls `serde_json::from_str::<serde_json::Value>` and reads one string
/// member of the result with `Value::get` and `Value::as_str`. The
/// contract ties the result to the parse by name only.
#[verifier::external_body]
pub(crate) fn json_string_field(content: &str, key: &str) -> (r: Option<String>)
    ensures
        r is Some <==> json_string_member(content@, key@) is Some,
        r matches Some(v) ==> json_string_member(content@, key@) == Some(v@),
{
    let value: serde_json::Value = serde_json::from_str(content).ok()?;
    value.get(key).and_then(|v| v.as_str()).map(|s| s.to_string())
}

/// What `Path::parent` gives for a path, rendered by `to_string_lossy`
/// (lossless for paths made from `&str`): the path without its last
/// component, or `None` when it ends in the root or is empty.
pub uninterp spec fn path_parent_result(path: Seq<char>) -> Option<Seq<char>>;

/// Calls `Path::parent` on a path given as a string.
#[verifier::external_body]
pub(crate) fn path_parent(path: &str) -> (r: Option<String>)
    ensures
        r is Some <==> path_parent_result(path@) is Some,
        r matches Some(v) ==> path_parent_result(path@) == Some(v@),
{
    std::path::Path::new(path).parent().map(|p| p.to_string_lossy().into_owned())
}

} // verus!
