//! Reading a package version out of a manifest.

use vstd::prelude::*;
use crate::sys::{json_string_field, json_string_member};
use crate::text::{
    chars_of, eq, lines, lines_of, starts_with_of, ends_with_of, strip_prefix, strip_prefix_of,
    strip_suffix, strip_suffix_of, string_of, trim, trim_of, trim_set, trim_set_of, trim_start,
    trim_start_of, trim_start_set, trim_start_set_of, views, starts_with, ends_with,
};

verus! {

/// The section a TOML line opens, or `section` unchanged when the line
/// is no `[...]` header.
pub open spec fn section_after(section: Seq<char>, line: Seq<char>) -> Seq<char> {
    let t = trim(line);
    if starts_with(t, seq!['[']) && ends_with(t, seq![']']) {
        trim(trim_set(t, seq!['[', ']']))
    } else {
        section
    }
}

/// The quoted value of a `version = "..."` line (an optional `;` after
/// the closing quote is allowed).
pub open spec fn quoted_version(t: Seq<char>) -> Option<Seq<char>> {
    match strip_prefix(t, "version"@) {
        Some(rest) => {
            let r1 = trim(trim_start_set(trim_start(rest), seq!['=']));
            let r2 = match strip_suffix(r1, seq![';']) {
                Some(x) => x,
                None => r1,
            };
            match strip_prefix(r2, seq!['"']) {
                Some(a) => strip_suffix(a, seq!['"']),
                None => None,
            }
        },
        None => None,
    }
}

pub open spec fn is_version_section(section: Seq<char>) -> bool {
    section == "package"@ || section == "workspace.package"@
}

/// The first version found in `ls`, reading them with `section` as the
/// current section.
pub open spec fn version_from_lines(ls: Seq<Seq<char>>, section: Seq<char>) -> Option<Seq<char>>
    decreases ls.len(),
{
    if ls.len() == 0 {
        None
    } else {
        let sec = section_after(section, ls[0]);
        let found = if is_version_section(sec) {
            quoted_version(trim(ls[0]))
        } else {
            None
        };
        match found {
            Some(v) => Some(v),
            None => version_from_lines(ls.drop_first(), sec),
        }
    }
}

/// The version a Cargo manifest declares in `[package]` or
/// `[workspace.package]`.
pub open spec fn cargo_version(content: Seq<char>) -> Option<Seq<char>> {
    version_from_lines(lines(content), Seq::empty())
}

fn single(c: char) -> (v: Vec<char>)
    ensures
        v@ == seq![c],
{
    let mut v: Vec<char> = Vec::new();
    v.push(c);
    assert(v@ =~= seq![c]);
    v
}

fn quoted_version_of(t: &[char]) -> (r: Option<Vec<char>>)
    ensures
        r is Some <==> quoted_version(t@) is Some,
        r matches Some(v) ==> quoted_version(t@) == Some(v@),
{
    let key = chars_of("version");
    match strip_prefix_of(t, &key) {
        None => None,
        Some(rest) => {
            let a = trim_start_of(&rest);
            let b = trim_start_set_of(&a, &single('='));
            let r1 = trim_of(&b);
            let r2 = match strip_suffix_of(&r1, &single(';')) {
                Some(x) => x,
                None => r1,
            };
            match strip_prefix_of(&r2, &single('"')) {
                Some(x) => strip_suffix_of(&x, &single('"')),
                None => None,
            }
        },
    }
}

/// The version string of a Cargo manifest: the value of the first
/// `version = "..."` line inside `[package]` or `[workspace.package]`.
pub fn extract_version_from_cargo(content: &str) -> (r: Option<String>)
    ensures
        r is Some <==> cargo_version(content@) is Some,
        r matches Some(v) ==> cargo_version(content@) == Some(v@),
{
    let text = chars_of(content);
    let ls = lines_of(&text);
    let package = chars_of("package");
    let workspace_package = chars_of("workspace.package");
    let mut brackets: Vec<char> = Vec::new();
    brackets.push('[');
    brackets.push(']');
    assert(brackets@ =~= seq!['[', ']']);
    let mut section: Vec<char> = Vec::new();
    let mut i: usize = 0;
    assert(views(ls@).skip(0) =~= views(ls@));
    while i < ls.len()
        invariant
            i <= ls@.len(),
            package@ == "package"@,
            workspace_package@ == "workspace.package"@,
            brackets@ == seq!['[', ']'],
            cargo_version(content@) == version_from_lines(views(ls@), Seq::empty()),
            version_from_lines(views(ls@), Seq::empty()) == version_from_lines(
                views(ls@).skip(i as int),
                section@,
            ),
        decreases ls@.len() - i,
    {
        let ghost rest = views(ls@).skip(i as int);
        assert(rest[0] == ls@[i as int]@);
        assert(rest.drop_first() =~= views(ls@).skip(i + 1));
        let t = trim_of(&ls[i]);
        if starts_with_of(&t, &single('[')) && ends_with_of(&t, &single(']')) {
            let inner = trim_set_of(&t, &brackets);
            section = trim_of(&inner);
        }
        if eq(&section, &package) || eq(&section, &workspace_package) {
            if let Some(v) = quoted_version_of(&t) {
                return Some(string_of(&v));
            }
        }
        i = i + 1;
    }
    None
}

/// The string member `key` of a JSON document, e.g. the `version` of a
/// `package.json`.
pub fn extract_version_from_json(content: &str, key: &str) -> (r: Option<String>)
    ensures
        r is Some <==> json_string_member(content@, key@) is Some,
        r matches Some(v) ==> json_string_member(content@, key@) == Some(v@),
{
    json_string_field(content, key)
}

} // verus!
