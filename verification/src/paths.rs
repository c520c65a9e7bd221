//! File-system path parts, as `std::path` reads them.
//!
//! Each function here calls one `std::path` operation on text, by the rules of Unix, the
//! platform the crate is built for: components are separated by `/`, and a leading `/` is
//! the root. What `std::path` documents is stated: the file name and parent of a path whose
//! last component is a plain name, how `join` adds a component, and how a file name splits
//! into stem and extension. What a path with another kind of last component (`.`, `..`,
//! trailing separators) gives is named, not restated.

use crate::chars::rfind_char;
use std::path::Path;
use vstd::prelude::*;

verus! {

/// A normal path component: not empty, without `/`, and neither `.` nor `..`.
pub open spec fn is_plain_name(s: Seq<char>) -> bool {
    &&& s.len() > 0
    &&& forall|j: int| 0 <= j < s.len() ==> s[j] != '/'
    &&& s != seq!['.']
    &&& s != seq!['.', '.']
}

/// The text after the last `/` of `p` (all of `p` when it has none).
pub open spec fn last_component(p: Seq<char>) -> Seq<char> {
    match rfind_char(p, '/') {
        Some(i) => p.skip(i + 1),
        None => p,
    }
}

/// A directory text that ends in a normal component (or is empty): its last character is
/// neither `/` nor `.`.
pub open spec fn is_plain_dir(d: Seq<char>) -> bool {
    d.len() == 0 || (d.last() != '/' && d.last() != '.')
}

/// The text of `Path::parent` of `p` where its last component is not a plain name, or the
/// text before it does not end in a normal component.
pub uninterp spec fn std_path_parent_other(p: Seq<char>) -> Option<Seq<char>>;

/// The text of `Path::parent` of `p`: where the last component is a plain name, the text
/// before its `/` (the root `/` when that is empty), or the empty path for a relative path
/// of that one component.
pub open spec fn std_path_parent(p: Seq<char>) -> Option<Seq<char>> {
    match rfind_char(p, '/') {
        Some(i) => if is_plain_name(p.skip(i + 1)) && is_plain_dir(p.take(i)) {
            Some(if i == 0 { seq!['/'] } else { p.take(i) })
        } else {
            std_path_parent_other(p)
        },
        None => if is_plain_name(p) {
            Some(Seq::empty())
        } else {
            std_path_parent_other(p)
        },
    }
}

/// The text of `Path::file_name` of `p` where its last component is not a plain name.
pub uninterp spec fn std_path_file_name_other(p: Seq<char>) -> Option<Seq<char>>;

/// The text of `Path::file_name` of `p`: its last component, when that is a plain name.
pub open spec fn std_path_file_name(p: Seq<char>) -> Option<Seq<char>> {
    if is_plain_name(last_component(p)) {
        Some(last_component(p))
    } else {
        std_path_file_name_other(p)
    }
}

/// A file name split at its last `.` into stem and extension. A name without a `.`, or whose
/// only `.` is its first character (a hidden file such as `.bashrc`), is all stem, with no
/// extension; so is `..`. Otherwise the stem is what comes before the last `.` and the
/// extension what follows it (empty for `name.`).
pub open spec fn split_file_name(name: Seq<char>) -> (Seq<char>, Option<Seq<char>>) {
    if name == seq!['.', '.'] {
        (name, None)
    } else {
        match rfind_char(name, '.') {
            Some(pos) => if pos == 0 {
                (name, None)
            } else {
                (name.take(pos), Some(name.skip(pos + 1)))
            },
            None => (name, None),
        }
    }
}

/// The text of `Path::file_stem` of `p`: none without a file name, else the stem of the
/// file name.
pub open spec fn std_path_file_stem(p: Seq<char>) -> Option<Seq<char>> {
    match std_path_file_name(p) {
        Some(name) => Some(split_file_name(name).0),
        None => None,
    }
}

/// The text of `Path::extension` of `p`: none without a file name, else the extension of
/// the file name, if it has one.
pub open spec fn std_path_extension(p: Seq<char>) -> Option<Seq<char>> {
    match std_path_file_name(p) {
        Some(name) => split_file_name(name).1,
        None => None,
    }
}

/// The text of `Path::join` of `base` and `name`: an absolute `name` replaces `base`;
/// otherwise `name` follows `base`, after a `/` when `base` is not empty and does not end
/// in one.
pub open spec fn std_path_join(base: Seq<char>, name: Seq<char>) -> Seq<char> {
    if name.len() > 0 && name[0] == '/' {
        name
    } else if base.len() == 0 || base.last() == '/' {
        base + name
    } else {
        base + seq!['/'] + name
    }
}

/// The text of an optional string.
pub open spec fn opt_text(o: Option<String>) -> Option<Seq<char>> {
    match o {
        Some(s) => Some(s@),
        None => None,
    }
}

/// Calls `Path::parent`: the path without its last component, if it has one. The contract
/// claims what std documents: when that component is a plain name, the text before its `/`
/// (the root `/` when nothing comes before it, `""` for a relative path of one component),
/// provided that text ends in a normal component; other paths give the named result.
#[verifier::external_body]
pub fn path_parent(p: &str) -> (r: Option<String>)
    ensures
        opt_text(r) == std_path_parent(p@),
        rfind_char(p@, '/') matches Some(i) && !(is_plain_name(p@.skip(i + 1)) && is_plain_dir(
            p@.take(i),
        )) ==> opt_text(r) == std_path_parent_other(p@),
{
    match Path::new(p).parent() {
        Some(q) => Some(q.to_string_lossy().into_owned()),
        None => None,
    }
}

/// Calls `Path::file_name`: the last component, if it is a file or directory name. The
/// contract claims what std documents for a last component that is a plain name: that name;
/// other paths give the named result.
#[verifier::external_body]
pub fn path_file_name(p: &str) -> (r: Option<String>)
    ensures
        opt_text(r) == std_path_file_name(p@),
        !is_plain_name(last_component(p@)) ==> opt_text(r) == std_path_file_name_other(p@),
{
    match Path::new(p).file_name() {
        Some(q) => Some(q.to_string_lossy().into_owned()),
        None => None,
    }
}

/// Calls `Path::file_stem`: the file name without its extension. The contract claims what
/// std documents: no stem without a file name; the whole file name when it has no `.` or
/// only a leading one; otherwise the part before the last `.`.
#[verifier::external_body]
pub fn path_file_stem(p: &str) -> (r: Option<String>)
    ensures
        opt_text(r) == std_path_file_stem(p@),
{
    match Path::new(p).file_stem() {
        Some(q) => Some(q.to_string_lossy().into_owned()),
        None => None,
    }
}

/// Calls `Path::extension`: the file name's extension, without its dot. The contract claims
/// what std documents: no extension without a file name, when the file name has no `.`, or
/// when its only `.` is the leading one; otherwise the part after the last `.`.
#[verifier::external_body]
pub fn path_extension(p: &str) -> (r: Option<String>)
    ensures
        opt_text(r) == std_path_extension(p@),
{
    match Path::new(p).extension() {
        Some(q) => Some(q.to_string_lossy().into_owned()),
        None => None,
    }
}

/// Calls `Path::join`: `name` appended to `base` as a further component. The contract claims
/// what std documents for Unix: an absolute `name` replaces `base`; otherwise a `/` is put
/// between them unless `base` is empty or already ends in one.
#[verifier::external_body]
pub fn path_join(base: &str, name: &str) -> (r: String)
    ensures
        r@ == std_path_join(base@, name@),
{
    Path::new(base).join(name).to_string_lossy().into_owned()
}

} // verus!
