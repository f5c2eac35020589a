//! Paths as Windows takes them apart: `\` and `/` both separate
//! components, and a path may start with a prefix (a drive such as `C:`, a
//! share such as `\\server\share`, a device such as `\\.\COM1`, or a
//! verbatim form such as `\\?\C:`). Joining puts a `\` between components.
//! A join onto a verbatim path does not rebuild it from its components.

use vstd::prelude::*;
use crate::text::{push_char, slice_text, to_owned_text};

verus! {

pub open spec fn is_windows_separator(c: char) -> bool {
    c == '/' || c == '\\'
}

/// A separator inside a verbatim path, where only `\` separates.
pub open spec fn is_separator_in(c: char, verbatim: bool) -> bool {
    if verbatim {
        c == '\\'
    } else {
        is_windows_separator(c)
    }
}

pub open spec fn is_ascii_letter(c: char) -> bool {
    ('a' <= c && c <= 'z') || ('A' <= c && c <= 'Z')
}

/// The end of the component that starts at `from`: the first separator at
/// or after `from`, or the end of the path.
pub open spec fn component_end(path: Seq<char>, from: int, verbatim: bool) -> int
    decreases path.len() - from,
{
    if from < 0 || from >= path.len() {
        path.len() as int
    } else if is_separator_in(path[from], verbatim) {
        from
    } else {
        component_end(path, from + 1, verbatim)
    }
}

pub open spec fn is_verbatim_start(path: Seq<char>) -> bool {
    path.len() >= 4 && path[0] == '\\' && path[1] == '\\' && path[2] == '?' && path[3] == '\\'
}

/// The length of the prefix a path starts with, 0 where it has none.
pub open spec fn windows_prefix_length(path: Seq<char>) -> int {
    if path.len() >= 2 && is_windows_separator(path[0]) && is_windows_separator(path[1]) {
        if is_verbatim_start(path) {
            if path.len() >= 8 && path[4] == 'U' && path[5] == 'N' && path[6] == 'C' && path[7] == '\\' {
                let server_end = component_end(path, 8, true);
                if server_end == path.len() {
                    path.len() as int
                } else {
                    component_end(path, server_end + 1, true)
                }
            } else if path.len() >= 6 && is_ascii_letter(path[4]) && path[5] == ':' && (path.len() == 6
                || path[6] == '\\') {
                6
            } else {
                component_end(path, 4, true)
            }
        } else if path.len() >= 4 && path[2] == '.' && is_windows_separator(path[3]) {
            component_end(path, 4, false)
        } else {
            let server_end = component_end(path, 2, false);
            if server_end == 2 || server_end == path.len() {
                0
            } else {
                let share_end = component_end(path, server_end + 1, false);
                if share_end == server_end + 1 {
                    0
                } else {
                    share_end
                }
            }
        }
    } else if path.len() >= 2 && is_ascii_letter(path[0]) && path[1] == ':' {
        2
    } else {
        0
    }
}

/// Whether the path is a drive prefix and nothing more, such as `C:`.
pub open spec fn is_bare_drive(path: Seq<char>) -> bool {
    path.len() == 2 && is_ascii_letter(path[0]) && path[1] == ':'
}

/// Appending a component to a path, as `PathBuf::push` does on Windows: a
/// component with a prefix replaces the path; one that starts with a
/// separator keeps only the path's prefix; otherwise a `\` is put between
/// the two unless the path is empty, ends with a separator, or is a bare
/// drive.
pub open spec fn windows_join_path(base: Seq<char>, name: Seq<char>) -> Seq<char> {
    if windows_prefix_length(name) > 0 {
        name
    } else if name.len() > 0 && is_windows_separator(name[0]) {
        base.subrange(0, windows_prefix_length(base)) + name
    } else if base.len() == 0 || is_windows_separator(base.last()) || is_bare_drive(base) {
        base + name
    } else {
        base.push('\\') + name
    }
}

proof fn lemma_component_end_bounds(path: Seq<char>, from: int, verbatim: bool)
    ensures
        0 <= from <= path.len() ==> from <= component_end(path, from, verbatim) <= path.len(),
    decreases path.len() - from,
{
    if 0 <= from < path.len() && !is_separator_in(path[from], verbatim) {
        lemma_component_end_bounds(path, from + 1, verbatim);
    }
}

pub proof fn lemma_prefix_bounds(path: Seq<char>)
    ensures
        0 <= windows_prefix_length(path) <= path.len(),
{
    lemma_component_end_bounds(path, 8, true);
    lemma_component_end_bounds(path, 4, true);
    lemma_component_end_bounds(path, 4, false);
    lemma_component_end_bounds(path, 2, false);
    let server_end = component_end(path, 8, true);
    lemma_component_end_bounds(path, server_end + 1, true);
    let unc_server_end = component_end(path, 2, false);
    lemma_component_end_bounds(path, unc_server_end + 1, false);
}

fn separates(c: char, verbatim: bool) -> (result: bool)
    ensures
        result == is_separator_in(c, verbatim),
{
    if verbatim {
        c == '\\'
    } else {
        c == '/' || c == '\\'
    }
}

fn letter(c: char) -> (result: bool)
    ensures
        result == is_ascii_letter(c),
{
    ('a' <= c && c <= 'z') || ('A' <= c && c <= 'Z')
}

fn end_of_component(path: &str, from: usize, verbatim: bool) -> (end: usize)
    requires
        from <= path@.len(),
    ensures
        end == component_end(path@, from as int, verbatim),
{
    let length = path.unicode_len();
    let mut i = from;
    while i < length && !separates(path.get_char(i), verbatim)
        invariant
            from <= i <= length == path@.len(),
            component_end(path@, i as int, verbatim) == component_end(path@, from as int, verbatim),
        decreases length - i,
    {
        i += 1;
    }
    i
}

/// The length of the prefix that `path` starts with.
pub fn prefix_length(path: &str) -> (length: usize)
    ensures
        length == windows_prefix_length(path@),
{
    proof {
        lemma_prefix_bounds(path@);
    }
    let n = path.unicode_len();
    if n >= 2 && separates(path.get_char(0), false) && separates(path.get_char(1), false) {
        if n >= 4 && path.get_char(0) == '\\' && path.get_char(1) == '\\' && path.get_char(2) == '?'
            && path.get_char(3) == '\\' {
            if n >= 8 && path.get_char(4) == 'U' && path.get_char(5) == 'N' && path.get_char(6) == 'C'
                && path.get_char(7) == '\\' {
                let server_end = end_of_component(path, 8, true);
                proof {
                    lemma_component_end_bounds(path@, 8, true);
                }
                if server_end == n {
                    n
                } else {
                    end_of_component(path, server_end + 1, true)
                }
            } else if n >= 6 && letter(path.get_char(4)) && path.get_char(5) == ':' && (n == 6
                || path.get_char(6) == '\\') {
                6
            } else {
                end_of_component(path, 4, true)
            }
        } else if n >= 4 && path.get_char(2) == '.' && separates(path.get_char(3), false) {
            end_of_component(path, 4, false)
        } else {
            let server_end = end_of_component(path, 2, false);
            proof {
                lemma_component_end_bounds(path@, 2, false);
            }
            if server_end == 2 || server_end == n {
                0
            } else {
                let share_end = end_of_component(path, server_end + 1, false);
                if share_end == server_end + 1 {
                    0
                } else {
                    share_end
                }
            }
        }
    } else if n >= 2 && letter(path.get_char(0)) && path.get_char(1) == ':' {
        2
    } else {
        0
    }
}

/// The path `base` with the component `name` appended, as on Windows.
pub fn windows_join(base: &str, name: &str) -> (joined: String)
    ensures
        joined@ == windows_join_path(base@, name@),
{
    if prefix_length(name) > 0 {
        return to_owned_text(name);
    }
    let name_length = name.unicode_len();
    if name_length > 0 && separates(name.get_char(0), false) {
        let kept = prefix_length(base);
        proof {
            lemma_prefix_bounds(base@);
        }
        let mut joined = slice_text(base, 0, kept);
        joined.append(name);
        return joined;
    }
    let base_length = base.unicode_len();
    let mut joined = to_owned_text(base);
    if base_length > 0 && !separates(base.get_char(base_length - 1), false) && !(base_length == 2
        && letter(base.get_char(0)) && base.get_char(1) == ':') {
        push_char(&mut joined, '\\');
    }
    joined.append(name);
    joined
}

} // verus!
