//! The last component of a path and the path above it, taken apart as
//! `std::path` does: separators that repeat or trail are ignored, so are
//! `.` components (but for a leading `.` of a relative path, and inside a
//! verbatim Windows path, where `.` is a component of its own), and a path
//! starts with a head that no component is taken from: its prefix (on
//! Windows), its root separator, and a leading `.`.

use vstd::prelude::*;
use crate::paths::TargetFamily;
use crate::text::slice_text;
use crate::windows_paths::{is_ascii_letter, is_separator_in, is_verbatim_start, is_windows_separator, prefix_length, windows_prefix_length};

verus! {

/// The length of the path's prefix: none on Unix.
pub open spec fn prefix_length_in(family: TargetFamily, path: Seq<char>) -> int {
    match family {
        TargetFamily::Windows => windows_prefix_length(path),
        TargetFamily::Unix => 0,
    }
}

/// Whether the path is verbatim, where only `\` separates.
pub open spec fn verbatim_in(family: TargetFamily, path: Seq<char>) -> bool {
    family == TargetFamily::Windows && is_verbatim_start(path)
}

/// Whether `c` separates components.
pub open spec fn separates_in(family: TargetFamily, verbatim: bool, c: char) -> bool {
    match family {
        TargetFamily::Windows => is_separator_in(c, verbatim),
        TargetFamily::Unix => c == '/',
    }
}

/// Whether `c` is a separator at all (the root separator is either kind).
pub open spec fn any_separator_in(family: TargetFamily, c: char) -> bool {
    match family {
        TargetFamily::Windows => is_windows_separator(c),
        TargetFamily::Unix => c == '/',
    }
}

/// Whether a separator follows the prefix.
pub open spec fn physical_root(family: TargetFamily, path: Seq<char>) -> bool {
    let p = prefix_length_in(family, path);
    p < path.len() && any_separator_in(family, path[p])
}

/// Whether the prefix is a drive such as `C:`, the one prefix with no root
/// of its own.
pub open spec fn drive_prefix(family: TargetFamily, path: Seq<char>) -> bool {
    prefix_length_in(family, path) == 2 && is_ascii_letter(path[0]) && path[1] == ':'
}

pub open spec fn has_root(family: TargetFamily, path: Seq<char>) -> bool {
    physical_root(family, path) || (prefix_length_in(family, path) > 0 && !drive_prefix(family, path))
}

/// Whether a relative path starts with a `.` component, which is kept.
pub open spec fn leading_cur_dir(family: TargetFamily, path: Seq<char>) -> bool {
    let p = prefix_length_in(family, path);
    &&& !has_root(family, path)
    &&& p < path.len()
    &&& path[p] == '.'
    &&& (p + 1 == path.len() || separates_in(family, verbatim_in(family, path), path[p + 1]))
}

/// Where the components that can be taken off begin.
pub open spec fn head_length(family: TargetFamily, path: Seq<char>) -> int {
    prefix_length_in(family, path) + (if physical_root(family, path) {
        1int
    } else {
        0
    }) + (if leading_cur_dir(family, path) {
        1int
    } else {
        0
    })
}

/// The last separator in `path[lo..end]`.
pub open spec fn last_separator_in(family: TargetFamily, verbatim: bool, path: Seq<char>, lo: int, end: int) -> Option<int>
    decreases end - lo,
{
    if end <= lo {
        None
    } else if separates_in(family, verbatim, path[end - 1]) {
        Some(end - 1)
    } else {
        last_separator_in(family, verbatim, path, lo, end - 1)
    }
}

/// The component that ends at `end`, and where the path ends once it and
/// the separator before it are taken off.
pub open spec fn component_before(family: TargetFamily, verbatim: bool, path: Seq<char>, lo: int, end: int) -> (Seq<char>, int) {
    match last_separator_in(family, verbatim, path, lo, end) {
        Some(i) => (path.subrange(i + 1, end), i),
        None => (path.subrange(lo, end), lo),
    }
}

/// A component that stands for nothing: empty, or `.` outside a verbatim path.
pub open spec fn ignored(verbatim: bool, component: Seq<char>) -> bool {
    component.len() == 0 || (!verbatim && component == seq!['.'])
}

/// Where the path ends once the ignored components before `end` are taken off.
pub open spec fn trimmed_end(family: TargetFamily, verbatim: bool, path: Seq<char>, lo: int, end: int) -> int
    decreases end - lo,
{
    if end <= lo {
        end
    } else {
        let (component, next) = component_before(family, verbatim, path, lo, end);
        if ignored(verbatim, component) && lo <= next < end {
            trimmed_end(family, verbatim, path, lo, next)
        } else {
            end
        }
    }
}

/// The parent of a path, as `Path::parent` gives it.
pub open spec fn parent_in(family: TargetFamily, path: Seq<char>) -> Option<Seq<char>> {
    let verbatim = verbatim_in(family, path);
    let head = head_length(family, path);
    let t = trimmed_end(family, verbatim, path, head, path.len() as int);
    if t > head {
        let next = component_before(family, verbatim, path, head, t).1;
        Some(path.subrange(0, trimmed_end(family, verbatim, path, head, next)))
    } else if prefix_length_in(family, path) == 0 && !physical_root(family, path) && leading_cur_dir(
        family,
        path,
    ) {
        Some(Seq::empty())
    } else {
        None
    }
}

/// The last component of a path, as `Path::file_name` gives it: `None`
/// where it is `..` or there is none.
pub open spec fn file_name_in(family: TargetFamily, path: Seq<char>) -> Option<Seq<char>> {
    let verbatim = verbatim_in(family, path);
    let head = head_length(family, path);
    let t = trimmed_end(family, verbatim, path, head, path.len() as int);
    if t > head {
        let component = component_before(family, verbatim, path, head, t).0;
        if component == seq!['.', '.'] || component == seq!['.'] {
            None
        } else {
            Some(component)
        }
    } else {
        None
    }
}

proof fn lemma_last_separator_bounds(family: TargetFamily, verbatim: bool, path: Seq<char>, lo: int, end: int)
    ensures
        match last_separator_in(family, verbatim, path, lo, end) {
            Some(i) => lo <= i < end,
            None => true,
        },
    decreases end - lo,
{
    if end > lo && !separates_in(family, verbatim, path[end - 1]) {
        lemma_last_separator_bounds(family, verbatim, path, lo, end - 1);
    }
}

proof fn lemma_trimmed_bounds(family: TargetFamily, verbatim: bool, path: Seq<char>, lo: int, end: int)
    ensures
        lo <= end ==> lo <= trimmed_end(family, verbatim, path, lo, end) <= end,
        end < lo ==> trimmed_end(family, verbatim, path, lo, end) == end,
    decreases end - lo,
{
    if end > lo {
        lemma_last_separator_bounds(family, verbatim, path, lo, end);
        let (component, next) = component_before(family, verbatim, path, lo, end);
        if ignored(verbatim, component) && lo <= next < end {
            lemma_trimmed_bounds(family, verbatim, path, lo, next);
        }
    }
}

fn separator_at(family: TargetFamily, verbatim: bool, c: char) -> (found: bool)
    ensures
        found == separates_in(family, verbatim, c),
{
    match family {
        TargetFamily::Windows => if verbatim {
            c == '\\'
        } else {
            c == '/' || c == '\\'
        },
        TargetFamily::Unix => c == '/',
    }
}

/// Where the head of a path ends, and whether the path is verbatim.
fn head_of(family: TargetFamily, path: &str) -> (shape: (usize, bool))
    ensures
        shape.0 == head_length(family, path@),
        shape.1 == verbatim_in(family, path@),
        shape.0 <= path@.len(),
{
    let length = path.unicode_len();
    let prefix = match family {
        TargetFamily::Windows => prefix_length(path),
        TargetFamily::Unix => 0,
    };
    proof {
        crate::windows_paths::lemma_prefix_bounds(path@);
    }
    let verbatim = match family {
        TargetFamily::Windows => length >= 4 && path.get_char(0) == '\\' && path.get_char(1) == '\\'
            && path.get_char(2) == '?' && path.get_char(3) == '\\',
        TargetFamily::Unix => false,
    };
    let root = prefix < length && match family {
        TargetFamily::Windows => path.get_char(prefix) == '/' || path.get_char(prefix) == '\\',
        TargetFamily::Unix => path.get_char(prefix) == '/',
    };
    let drive = prefix == 2 && length >= 2 && (('a' <= path.get_char(0) && path.get_char(0) <= 'z') || (
    'A' <= path.get_char(0) && path.get_char(0) <= 'Z')) && path.get_char(1) == ':';
    let rooted = root || (prefix > 0 && !drive);
    let cur_dir = !rooted && prefix < length && path.get_char(prefix) == '.' && (prefix + 1 == length
        || separator_at(family, verbatim, path.get_char(prefix + 1)));
    let mut head = prefix;
    if root {
        head = head + 1;
    }
    if cur_dir {
        head = head + 1;
    }
    (head, verbatim)
}

/// The start of the component that ends at `end`, and the end that is left.
fn split_before(family: TargetFamily, verbatim: bool, path: &str, lo: usize, end: usize) -> (split: (usize, usize))
    requires
        lo <= end <= path@.len(),
    ensures
        path@.subrange(split.0 as int, end as int) == component_before(family, verbatim, path@, lo as int, end as int).0,
        split.1 == component_before(family, verbatim, path@, lo as int, end as int).1,
        lo <= split.1 <= split.0 <= end,
        split.1 < end || lo == end,
{
    let mut i = end;
    while i > lo && !separator_at(family, verbatim, path.get_char(i - 1))
        invariant
            lo <= i <= end <= path@.len(),
            last_separator_in(family, verbatim, path@, lo as int, end as int) == last_separator_in(
                family,
                verbatim,
                path@,
                lo as int,
                i as int,
            ),
        decreases i,
    {
        i -= 1;
    }
    if i > lo {
        (i, i - 1)
    } else {
        (lo, lo)
    }
}

/// Whether `path[start..end]` is a component that stands for nothing.
fn is_ignored(verbatim: bool, path: &str, start: usize, end: usize) -> (result: bool)
    requires
        start <= end <= path@.len(),
    ensures
        result == ignored(verbatim, path@.subrange(start as int, end as int)),
{
    let ghost piece = path@.subrange(start as int, end as int);
    if start == end {
        assert(piece.len() == 0);
        return true;
    }
    if !verbatim && end - start == 1 && path.get_char(start) == '.' {
        assert(piece =~= seq!['.']);
        return true;
    }
    if end - start == 1 {
        assert(piece.len() == 1 && piece[0] == path@[start as int]);
    }
    false
}

/// Where the path ends once the ignored components before `end` are taken off.
fn trim_end(family: TargetFamily, verbatim: bool, path: &str, lo: usize, end: usize) -> (trimmed: usize)
    requires
        lo <= end <= path@.len(),
    ensures
        trimmed == trimmed_end(family, verbatim, path@, lo as int, end as int),
        lo <= trimmed <= end,
{
    let mut e = end;
    loop
        invariant
            lo <= e <= end <= path@.len(),
            trimmed_end(family, verbatim, path@, lo as int, end as int) == trimmed_end(
                family,
                verbatim,
                path@,
                lo as int,
                e as int,
            ),
        decreases e,
    {
        if e <= lo {
            return e;
        }
        let (start, next) = split_before(family, verbatim, path, lo, e);
        if is_ignored(verbatim, path, start, e) && next < e {
            e = next;
        } else {
            return e;
        }
    }
}

/// The parent of a path on a system of `family`.
pub fn parent_of(family: TargetFamily, path: &str) -> (directory: Option<String>)
    ensures
        match (directory, parent_in(family, path@)) {
            (Some(found), Some(expected)) => found@ == expected,
            (None, None) => true,
            _ => false,
        },
{
    let length = path.unicode_len();
    let (head, verbatim) = head_of(family, path);
    let t = trim_end(family, verbatim, path, head, length);
    if t > head {
        let (_, next) = split_before(family, verbatim, path, head, t);
        let kept = trim_end(family, verbatim, path, head, next);
        return Some(slice_text(path, 0, kept));
    }
    let prefix = match family {
        TargetFamily::Windows => prefix_length(path),
        TargetFamily::Unix => 0,
    };
    let root = prefix < length && match family {
        TargetFamily::Windows => path.get_char(prefix) == '/' || path.get_char(prefix) == '\\',
        TargetFamily::Unix => path.get_char(prefix) == '/',
    };
    if prefix == 0 && !root && head == 1 {
        proof {
            assert(leading_cur_dir(family, path@));
            assert(Seq::<char>::empty() =~= path@.subrange(0, 0));
        }
        Some(slice_text(path, 0, 0))
    } else {
        None
    }
}

/// The last component of a path on a system of `family`.
pub fn file_name_in_path(family: TargetFamily, path: &str) -> (name: Option<String>)
    ensures
        match (name, file_name_in(family, path@)) {
            (Some(found), Some(expected)) => found@ == expected,
            (None, None) => true,
            _ => false,
        },
{
    let length = path.unicode_len();
    let (head, verbatim) = head_of(family, path);
    let t = trim_end(family, verbatim, path, head, length);
    if t > head {
        let (start, _) = split_before(family, verbatim, path, head, t);
        let component = slice_text(path, start, t);
        let dots = component.unicode_len();
        let is_dots = (dots == 1 && component.as_str().get_char(0) == '.') || (dots == 2
            && component.as_str().get_char(0) == '.' && component.as_str().get_char(1) == '.');
        proof {
            if dots == 1 && component@[0] == '.' {
                assert(component@ =~= seq!['.']);
            }
            if dots == 2 && component@[0] == '.' && component@[1] == '.' {
                assert(component@ =~= seq!['.', '.']);
            }
        }
        if is_dots {
            None
        } else {
            Some(component)
        }
    } else {
        None
    }
}

/// The parent of a path is shorter than the path.
pub proof fn lemma_parent_shorter(family: TargetFamily, path: Seq<char>)
    ensures
        parent_in(family, path) matches Some(above) ==> above.len() < path.len(),
{
    let verbatim = verbatim_in(family, path);
    let head = head_length(family, path);
    crate::windows_paths::lemma_prefix_bounds(path);
    let end = path.len() as int;
    lemma_trimmed_bounds(family, verbatim, path, head, end);
    let t = trimmed_end(family, verbatim, path, head, end);
    if t > head {
        lemma_last_separator_bounds(family, verbatim, path, head, t);
        let next = component_before(family, verbatim, path, head, t).1;
        lemma_trimmed_bounds(family, verbatim, path, head, next);
    }
}

} // verus!
