//! The folder browser the pages open: where a requested path leads, the
//! folders listed there in name order, and the places offered as shortcuts.

use vstd::prelude::*;
use crate::json::{Json, Value, json_of_entries, json_of_items, lemma_json_of_items, push_member, text};
use crate::paths::{TargetFamily, join_on, join_path_on, opt_view, parent_on, parent_path_on};
use crate::path_components::{file_name_in, file_name_in_path, lemma_parent_shorter, parent_in};
use crate::text::{blank, is_blank, push_char, to_owned_text};
use crate::text_set::{TextOrder, compare_texts, precedes};

verus! {

/// What `str::to_lowercase` gives for a text.
pub uninterp spec fn lowercase(text: Seq<char>) -> Seq<char>;

/// `str::to_lowercase`: the text in lower case, by Unicode's case mapping.
/// Its result is named, not stated.
#[verifier::external_body]
fn lowercase_text(text: &str) -> (lowered: String)
    ensures
        lowered@ == lowercase(text@),
{
    text.to_lowercase()
}

/// The last component of a path, as `Path::file_name` gives it on Unix.
pub open spec fn file_name(path: Seq<char>) -> Option<Seq<char>> {
    file_name_in(TargetFamily::Unix, path)
}

/// The last component of a path, as a system of `family` takes it.
pub open spec fn file_name_on(family: TargetFamily, path: Seq<char>) -> Option<Seq<char>> {
    file_name_in(family, path)
}

/// The last component of a path, on a system of `family`.
pub fn file_name_of(family: TargetFamily, path: &str) -> (name: Option<String>)
    ensures
        opt_view(name) == file_name_on(family, path@),
{
    file_name_in_path(family, path)
}

/// One step up from a path that is not a folder: the name left behind and
/// the path above, where both exist.
pub open spec fn spec_walk_up(family: TargetFamily, path: Seq<char>) -> Option<(Seq<char>, Seq<char>)> {
    match (file_name_on(family, path), parent_path_on(family, path)) {
        (Some(name), Some(above)) => Some((name, above)),
        _ => None,
    }
}

pub open spec fn opt_pair_view(value: Option<(String, String)>) -> Option<(Seq<char>, Seq<char>)> {
    match value {
        Some((a, b)) => Some((a@, b@)),
        None => None,
    }
}

/// One step up from a path that is not a folder, on a system of `family`.
pub fn walk_up(family: TargetFamily, path: &str) -> (step: Option<(String, String)>)
    ensures
        opt_pair_view(step) == spec_walk_up(family, path@),
{
    match (file_name_of(family, path), parent_on(family, path)) {
        (Some(name), Some(above)) => Some((name, above)),
        _ => None,
    }
}

pub open spec fn texts_of(items: Seq<String>) -> Seq<Seq<char>> {
    items.map_values(|t: String| t@)
}

/// The names left behind on the way up, from the top down.
pub fn pending_segments(collected: Vec<String>) -> (segments: Vec<String>)
    ensures
        texts_of(segments@) == texts_of(collected@).reverse(),
{
    let mut segments: Vec<String> = Vec::new();
    let mut rest = collected;
    let ghost original = texts_of(rest@);
    while rest.len() > 0
        invariant
            texts_of(rest@) == original.subrange(0, rest@.len() as int),
            segments@.len() + rest@.len() == original.len(),
            forall|k: int| 0 <= k < segments@.len() ==> #[trigger] segments@[k]@ == original[original.len() - 1 - k],
        decreases rest@.len(),
    {
        let ghost before = rest@;
        let item = rest.pop().unwrap();
        assert(texts_of(rest@) =~= original.subrange(0, rest@.len() as int)) by {
            assert(rest@ =~= before.drop_last());
        }
        assert(item@ == original[rest@.len() as int]) by {
            assert(texts_of(before)[before.len() - 1] == item@);
        }
        segments.push(item);
    }
    assert(texts_of(segments@) =~= original.reverse());
    segments
}

/// A folder in a listing: its name and its path.
pub struct FolderEntry {
    pub name: String,
    pub path: String,
}

pub open spec fn entry_view(entry: FolderEntry) -> (Seq<char>, Seq<char>) {
    (entry.name@, entry.path@)
}

pub open spec fn entries_view(entries: Seq<FolderEntry>) -> Seq<(Seq<char>, Seq<char>)> {
    entries.map_values(|e: FolderEntry| entry_view(e))
}

/// Puts `entry` after every entry whose lower-case name does not come after
/// its own.
pub open spec fn insert_by_name(sorted: Seq<(Seq<char>, Seq<char>)>, entry: (Seq<char>, Seq<char>)) -> Seq<(Seq<char>, Seq<char>)>
    decreases sorted.len(),
{
    if sorted.len() == 0 {
        seq![entry]
    } else if !precedes(lowercase(entry.0), lowercase(sorted.last().0)) {
        sorted.push(entry)
    } else {
        insert_by_name(sorted.drop_last(), entry).push(sorted.last())
    }
}

/// The entries in the order of their lower-case names, equal ones in their
/// first order (a stable sort by `to_lowercase`).
pub open spec fn sort_by_name(entries: Seq<(Seq<char>, Seq<char>)>) -> Seq<(Seq<char>, Seq<char>)>
    decreases entries.len(),
{
    if entries.len() == 0 {
        Seq::empty()
    } else {
        insert_by_name(sort_by_name(entries.drop_last()), entries.last())
    }
}

proof fn lemma_insert_by_name(sorted: Seq<(Seq<char>, Seq<char>)>, entry: (Seq<char>, Seq<char>), at: int)
    requires
        0 <= at <= sorted.len(),
        forall|k: int| at <= k < sorted.len() ==> precedes(lowercase(entry.0), lowercase(#[trigger] sorted[k].0)),
        at == 0 || !precedes(lowercase(entry.0), lowercase(sorted[at - 1].0)),
    ensures
        insert_by_name(sorted, entry) == sorted.take(at) + seq![entry] + sorted.skip(at),
    decreases sorted.len(),
{
    if sorted.len() == 0 {
        assert(sorted.take(at) + seq![entry] + sorted.skip(at) =~= seq![entry]);
    } else if at == sorted.len() {
        assert(sorted.take(at) + seq![entry] + sorted.skip(at) =~= sorted.push(entry));
    } else {
        let shorter = sorted.drop_last();
        assert(precedes(lowercase(entry.0), lowercase(sorted[sorted.len() - 1].0)));
        assert forall|k: int| at <= k < shorter.len() implies precedes(lowercase(entry.0), lowercase(#[trigger] shorter[k].0)) by {
            assert(shorter[k] == sorted[k]);
        }
        lemma_insert_by_name(shorter, entry, at);
        assert(sorted.take(at) + seq![entry] + sorted.skip(at) =~= (shorter.take(at) + seq![entry]
            + shorter.skip(at)).push(sorted.last()));
    }
}

/// Sorts folders by their lower-case names, keeping the order of equal ones.
pub fn sort_entries(entries: Vec<FolderEntry>) -> (sorted: Vec<FolderEntry>)
    ensures
        entries_view(sorted@) == sort_by_name(entries_view(entries@)),
{
    let ghost original = entries_view(entries@);
    let ghost originals = entries@;
    let ghost total: int = entries@.len() as int;
    let mut sorted: Vec<FolderEntry> = Vec::new();
    let mut keys: Vec<String> = Vec::new();
    let mut remaining = entries;
    while remaining.len() > 0
        invariant
            total == originals.len(),
            remaining@.len() <= total,
            original == entries_view(originals),
            remaining@ == originals.skip(total - remaining@.len()),
            entries_view(sorted@) == sort_by_name(original.take(total - remaining@.len())),
            keys@.len() == sorted@.len(),
            forall|k: int| 0 <= k < keys@.len() ==> #[trigger] keys@[k]@ == lowercase(sorted@[k].name@),
        decreases remaining@.len(),
    {
        let ghost done = total - remaining@.len();
        let entry = remaining.remove(0);
        assert(entry == originals[done]);
        assert(remaining@ =~= originals.skip(done + 1));
        let ghost entry_view_now = entry_view(entry);
        let key = lowercase_text(entry.name.as_str());
        let mut at = sorted.len();
        while at > 0 && compare_texts(key.as_str(), keys[at - 1].as_str()) == TextOrder::Before
            invariant
                at <= sorted@.len(),
                keys@.len() == sorted@.len(),
                forall|k: int| 0 <= k < keys@.len() ==> #[trigger] keys@[k]@ == lowercase(sorted@[k].name@),
                forall|k: int| at <= k < sorted@.len() ==> precedes(key@, lowercase(#[trigger] sorted@[k].name@)),
            decreases at,
        {
            assert(keys@[at - 1]@ == lowercase(sorted@[at - 1].name@));
            at -= 1;
        }
        let ghost before = entries_view(sorted@);
        proof {
            assert forall|k: int| at <= k < before.len() implies precedes(lowercase(entry_view_now.0), lowercase(#[trigger] before[k].0)) by {
                assert(before[k] == entry_view(sorted@[k]));
            }
            if at > 0 {
                assert(before[at - 1] == entry_view(sorted@[at - 1]));
                assert(keys@[at - 1]@ == lowercase(sorted@[at - 1].name@));
            }
            lemma_insert_by_name(before, entry_view_now, at as int);
            assert(original.take(done + 1).drop_last() =~= original.take(done));
        }
        let ghost keys_before = keys@;
        let ghost sorted_before = sorted@;
        sorted.insert(at, entry);
        keys.insert(at, key);
        assert(entries_view(sorted@) =~= before.take(at as int) + seq![entry_view_now] + before.skip(at as int));
        assert forall|k: int| 0 <= k < keys@.len() implies #[trigger] keys@[k]@ == lowercase(sorted@[k].name@) by {
            if k < at {
                assert(keys@[k] == keys_before[k]);
                assert(sorted@[k] == sorted_before[k]);
            } else if k > at {
                assert(keys@[k] == keys_before[k - 1]);
                assert(sorted@[k] == sorted_before[k - 1]);
            }
        }
    }
    assert(original.take(total) =~= original);
    sorted
}

pub open spec fn named_json(entry: (Seq<char>, Seq<char>)) -> Json {
    Json::Object(seq![("name"@, Json::Text(entry.0)), ("path"@, Json::Text(entry.1))])
}

pub open spec fn path_json(path: Seq<char>) -> Json {
    Json::Object(seq![("path"@, Json::Text(path))])
}

fn named_value(entry: FolderEntry) -> (value: Value)
    ensures
        value@ == named_json(entry_view(entry)),
{
    let ghost view = entry_view(entry);
    let mut members: Vec<(String, Value)> = Vec::new();
    push_member(&mut members, "name", Value::Text(entry.name));
    push_member(&mut members, "path", Value::Text(entry.path));
    assert(json_of_entries(members@) =~= named_json(view)->Object_0);
    Value::Object(members)
}

fn path_value(path: String) -> (value: Value)
    ensures
        value@ == path_json(path@),
{
    let ghost view = path@;
    let mut members: Vec<(String, Value)> = Vec::new();
    push_member(&mut members, "path", Value::Text(path));
    assert(json_of_entries(members@) =~= path_json(view)->Object_0);
    Value::Object(members)
}

fn named_values(entries: Vec<FolderEntry>) -> (values: Vec<Value>)
    ensures
        json_of_items(values@) == entries_view(entries@).map_values(|e: (Seq<char>, Seq<char>)| named_json(e)),
{
    let ghost originals = entries@;
    let mut values: Vec<Value> = Vec::new();
    let mut rest = entries;
    while rest.len() > 0
        invariant
            values@.len() + rest@.len() == originals.len(),
            rest@ == originals.skip(values@.len() as int),
            forall|k: int| 0 <= k < values@.len() ==> #[trigger] values@[k]@ == named_json(entry_view(originals[k])),
        decreases rest@.len(),
    {
        let ghost position = values@.len() as int;
        let entry = rest.remove(0);
        assert(entry == originals[position]);
        assert(rest@ =~= originals.skip(position + 1));
        values.push(named_value(entry));
    }
    proof {
        lemma_json_of_items(values@);
        assert forall|k: int| 0 <= k < values@.len() implies #[trigger] json_of_items(values@)[k] == named_json(entry_view(originals[k])) by {
            assert(values@[k]@ == named_json(entry_view(originals[k])));
        }
        assert(json_of_items(values@) =~= entries_view(originals).map_values(|e: (Seq<char>, Seq<char>)| named_json(e)));
    }
    values
}

fn path_values(paths: Vec<String>) -> (values: Vec<Value>)
    ensures
        json_of_items(values@) == texts_of(paths@).map_values(|p: Seq<char>| path_json(p)),
{
    let ghost originals = paths@;
    let mut values: Vec<Value> = Vec::new();
    let mut rest = paths;
    while rest.len() > 0
        invariant
            values@.len() + rest@.len() == originals.len(),
            rest@ == originals.skip(values@.len() as int),
            forall|k: int| 0 <= k < values@.len() ==> #[trigger] values@[k]@ == path_json(originals[k]@),
        decreases rest@.len(),
    {
        let ghost position = values@.len() as int;
        let path = rest.remove(0);
        assert(path == originals[position]);
        assert(rest@ =~= originals.skip(position + 1));
        values.push(path_value(path));
    }
    proof {
        lemma_json_of_items(values@);
        assert forall|k: int| 0 <= k < values@.len() implies #[trigger] json_of_items(values@)[k] == path_json(originals[k]@) by {
            assert(values@[k]@ == path_json(originals[k]@));
        }
        assert(json_of_items(values@) =~= texts_of(originals).map_values(|p: Seq<char>| path_json(p)));
    }
    values
}

fn text_values(items: Vec<String>) -> (values: Vec<Value>)
    ensures
        json_of_items(values@) == texts_of(items@).map_values(|t: Seq<char>| Json::Text(t)),
{
    let ghost originals = items@;
    let mut values: Vec<Value> = Vec::new();
    let mut rest = items;
    while rest.len() > 0
        invariant
            values@.len() + rest@.len() == originals.len(),
            rest@ == originals.skip(values@.len() as int),
            forall|k: int| 0 <= k < values@.len() ==> #[trigger] values@[k]@ == Json::Text(originals[k]@),
        decreases rest@.len(),
    {
        let ghost position = values@.len() as int;
        let item = rest.remove(0);
        assert(item == originals[position]);
        assert(rest@ =~= originals.skip(position + 1));
        values.push(Value::Text(item));
    }
    proof {
        lemma_json_of_items(values@);
        assert forall|k: int| 0 <= k < values@.len() implies #[trigger] json_of_items(values@)[k] == Json::Text(originals[k]@) by {
            assert(values@[k]@ == Json::Text(originals[k]@));
        }
        assert(json_of_items(values@) =~= texts_of(originals).map_values(|t: Seq<char>| Json::Text(t)));
    }
    values
}

/// A folder listing: where it is, the folder above, the roots, the
/// shortcuts, the folders in it by name, and the part of the requested
/// path that does not exist yet.
pub open spec fn listing_json(
    family: TargetFamily,
    directory: Seq<char>,
    roots: Seq<Seq<char>>,
    shortcuts: Seq<(Seq<char>, Seq<char>)>,
    entries: Seq<(Seq<char>, Seq<char>)>,
    pending: Seq<Seq<char>>,
) -> Json {
    Json::Object(
        seq![
            ("currentDirectory"@, Json::Text(directory)),
            (
                "parentDirectory"@,
                match parent_path_on(family, directory) {
                    Some(p) => Json::Text(p),
                    None => Json::Null,
                },
            ),
            ("roots"@, Json::Array(roots.map_values(|p: Seq<char>| path_json(p)))),
            ("quickLocations"@, Json::Array(shortcuts.map_values(|e: (Seq<char>, Seq<char>)| named_json(e)))),
            ("entries"@, Json::Array(sort_by_name(entries).map_values(|e: (Seq<char>, Seq<char>)| named_json(e)))),
            ("pendingSegments"@, Json::Array(pending.map_values(|t: Seq<char>| Json::Text(t)))),
        ],
    )
}

/// The listing of `directory`, on a system of `family`.
pub fn directory_listing(
    family: TargetFamily,
    directory: &str,
    roots: Vec<String>,
    shortcuts: Vec<FolderEntry>,
    entries: Vec<FolderEntry>,
    pending: Vec<String>,
) -> (value: Value)
    ensures
        value@ == listing_json(
            family,
            directory@,
            texts_of(roots@),
            entries_view(shortcuts@),
            entries_view(entries@),
            texts_of(pending@),
        ),
{
    let ghost views = (texts_of(roots@), entries_view(shortcuts@), entries_view(entries@), texts_of(pending@));
    let above = match parent_on(family, directory) {
        Some(p) => Value::Text(p),
        None => Value::Null,
    };
    let roots_value = Value::Array(path_values(roots));
    let shortcuts_value = Value::Array(named_values(shortcuts));
    let entries_value = Value::Array(named_values(sort_entries(entries)));
    let pending_value = Value::Array(text_values(pending));
    let mut members: Vec<(String, Value)> = Vec::new();
    push_member(&mut members, "currentDirectory", text(directory));
    push_member(&mut members, "parentDirectory", above);
    push_member(&mut members, "roots", roots_value);
    push_member(&mut members, "quickLocations", shortcuts_value);
    push_member(&mut members, "entries", entries_value);
    push_member(&mut members, "pendingSegments", pending_value);
    assert(json_of_entries(members@) =~= listing_json(family, directory@, views.0, views.1, views.2, views.3)->Object_0);
    Value::Object(members)
}

/// The roots a listing offers: each drive letter's root on Windows (those
/// that exist are kept by the caller), `/` elsewhere.
pub open spec fn spec_root_candidates(family: TargetFamily) -> Seq<Seq<char>> {
    match family {
        TargetFamily::Windows => Seq::new(26, |i: int| seq![(65 + i) as char, ':', '\\']),
        TargetFamily::Unix => seq!["/"@],
    }
}

/// The roots a listing offers.
pub fn root_candidates(family: TargetFamily) -> (roots: Vec<String>)
    ensures
        texts_of(roots@) == spec_root_candidates(family),
{
    let mut roots: Vec<String> = Vec::new();
    match family {
        TargetFamily::Windows => {
            let letters = "ABCDEFGHIJKLMNOPQRSTUVWXYZ";
            proof {
                reveal_strlit("ABCDEFGHIJKLMNOPQRSTUVWXYZ");
            }
            let mut i: usize = 0;
            while i < 26
                invariant
                    i <= 26,
                    letters@ == "ABCDEFGHIJKLMNOPQRSTUVWXYZ"@,
                    letters@.len() == 26,
                    forall|k: int| 0 <= k < 26 ==> #[trigger] letters@[k] == (65 + k) as char,
                    roots@.len() == i,
                    forall|k: int| 0 <= k < i ==> #[trigger] roots@[k]@ == seq![(65 + k) as char, ':', '\\'],
                decreases 26 - i,
            {
                let mut root = String::new();
                push_char(&mut root, letters.get_char(i));
                push_char(&mut root, ':');
                push_char(&mut root, '\\');
                roots.push(root);
                i += 1;
            }
            assert(texts_of(roots@) =~= spec_root_candidates(family));
        },
        TargetFamily::Unix => {
            roots.push(to_owned_text("/"));
            assert(texts_of(roots@) =~= spec_root_candidates(family));
        },
    }
    roots
}

/// The folders under the home folder that a listing offers when they exist.
pub open spec fn home_folder_names() -> Seq<Seq<char>> {
    seq!["Desktop"@, "Documents"@, "Downloads"@]
}

/// The shortcut to the home folder and the candidate folders under it
/// (`Desktop`, `Documents`, `Downloads`), each with the path to check.
pub open spec fn spec_home_shortcuts(family: TargetFamily, home: Seq<char>) -> (
    Seq<char>,
    Seq<char>,
    Seq<(Seq<char>, Seq<char>)>,
) {
    (
        "Home"@,
        home,
        home_folder_names().map_values(|name: Seq<char>| (name, join_path_on(family, home, name))),
    )
}

/// The folders under `home` that a listing may offer, with their paths, on
/// a system of `family`.
pub fn home_folder_candidates(family: TargetFamily, home: &str) -> (candidates: Vec<FolderEntry>)
    ensures
        entries_view(candidates@) == spec_home_shortcuts(family, home@).2,
{
    let candidates = vec![
        FolderEntry { name: to_owned_text("Desktop"), path: join_on(family, home, "Desktop") },
        FolderEntry { name: to_owned_text("Documents"), path: join_on(family, home, "Documents") },
        FolderEntry { name: to_owned_text("Downloads"), path: join_on(family, home, "Downloads") },
    ];
    assert(entries_view(candidates@) =~= spec_home_shortcuts(family, home@).2);
    candidates
}

/// A shortcut.
pub fn shortcut(name: &str, path: &str) -> (entry: FolderEntry)
    ensures
        entry_view(entry) == (name@, path@),
{
    FolderEntry { name: to_owned_text(name), path: to_owned_text(path) }
}

/// Where a walk up a requested path stands: the path it is at, and the
/// names it left behind, nearest first.
pub struct WalkView {
    pub directory: Seq<char>,
    pub collected: Seq<Seq<char>>,
}

/// A walk up a requested path to the nearest folder that exists.
pub struct FolderWalk {
    directory: String,
    collected: Vec<String>,
}

impl View for FolderWalk {
    type V = WalkView;

    closed spec fn view(&self) -> WalkView {
        WalkView { directory: self.directory@, collected: texts_of(self.collected@) }
    }
}

/// How a step of a walk ends.
pub enum WalkOutcome {
    /// The folder reached and the names below it, from the top down.
    Found(String, Vec<String>),
    /// The way up ended without a folder.
    Fallback,
    /// The walk moved one folder up.
    Continue,
}

/// How a walk ends.
pub enum WalkEnd {
    Found(Seq<char>, Seq<Seq<char>>),
    Fallback,
}

/// Where a walk from `directory`, having left `collected` behind, ends when
/// `is_dir` says which paths are folders.
pub open spec fn walk_from(
    family: TargetFamily,
    directory: Seq<char>,
    collected: Seq<Seq<char>>,
    is_dir: spec_fn(Seq<char>) -> bool,
) -> WalkEnd
    decreases directory.len(),
{
    if is_dir(directory) {
        WalkEnd::Found(directory, collected.reverse())
    } else {
        match spec_walk_up(family, directory) {
            Some((name, above)) => if above.len() < directory.len() {
                walk_from(family, above, collected.push(name), is_dir)
            } else {
                WalkEnd::Fallback
            },
            None => WalkEnd::Fallback,
        }
    }
}

/// The path `k` steps up from `path`, while steps up exist.
pub open spec fn ancestor(family: TargetFamily, path: Seq<char>, k: nat) -> Option<Seq<char>>
    decreases k,
{
    if k == 0 {
        Some(path)
    } else {
        match spec_walk_up(family, path) {
            Some((_, above)) => ancestor(family, above, (k - 1) as nat),
            None => None,
        }
    }
}

/// The names left behind in `k` steps up from `path`, nearest first.
pub open spec fn names_up(family: TargetFamily, path: Seq<char>, k: nat) -> Seq<Seq<char>>
    decreases k,
{
    if k == 0 {
        Seq::empty()
    } else {
        match spec_walk_up(family, path) {
            Some((name, above)) => seq![name] + names_up(family, above, (k - 1) as nat),
            None => Seq::empty(),
        }
    }
}

impl FolderWalk {
    /// A walk up the requested path; `None` when no path, or a blank one,
    /// is requested.
    pub fn start(requested: Option<&str>) -> (walk: Option<FolderWalk>)
        ensures
            match requested {
                Some(path) => if is_blank(path@) {
                    walk is None
                } else {
                    walk matches Some(w) && w@ == (WalkView { directory: path@, collected: Seq::empty() })
                },
                None => walk is None,
            },
    {
        match requested {
            Some(path) => if blank(path) {
                None
            } else {
                let walk = FolderWalk { directory: to_owned_text(path), collected: Vec::new() };
                assert(texts_of(walk.collected@) =~= Seq::<Seq<char>>::empty());
                Some(walk)
            },
            None => None,
        }
    }

    /// The path the walk is at.
    pub fn directory(&self) -> (path: &str)
        ensures
            path@ == self@.directory,
    {
        self.directory.as_str()
    }

    /// One step: the walk ends where the path it is at is a folder, and
    /// otherwise moves one folder up, or ends where there is no way up.
    pub fn step(&mut self, family: TargetFamily, is_directory: bool) -> (outcome: WalkOutcome)
        ensures
            is_directory ==> (outcome matches WalkOutcome::Found(found, pending) && found@ == old(self)@.directory
                && texts_of(pending@) == old(self)@.collected.reverse()),
            !is_directory ==> match spec_walk_up(family, old(self)@.directory) {
                Some((name, above)) => outcome is Continue && final(self)@ == (WalkView {
                    directory: above,
                    collected: old(self)@.collected.push(name),
                }),
                None => outcome is Fallback,
            },
            outcome is Continue ==> final(self)@.directory.len() < old(self)@.directory.len(),
    {
        proof {
            crate::path_components::lemma_parent_shorter(family, self.directory@);
        }
        if is_directory {
            let mut collected: Vec<String> = Vec::new();
            std::mem::swap(&mut collected, &mut self.collected);
            return WalkOutcome::Found(to_owned_text(self.directory.as_str()), pending_segments(collected));
        }
        match walk_up(family, self.directory.as_str()) {
            Some((name, above)) => {
                proof {
                    assert(texts_of(self.collected@.push(name)) =~= texts_of(self.collected@).push(name@));
                }
                self.collected.push(name);
                self.directory = above;
                WalkOutcome::Continue
            },
            None => WalkOutcome::Fallback,
        }
    }
}

/// A walk up a requested path ends at the nearest folder on the way up:
/// when it finds one, that folder is the path `n` steps up, where `n` is
/// the number of names it hands back, none of the paths below it is a
/// folder, and the names are those left behind on the way, from the top
/// down; when it falls back, none of the paths on the way up is a folder.
pub proof fn law_walk_finds_the_nearest_folder(
    family: TargetFamily,
    path: Seq<char>,
    is_dir: spec_fn(Seq<char>) -> bool,
)
    ensures
        match walk_from(family, path, Seq::empty(), is_dir) {
            WalkEnd::Found(directory, pending) => {
                &&& is_dir(directory)
                &&& ancestor(family, path, pending.len()) == Some(directory)
                &&& pending == names_up(family, path, pending.len()).reverse()
                &&& forall|i: nat| i < pending.len() ==> (#[trigger] ancestor(family, path, i) matches Some(a) && !is_dir(a))
            },
            WalkEnd::Fallback => forall|i: nat| (#[trigger] ancestor(family, path, i) matches Some(a) ==> !is_dir(a)),
        },
{
    lemma_walk_from(family, path, Seq::empty(), is_dir);
    match walk_from(family, path, Seq::empty(), is_dir) {
        WalkEnd::Found(directory, pending) => {
            assert(Seq::<Seq<char>>::empty() + names_up(family, path, pending.len()) =~= names_up(
                family,
                path,
                pending.len(),
            ));
        },
        WalkEnd::Fallback => {},
    }
}

proof fn lemma_walk_from(
    family: TargetFamily,
    path: Seq<char>,
    collected: Seq<Seq<char>>,
    is_dir: spec_fn(Seq<char>) -> bool,
)
    ensures
        match walk_from(family, path, collected, is_dir) {
            WalkEnd::Found(directory, pending) => {
                &&& pending.len() >= collected.len()
                &&& is_dir(directory)
                &&& ancestor(family, path, (pending.len() - collected.len()) as nat) == Some(directory)
                &&& pending == (collected + names_up(family, path, (pending.len() - collected.len()) as nat)).reverse()
                &&& forall|i: nat| i < pending.len() - collected.len() ==> (#[trigger] ancestor(family, path, i) matches Some(a) && !is_dir(a))
            },
            WalkEnd::Fallback => forall|i: nat| (#[trigger] ancestor(family, path, i) matches Some(a) ==> !is_dir(a)),
        },
    decreases path.len(),
{
    if is_dir(path) {
        assert(collected + names_up(family, path, 0) =~= collected);
    } else {
        match spec_walk_up(family, path) {
            Some((name, above)) => {
                lemma_parent_shorter(family, path);
                lemma_walk_from(family, above, collected.push(name), is_dir);
                match walk_from(family, above, collected.push(name), is_dir) {
                    WalkEnd::Found(directory, pending) => {
                        let m = (pending.len() - collected.len() - 1) as nat;
                        let n = (m + 1) as nat;
                        assert(ancestor(family, path, n) == ancestor(family, above, m));
                        assert(names_up(family, path, n) == seq![name] + names_up(family, above, m));
                        assert(collected + names_up(family, path, n) =~= collected.push(name) + names_up(
                            family,
                            above,
                            m,
                        ));
                        assert forall|i: nat| i < n implies (#[trigger] ancestor(family, path, i) matches Some(a)
                            && !is_dir(a)) by {
                            if i > 0 {
                                assert(ancestor(family, path, i) == ancestor(family, above, (i - 1) as nat));
                            }
                        }
                    },
                    WalkEnd::Fallback => {
                        assert forall|i: nat| (#[trigger] ancestor(family, path, i) matches Some(a) ==> !is_dir(a)) by {
                            if i > 0 {
                                assert(ancestor(family, path, i) == ancestor(family, above, (i - 1) as nat));
                            }
                        }
                    },
                }
            },
            None => {
                assert forall|i: nat| (#[trigger] ancestor(family, path, i) matches Some(a) ==> !is_dir(a)) by {
                    if i > 0 {
                        assert(ancestor(family, path, i) is None);
                    }
                }
            },
        }
    }
}

} // verus!
