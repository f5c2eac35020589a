//! The space each kind of key takes in the database: a tally fed one row
//! at a time, then the kinds ordered from the largest down.

use vstd::prelude::*;
use crate::json::{Json, Value, json_of_entries, json_of_items, lemma_json_of_items, number_from_integer, push_member, text};
use crate::numbers::{clamp_i64, saturating_add_i64};
use crate::reports::{nonnegative, number_json, size_json, size_value};
use crate::text::{starts_with, to_owned_text};

verus! {

/// How many rows pass between two progress reports.
pub const TALLY_REPORT_INTERVAL: i64 = 20000;
/// How many kinds the overview lists at most.
pub const OVERVIEW_LIMIT: usize = 40;

/// The kinds of keys that the overview names, by prefix.
pub open spec fn breakdown_prefix(index: int) -> Seq<char> {
    if index == 0 {
        "agentKv"@
    } else if index == 1 {
        "bubbleId"@
    } else if index == 2 {
        "composerData"@
    } else if index == 3 {
        "checkpointId"@
    } else if index == 4 {
        "codeBlockDiff"@
    } else if index == 5 {
        "ofsContent"@
    } else if index == 6 {
        "codeBlockPartialInlineDiffFates"@
    } else {
        "messageRequestContext"@
    }
}

fn prefix_name(index: usize) -> (name: &'static str)
    requires
        index < 8,
    ensures
        name@ == breakdown_prefix(index as int),
{
    if index == 0 {
        "agentKv"
    } else if index == 1 {
        "bubbleId"
    } else if index == 2 {
        "composerData"
    } else if index == 3 {
        "checkpointId"
    } else if index == 4 {
        "codeBlockDiff"
    } else if index == 5 {
        "ofsContent"
    } else if index == 6 {
        "codeBlockPartialInlineDiffFates"
    } else {
        "messageRequestContext"
    }
}

pub open spec fn has_prefix(key: Seq<char>, prefix: Seq<char>) -> bool {
    key.len() >= prefix.len() && key.subrange(0, prefix.len() as int) == prefix
}

/// The first kind whose `<prefix>:` starts `key`, searching from `from`.
pub open spec fn kind_from(key: Seq<char>, from: int) -> Option<int>
    decreases 8 - from,
{
    if from < 0 || from >= 8 {
        None
    } else if has_prefix(key, breakdown_prefix(from) + ":"@) {
        Some(from)
    } else {
        kind_from(key, from + 1)
    }
}

/// The kind of `key`, where it is one the overview names.
pub open spec fn kind_of(key: Seq<char>) -> Option<int> {
    kind_from(key, 0)
}

/// A tally: bytes and rows per named kind, then for the rest.
#[verifier::ext_equal]
pub struct TallyView {
    pub totals: Seq<(int, int)>,
    pub other_bytes: int,
    pub other_count: int,
    pub scanned_rows: int,
}

pub open spec fn add_row(total: (int, int), bytes: i64) -> (int, int) {
    (clamp_i64(total.0 + bytes), clamp_i64(total.1 + 1))
}

/// The tally after one more row.
pub open spec fn after_row(tally: TallyView, key: Seq<char>, bytes: i64) -> TallyView {
    match kind_of(key) {
        Some(i) => TallyView {
            totals: tally.totals.update(i, add_row(tally.totals[i], bytes)),
            scanned_rows: clamp_i64(tally.scanned_rows + 1),
            ..tally
        },
        None => TallyView {
            other_bytes: clamp_i64(tally.other_bytes + bytes),
            other_count: clamp_i64(tally.other_count + 1),
            scanned_rows: clamp_i64(tally.scanned_rows + 1),
            ..tally
        },
    }
}

/// A kind of key with the space and rows it takes.
pub struct PrefixUsage {
    pub prefix: String,
    pub bytes: i64,
    pub count: i64,
}

pub open spec fn usage_view(usage: PrefixUsage) -> (Seq<char>, int, int) {
    (usage.prefix@, usage.bytes as int, usage.count as int)
}

pub open spec fn usage_views(usages: Seq<PrefixUsage>) -> Seq<(Seq<char>, int, int)> {
    usages.map_values(|u: PrefixUsage| usage_view(u))
}

/// The named kinds from `index` on that have rows.
pub open spec fn measured_from(totals: Seq<(int, int)>, index: int) -> Seq<(Seq<char>, int, int)>
    decreases 8 - index,
{
    if index < 0 || index >= 8 {
        Seq::empty()
    } else {
        let rest = measured_from(totals, index + 1);
        if totals[index].1 > 0 {
            seq![(breakdown_prefix(index), totals[index].0, totals[index].1)] + rest
        } else {
            rest
        }
    }
}

/// The kinds with rows, the named ones in their order, then the rest.
pub open spec fn measured(tally: TallyView) -> Seq<(Seq<char>, int, int)> {
    let named = measured_from(tally.totals, 0);
    if tally.other_count > 0 {
        named.push(("other"@, tally.other_bytes, tally.other_count))
    } else {
        named
    }
}

/// Puts `entry` into `sorted` after every entry with at least as many
/// bytes.
pub open spec fn insert_by_bytes<T>(sorted: Seq<(T, int, int)>, entry: (T, int, int)) -> Seq<(T, int, int)>
    decreases sorted.len(),
{
    if sorted.len() == 0 {
        seq![entry]
    } else if sorted.last().1 >= entry.1 {
        sorted.push(entry)
    } else {
        insert_by_bytes(sorted.drop_last(), entry).push(sorted.last())
    }
}

/// The entries from the most bytes down, equal ones in their first order
/// (a stable sort by descending bytes).
pub open spec fn sort_by_bytes<T>(entries: Seq<(T, int, int)>) -> Seq<(T, int, int)>
    decreases entries.len(),
{
    if entries.len() == 0 {
        Seq::empty()
    } else {
        insert_by_bytes(sort_by_bytes(entries.drop_last()), entries.last())
    }
}

proof fn lemma_insert_by_bytes<T>(sorted: Seq<(T, int, int)>, entry: (T, int, int), at: int)
    requires
        0 <= at <= sorted.len(),
        forall|k: int| at <= k < sorted.len() ==> #[trigger] sorted[k].1 < entry.1,
        at == 0 || sorted[at - 1].1 >= entry.1,
    ensures
        insert_by_bytes(sorted, entry) == sorted.take(at) + seq![entry] + sorted.skip(at),
    decreases sorted.len(),
{
    if sorted.len() == 0 {
        assert(sorted.take(at) + seq![entry] + sorted.skip(at) =~= seq![entry]);
    } else if at == sorted.len() {
        assert(sorted.take(at) + seq![entry] + sorted.skip(at) =~= sorted.push(entry));
    } else {
        let shorter = sorted.drop_last();
        assert forall|k: int| at <= k < shorter.len() implies #[trigger] shorter[k].1 < entry.1 by {
            assert(shorter[k] == sorted[k]);
        }
        lemma_insert_by_bytes(shorter, entry, at);
        assert(sorted.take(at) + seq![entry] + sorted.skip(at) =~= (shorter.take(at) + seq![entry]
            + shorter.skip(at)).push(sorted.last()));
    }
}

/// The JSON of one line of the overview.
pub open spec fn usage_json(entry: (Seq<char>, int, int)) -> Json {
    Json::Object(
        seq![
            ("prefix"@, Json::Text(entry.0)),
            ("rowCount"@, number_json(entry.2)),
            ("bytes"@, number_json(entry.1)),
            ("human"@, size_json(nonnegative(entry.1))),
        ],
    )
}

/// The overview of a finished tally: at most forty kinds, the largest first.
pub open spec fn overview_lines(tally: TallyView) -> Json {
    let sorted = sort_by_bytes(measured(tally));
    let shown = if sorted.len() > 40 {
        sorted.take(40)
    } else {
        sorted
    };
    Json::Array(shown.map_values(|e: (Seq<char>, int, int)| usage_json(e)))
}

/// A tally in progress.
pub struct PrefixTally {
    totals: Vec<(i64, i64)>,
    other_bytes: i64,
    other_count: i64,
    scanned_rows: i64,
}

impl View for PrefixTally {
    type V = TallyView;

    closed spec fn view(&self) -> TallyView {
        TallyView {
            totals: self.totals@.map_values(|t: (i64, i64)| (t.0 as int, t.1 as int)),
            other_bytes: self.other_bytes as int,
            other_count: self.other_count as int,
            scanned_rows: self.scanned_rows as int,
        }
    }
}

fn usage_line(entry: PrefixUsage) -> (value: Value)
    ensures
        value@ == usage_json(usage_view(entry)),
{
    let ghost view = usage_view(entry);
    let mut members: Vec<(String, Value)> = Vec::new();
    let bytes = entry.bytes;
    let count = entry.count;
    let size: u64 = if bytes < 0 {
        0
    } else {
        bytes as u64
    };
    push_member(&mut members, "prefix", Value::Text(entry.prefix));
    push_member(&mut members, "rowCount", number_from_integer(count));
    push_member(&mut members, "bytes", number_from_integer(bytes));
    push_member(&mut members, "human", size_value(size));
    assert(json_of_entries(members@) =~= usage_json(view)->Object_0);
    Value::Object(members)
}

impl PrefixTally {
    pub closed spec fn wf(&self) -> bool {
        &&& self.totals@.len() == 8
        &&& self.scanned_rows >= 0
    }

    /// An empty tally.
    pub fn new() -> (tally: PrefixTally)
        ensures
            tally.wf(),
            tally@ == (TallyView {
                totals: Seq::new(8, |i: int| (0int, 0int)),
                other_bytes: 0,
                other_count: 0,
                scanned_rows: 0,
            }),
    {
        let tally = PrefixTally {
            totals: vec![(0i64, 0i64), (0, 0), (0, 0), (0, 0), (0, 0), (0, 0), (0, 0), (0, 0)],
            other_bytes: 0,
            other_count: 0,
            scanned_rows: 0,
        };
        assert(tally@.totals =~= Seq::new(8, |i: int| (0int, 0int)));
        tally
    }

    /// How many rows the tally has counted.
    pub fn scanned_rows(&self) -> (rows: i64)
        ensures
            rows == self@.scanned_rows,
    {
        self.scanned_rows
    }

    fn kind(key: &str) -> (kind: Option<usize>)
        ensures
            kind matches Some(i) ==> i < 8,
            kind_of(key@) == match kind {
                Some(i) => Some(i as int),
                None => None::<int>,
            },
    {
        let mut index: usize = 0;
        while index < 8
            invariant
                index <= 8,
                kind_of(key@) == kind_from(key@, index as int),
            decreases 8 - index,
        {
            let mut marker = to_owned_text(prefix_name(index));
            marker.append(":");
            if starts_with(key, marker.as_str()) {
                return Some(index);
            }
            index += 1;
        }
        None
    }

    /// Counts one row of `bytes` bytes under the kind of `key`; says whether
    /// a progress report (and a look at cancellation) is due.
    pub fn observe_row(&mut self, key: &str, bytes: i64) -> (report_due: bool)
        requires
            old(self).wf(),
        ensures
            final(self).wf(),
            final(self)@ == after_row(old(self)@, key@, bytes),
            report_due == (final(self)@.scanned_rows % (TALLY_REPORT_INTERVAL as int) == 0),
    {
        let ghost old_totals = self@.totals;
        match Self::kind(key) {
            Some(i) => {
                let (total_bytes, total_count) = self.totals[i];
                self.totals.set(i, (saturating_add_i64(total_bytes, bytes), saturating_add_i64(total_count, 1)));
                assert(self@.totals =~= old_totals.update(i as int, add_row(old_totals[i as int], bytes)));
            },
            None => {
                self.other_bytes = saturating_add_i64(self.other_bytes, bytes);
                self.other_count = saturating_add_i64(self.other_count, 1);
            },
        }
        self.scanned_rows = saturating_add_i64(self.scanned_rows, 1);
        assert(self@ =~= after_row(old(self)@, key@, bytes));
        self.scanned_rows % TALLY_REPORT_INTERVAL == 0
    }

    fn measured_usages(&self) -> (usages: Vec<PrefixUsage>)
        requires
            self.wf(),
        ensures
            usage_views(usages@) == measured(self@),
    {
        let mut usages: Vec<PrefixUsage> = Vec::new();
        let mut index: usize = 0;
        while index < 8
            invariant
                self.wf(),
                index <= 8,
                usage_views(usages@) + measured_from(self@.totals, index as int) == measured_from(
                    self@.totals,
                    0,
                ),
            decreases 8 - index,
        {
            let (bytes, count) = self.totals[index];
            let ghost before = usages@;
            if count > 0 {
                usages.push(PrefixUsage { prefix: to_owned_text(prefix_name(index)), bytes, count });
                assert(usage_views(usages@) =~= usage_views(before).push(
                    (breakdown_prefix(index as int), bytes as int, count as int),
                ));
            }
            assert(usage_views(usages@) + measured_from(self@.totals, index + 1) =~= usage_views(before)
                + measured_from(self@.totals, index as int));
            index += 1;
        }
        assert(measured_from(self@.totals, 8) =~= Seq::<(Seq<char>, int, int)>::empty());
        assert(usage_views(usages@) =~= usage_views(usages@) + measured_from(self@.totals, 8));
        if self.other_count > 0 {
            let ghost before = usages@;
            usages.push(PrefixUsage { prefix: to_owned_text("other"), bytes: self.other_bytes, count: self.other_count });
            assert(usage_views(usages@) =~= usage_views(before).push(
                ("other"@, self.other_bytes as int, self.other_count as int),
            ));
        }
        usages
    }

    /// The overview: the kinds with rows, the largest first, at most forty.
    pub fn finish(&self) -> (lines: Value)
        requires
            self.wf(),
        ensures
            lines@ == overview_lines(self@),
    {
        let usages = self.measured_usages();
        let sorted = sort_usages(usages);
        let ghost sorted_views = usage_views(sorted@);
        let mut lines: Vec<Value> = Vec::new();
        let mut rest = sorted;
        let limit: usize = if rest.len() > OVERVIEW_LIMIT {
            OVERVIEW_LIMIT
        } else {
            rest.len()
        };
        rest.truncate(limit);
        assert(usage_views(rest@) =~= if sorted_views.len() > 40 {
            sorted_views.take(40)
        } else {
            sorted_views
        });
        let ghost shown = usage_views(rest@);
        let ghost originals = rest@;
        while rest.len() > 0
            invariant
                shown == usage_views(originals),
                lines@.len() + rest@.len() == shown.len(),
                rest@ == originals.skip(lines@.len() as int),
                forall|k: int| 0 <= k < lines@.len() ==> #[trigger] lines@[k]@ == usage_json(shown[k]),
            decreases rest@.len(),
        {
            let ghost position = lines@.len() as int;
            let entry = rest.remove(0);
            assert(entry == originals[position]);
            assert(rest@ =~= originals.skip(position + 1));
            lines.push(usage_line(entry));
        }
        proof {
            lemma_json_of_items(lines@);
            assert(lines@.len() == shown.len());
            assert forall|k: int| 0 <= k < lines@.len() implies #[trigger] json_of_items(lines@)[k]
                == shown.map_values(|e: (Seq<char>, int, int)| usage_json(e))[k] by {
                assert(json_of_items(lines@)[k] == lines@[k]@);
            }
            assert(json_of_items(lines@) =~= shown.map_values(|e: (Seq<char>, int, int)| usage_json(e)));
        }
        Value::Array(lines)
    }
}

/// Sorts by descending bytes, keeping the order of equal ones.
fn sort_usages(usages: Vec<PrefixUsage>) -> (sorted: Vec<PrefixUsage>)
    ensures
        usage_views(sorted@) == sort_by_bytes(usage_views(usages@)),
{
    let mut sorted: Vec<PrefixUsage> = Vec::new();
    let ghost original = usage_views(usages@);
    let ghost originals = usages@;
    let ghost total: int = usages@.len() as int;
    let mut remaining = usages;
    while remaining.len() > 0
        invariant
            total == originals.len(),
            remaining@.len() <= total,
            original == usage_views(originals),
            remaining@ == originals.skip(total - remaining@.len()),
            usage_views(sorted@) == sort_by_bytes(original.take(total - remaining@.len())),
        decreases remaining@.len(),
    {
        let ghost done = total - remaining@.len();
        let entry = remaining.remove(0);
        assert(entry == originals[done]);
        assert(remaining@ =~= originals.skip(done + 1));
        let ghost entry_view = usage_view(entry);
        assert(entry_view == original[done]);
        let mut at = sorted.len();
        while at > 0 && sorted[at - 1].bytes < entry.bytes
            invariant
                at <= sorted@.len(),
                forall|k: int| at <= k < sorted@.len() ==> #[trigger] sorted@[k].bytes < entry.bytes,
            decreases at,
        {
            at -= 1;
        }
        let ghost before = usage_views(sorted@);
        proof {
            assert forall|k: int| at <= k < before.len() implies #[trigger] before[k].1 < entry_view.1 by {
                assert(before[k] == usage_view(sorted@[k]));
            }
            if at > 0 {
                assert(before[at - 1] == usage_view(sorted@[at - 1]));
            }
            lemma_insert_by_bytes(before, entry_view, at as int);
            assert(original.take(done + 1).drop_last() =~= original.take(done));
        }
        sorted.insert(at, entry);
        assert(usage_views(sorted@) =~= before.take(at as int) + seq![entry_view] + before.skip(at as int));
    }
    assert(original.take(total) =~= original);
    sorted
}

/// The entries are in descending order of bytes.
pub open spec fn largest_first<T>(entries: Seq<(T, int, int)>) -> bool {
    forall|i: int, j: int| 0 <= i < j < entries.len() ==> #[trigger] entries[i].1 >= #[trigger] entries[j].1
}

proof fn lemma_insert_keeps_order<T>(sorted: Seq<(T, int, int)>, entry: (T, int, int))
    requires
        largest_first(sorted),
    ensures
        largest_first(insert_by_bytes(sorted, entry)),
        insert_by_bytes(sorted, entry).len() == sorted.len() + 1,
        forall|k: int| 0 <= k < insert_by_bytes(sorted, entry).len() ==> #[trigger] insert_by_bytes(sorted, entry)[k] == entry
            || sorted.contains(insert_by_bytes(sorted, entry)[k]),
    decreases sorted.len(),
{
    let result = insert_by_bytes(sorted, entry);
    if sorted.len() == 0 {
    } else if sorted.last().1 >= entry.1 {
        assert forall|k: int| 0 <= k < result.len() implies #[trigger] result[k] == entry || sorted.contains(result[k]) by {
            if k < sorted.len() {
                assert(result[k] == sorted[k]);
            }
        }
        assert forall|i: int, j: int| 0 <= i < j < result.len() implies #[trigger] result[i].1 >= #[trigger] result[j].1 by {
            if j == sorted.len() {
                assert(sorted[i].1 >= sorted[sorted.len() - 1].1);
            }
        }
    } else {
        let shorter = sorted.drop_last();
        assert forall|i: int, j: int| 0 <= i < j < shorter.len() implies #[trigger] shorter[i].1 >= #[trigger] shorter[j].1 by {
            assert(sorted[i].1 >= sorted[j].1);
        }
        lemma_insert_keeps_order(shorter, entry);
        let inner = insert_by_bytes(shorter, entry);
        assert forall|k: int| 0 <= k < inner.len() implies #[trigger] inner[k].1 >= sorted.last().1 by {
            if inner[k] != entry {
                assert(shorter.contains(inner[k]));
                let m = choose|m: int| 0 <= m < shorter.len() && shorter[m] == inner[k];
                assert(sorted[m].1 >= sorted[sorted.len() - 1].1);
            }
        }
        assert forall|k: int| 0 <= k < result.len() implies #[trigger] result[k] == entry || sorted.contains(result[k]) by {
            if k < inner.len() {
                assert(result[k] == inner[k]);
                if inner[k] != entry {
                    let m = choose|m: int| 0 <= m < shorter.len() && shorter[m] == inner[k];
                    assert(sorted[m] == shorter[m]);
                }
            } else {
                assert(result[k] == sorted[sorted.len() - 1]);
            }
        }
        assert forall|i: int, j: int| 0 <= i < j < result.len() implies #[trigger] result[i].1 >= #[trigger] result[j].1 by {
            if j < inner.len() {
                assert(result[i] == inner[i]);
                assert(result[j] == inner[j]);
            } else {
                assert(result[i] == inner[i]);
            }
        }
    }
}

proof fn lemma_sort_keeps_order<T>(entries: Seq<(T, int, int)>)
    ensures
        largest_first(sort_by_bytes(entries)),
        sort_by_bytes(entries).len() == entries.len(),
    decreases entries.len(),
{
    if entries.len() > 0 {
        lemma_sort_keeps_order(entries.drop_last());
        lemma_insert_keeps_order(sort_by_bytes(entries.drop_last()), entries.last());
    }
}

proof fn lemma_measured_from_length(totals: Seq<(int, int)>, index: int)
    requires
        0 <= index <= 8,
    ensures
        measured_from(totals, index).len() <= 8 - index,
    decreases 8 - index,
{
    if index < 8 {
        lemma_measured_from_length(totals, index + 1);
    }
}

/// The overview lists the kinds from the most bytes down, and lists every
/// kind that has rows: there are never more than forty.
pub proof fn law_overview_lists_every_kind_largest_first(tally: TallyView)
    ensures
        largest_first(sort_by_bytes(measured(tally))),
        overview_lines(tally) == Json::Array(
            sort_by_bytes(measured(tally)).map_values(|e: (Seq<char>, int, int)| usage_json(e)),
        ),
{
    lemma_sort_keeps_order(measured(tally));
    lemma_measured_from_length(tally.totals, 0);
}

/// The rows the tally has counted: per named kind, then the rest.
pub open spec fn counted_rows(totals: Seq<(int, int)>, upto: int) -> int
    decreases upto,
{
    if upto <= 0 {
        0
    } else {
        counted_rows(totals, upto - 1) + totals[upto - 1].1
    }
}

pub open spec fn tally_rows(tally: TallyView) -> int {
    counted_rows(tally.totals, 8) + tally.other_count
}

proof fn lemma_counted_rows_update(totals: Seq<(int, int)>, index: int, total: (int, int), upto: int)
    requires
        0 <= index < totals.len(),
        0 <= upto <= totals.len(),
    ensures
        counted_rows(totals.update(index, total), upto) == counted_rows(totals, upto) + if index < upto {
            total.1 - totals[index].1
        } else {
            0
        },
    decreases upto,
{
    if upto > 0 {
        lemma_counted_rows_update(totals, index, total, upto - 1);
    }
}

proof fn lemma_kind_in_range(key: Seq<char>, from: int)
    ensures
        kind_from(key, from) matches Some(i) ==> 0 <= i < 8,
    decreases 8 - from,
{
    if 0 <= from < 8 {
        lemma_kind_in_range(key, from + 1);
    }
}

/// Each row is counted once, under exactly one kind, while no count is at
/// its limit.
pub proof fn law_each_row_counted_once(tally: TallyView, key: Seq<char>, bytes: i64)
    requires
        tally.totals.len() == 8,
        forall|i: int| 0 <= i < 8 ==> 0 <= #[trigger] tally.totals[i].1 < i64::MAX,
        0 <= tally.other_count < i64::MAX,
    ensures
        tally_rows(after_row(tally, key, bytes)) == tally_rows(tally) + 1,
{
    lemma_kind_in_range(key, 0);
    match kind_of(key) {
        Some(i) => {
            lemma_counted_rows_update(tally.totals, i, add_row(tally.totals[i], bytes), 8);
        },
        None => {},
    }
}

/// The rows a list of overview lines accounts for.
pub open spec fn rows_listed<T>(entries: Seq<(T, int, int)>) -> int
    decreases entries.len(),
{
    if entries.len() == 0 {
        0
    } else {
        rows_listed(entries.drop_last()) + entries.last().2
    }
}

proof fn lemma_rows_listed_concat<T>(a: Seq<(T, int, int)>, b: Seq<(T, int, int)>)
    ensures
        rows_listed(a + b) == rows_listed(a) + rows_listed(b),
    decreases b.len(),
{
    if b.len() == 0 {
        assert(a + b =~= a);
    } else {
        lemma_rows_listed_concat(a, b.drop_last());
        assert((a + b).drop_last() =~= a + b.drop_last());
    }
}

proof fn lemma_insert_comes_from<T>(sorted: Seq<(T, int, int)>, entry: (T, int, int))
    ensures
        forall|x: (T, int, int)| #[trigger] insert_by_bytes(sorted, entry).contains(x) ==> sorted.contains(x) || x
            == entry,
    decreases sorted.len(),
{
    let inserted = insert_by_bytes(sorted, entry);
    if sorted.len() == 0 {
        assert(inserted =~= seq![entry]);
        assert forall|x: (T, int, int)| #[trigger] inserted.contains(x) implies sorted.contains(x) || x == entry by {
            let k = choose|k: int| 0 <= k < inserted.len() && inserted[k] == x;
        }
    } else if sorted.last().1 >= entry.1 {
        assert forall|x: (T, int, int)| #[trigger] inserted.contains(x) implies sorted.contains(x) || x == entry by {
            let k = choose|k: int| 0 <= k < inserted.len() && inserted[k] == x;
            if k < sorted.len() {
                assert(sorted[k] == x);
            }
        }
    } else {
        let shorter = sorted.drop_last();
        lemma_insert_comes_from(shorter, entry);
        let inner = insert_by_bytes(shorter, entry);
        assert(inserted == inner.push(sorted.last()));
        assert forall|x: (T, int, int)| #[trigger] inserted.contains(x) implies sorted.contains(x) || x == entry by {
            let k = choose|k: int| 0 <= k < inserted.len() && inserted[k] == x;
            if k == inserted.len() - 1 {
                assert(sorted[sorted.len() - 1] == x);
            } else {
                assert(inner[k] == x);
                assert(inner.contains(x));
                if x != entry {
                    assert(shorter.contains(x));
                    let m = choose|m: int| 0 <= m < shorter.len() && shorter[m] == x;
                    assert(sorted[m] == x);
                }
            }
        }
    }
}

proof fn lemma_insert_keeps_entries<T>(sorted: Seq<(T, int, int)>, entry: (T, int, int))
    ensures
        rows_listed(insert_by_bytes(sorted, entry)) == rows_listed(sorted) + entry.2,
        insert_by_bytes(sorted, entry).contains(entry),
        forall|x: (T, int, int)| sorted.contains(x) ==> #[trigger] insert_by_bytes(sorted, entry).contains(x),
        forall|x: (T, int, int)| #[trigger] insert_by_bytes(sorted, entry).contains(x) ==> sorted.contains(x) || x
            == entry,
    decreases sorted.len(),
{
    let inserted = insert_by_bytes(sorted, entry);
    lemma_insert_comes_from(sorted, entry);
    if sorted.len() == 0 {
        assert(inserted[0] == entry);
        assert(inserted.drop_last() =~= Seq::<(T, int, int)>::empty());
        assert(rows_listed(inserted.drop_last()) == 0);
        assert(rows_listed(inserted) == rows_listed(inserted.drop_last()) + inserted.last().2);
    } else if sorted.last().1 >= entry.1 {
        assert(inserted == sorted.push(entry));
        assert(inserted[inserted.len() - 1] == entry);
        assert(inserted.drop_last() =~= sorted);
        assert(rows_listed(inserted) == rows_listed(inserted.drop_last()) + inserted.last().2);
        assert forall|x: (T, int, int)| sorted.contains(x) implies #[trigger] inserted.contains(x) by {
            let k = choose|k: int| 0 <= k < sorted.len() && sorted[k] == x;
            assert(inserted[k] == x);
        }
    } else {
        let shorter = sorted.drop_last();
        lemma_insert_keeps_entries(shorter, entry);
        let inner = insert_by_bytes(shorter, entry);
        assert(inserted == inner.push(sorted.last()));
        assert(inserted.drop_last() =~= inner);
        assert(shorter.push(sorted.last()) =~= sorted);
        assert(rows_listed(inserted) == rows_listed(inner) + sorted.last().2);
        assert(rows_listed(sorted) == rows_listed(shorter) + sorted.last().2);
        assert(inner.contains(entry));
        let j = choose|j: int| 0 <= j < inner.len() && inner[j] == entry;
        assert(inserted[j] == entry);
        assert forall|x: (T, int, int)| sorted.contains(x) implies #[trigger] inserted.contains(x) by {
            let k = choose|k: int| 0 <= k < sorted.len() && sorted[k] == x;
            if k == sorted.len() - 1 {
                assert(inserted[inserted.len() - 1] == x);
            } else {
                assert(shorter[k] == x);
                assert(shorter.contains(x));
                assert(inner.contains(x));
                let m = choose|m: int| 0 <= m < inner.len() && inner[m] == x;
                assert(inserted[m] == x);
            }
        }
    }
}

proof fn lemma_sort_keeps_entries<T>(entries: Seq<(T, int, int)>)
    ensures
        rows_listed(sort_by_bytes(entries)) == rows_listed(entries),
        forall|x: (T, int, int)| entries.contains(x) ==> #[trigger] sort_by_bytes(entries).contains(x),
        forall|x: (T, int, int)| #[trigger] sort_by_bytes(entries).contains(x) ==> entries.contains(x),
    decreases entries.len(),
{
    if entries.len() > 0 {
        let shorter = entries.drop_last();
        lemma_sort_keeps_entries(shorter);
        lemma_insert_keeps_entries(sort_by_bytes(shorter), entries.last());
        assert forall|x: (T, int, int)| entries.contains(x) implies #[trigger] sort_by_bytes(entries).contains(x) by {
            let k = choose|k: int| 0 <= k < entries.len() && entries[k] == x;
            if k < entries.len() - 1 {
                assert(shorter[k] == x);
                assert(shorter.contains(x));
                assert(sort_by_bytes(shorter).contains(x));
            }
        }
        assert forall|x: (T, int, int)| #[trigger] sort_by_bytes(entries).contains(x) implies entries.contains(x) by {
            if x == entries.last() {
                assert(entries[entries.len() - 1] == x);
            } else {
                assert(sort_by_bytes(shorter).contains(x));
                let k = choose|k: int| 0 <= k < shorter.len() && shorter[k] == x;
                assert(entries[k] == x);
            }
        }
    } else {
        assert(sort_by_bytes(entries) =~= Seq::<(T, int, int)>::empty());
    }
}

proof fn lemma_measured_from_lists(totals: Seq<(int, int)>, index: int)
    requires
        0 <= index <= 8,
        totals.len() == 8,
        forall|i: int| 0 <= i < 8 ==> #[trigger] totals[i].1 >= 0,
    ensures
        rows_listed(measured_from(totals, index)) == counted_rows(totals, 8) - counted_rows(totals, index),
        forall|i: int| index <= i < 8 && totals[i].1 > 0 ==> #[trigger] measured_from(totals, index).contains(
            (breakdown_prefix(i), totals[i].0, totals[i].1),
        ),
        forall|k: int| 0 <= k < measured_from(totals, index).len() ==> #[trigger] measured_from(totals, index)[k].2
            > 0,
    decreases 8 - index,
{
    if index < 8 {
        lemma_measured_from_lists(totals, index + 1);
        lemma_counted_rows_step(totals, index);
        let rest = measured_from(totals, index + 1);
        let here = (breakdown_prefix(index), totals[index].0, totals[index].1);
        if totals[index].1 > 0 {
            let one = seq![here];
            assert(one.drop_last() =~= Seq::<(Seq<char>, int, int)>::empty());
            assert(rows_listed(one.drop_last()) == 0);
            assert(one.last() == here);
            assert(rows_listed(one) == here.2);
            lemma_rows_listed_concat(one, rest);
            let all = one + rest;
            assert(all == measured_from(totals, index));
            assert(all[0] == here);
            assert forall|i: int| index <= i < 8 && totals[i].1 > 0 implies #[trigger] measured_from(
                totals,
                index,
            ).contains((breakdown_prefix(i), totals[i].0, totals[i].1)) by {
                if i > index {
                    assert(rest.contains((breakdown_prefix(i), totals[i].0, totals[i].1)));
                    let k = choose|k: int| 0 <= k < rest.len() && rest[k] == (breakdown_prefix(i), totals[i].0, totals[i].1);
                    assert(all[k + 1] == rest[k]);
                }
            }
            assert forall|k: int| 0 <= k < all.len() implies #[trigger] all[k].2 > 0 by {
                if k > 0 {
                    assert(all[k] == rest[k - 1]);
                }
            }
        }
    } else {
        assert(measured_from(totals, 8) =~= Seq::<(Seq<char>, int, int)>::empty());
    }
}

proof fn lemma_counted_rows_step(totals: Seq<(int, int)>, index: int)
    requires
        0 <= index,
    ensures
        counted_rows(totals, index + 1) == counted_rows(totals, index) + totals[index].1,
{
}

/// The overview lists every kind that has rows and no other: each named
/// kind with rows, and the other keys when there are any, has its line with
/// its space and row count, every line has rows, and the row counts of the
/// lines add up to every row the tally counted.
pub proof fn law_every_kind_with_rows_is_listed(tally: TallyView)
    requires
        tally.totals.len() == 8,
        forall|i: int| 0 <= i < 8 ==> #[trigger] tally.totals[i].1 >= 0,
        tally.other_count >= 0,
    ensures
        forall|i: int| 0 <= i < 8 && tally.totals[i].1 > 0 ==> #[trigger] sort_by_bytes(measured(tally)).contains(
            (breakdown_prefix(i), tally.totals[i].0, tally.totals[i].1),
        ),
        tally.other_count > 0 ==> sort_by_bytes(measured(tally)).contains(
            ("other"@, tally.other_bytes, tally.other_count),
        ),
        rows_listed(sort_by_bytes(measured(tally))) == tally_rows(tally),
        forall|x: (Seq<char>, int, int)| #[trigger] sort_by_bytes(measured(tally)).contains(x) ==> x.2 > 0,
{
    let named = measured_from(tally.totals, 0);
    lemma_measured_from_lists(tally.totals, 0);
    lemma_sort_keeps_entries(measured(tally));
    assert(counted_rows(tally.totals, 0) == 0);
    if tally.other_count > 0 {
        let entry = ("other"@, tally.other_bytes, tally.other_count);
        assert(measured(tally) == named.push(entry));
        assert(measured(tally).drop_last() =~= named);
        assert(measured(tally)[measured(tally).len() - 1] == entry);
        assert(measured(tally).contains(entry));
    }
    assert forall|i: int| 0 <= i < 8 && tally.totals[i].1 > 0 implies #[trigger] sort_by_bytes(measured(tally)).contains(
        (breakdown_prefix(i), tally.totals[i].0, tally.totals[i].1),
    ) by {
        let x = (breakdown_prefix(i), tally.totals[i].0, tally.totals[i].1);
        assert(named.contains(x));
        let k = choose|k: int| 0 <= k < named.len() && named[k] == x;
        assert(measured(tally)[k] == x);
        assert(measured(tally).contains(x));
    }
    assert forall|x: (Seq<char>, int, int)| #[trigger] sort_by_bytes(measured(tally)).contains(x) implies x.2 > 0 by {
        assert(measured(tally).contains(x));
        let k = choose|k: int| 0 <= k < measured(tally).len() && measured(tally)[k] == x;
        if k < named.len() {
            assert(measured(tally)[k] == named[k]);
        }
    }
}

} // verus!
