//! The choice of conversation rows that a deep clean removes.
//!
//! A scan is fed the rows of the database in three passes: the composer
//! rows (`composerData:<id>`), which say by their timestamps whether a
//! conversation is older than the cutoff; the child rows (`bubbleId:`,
//! `messageRequestContext:`, `checkpointId:`), which follow their
//! conversation; and, last, the values of child rows whose conversation
//! was not seen, which are judged by their own timestamps.

use vstd::prelude::*;
use vstd::utf8::*;
use vstd::string::StringSliceAdditionalSpecFns;
use crate::cleanup::{classify_value_age, composer_id_from_key, spec_classify_value_age, spec_composer_id};
use crate::numbers::{clamp_i64, saturating_add_i64, saturating_mul_i64, saturating_sub_i64};
use crate::text_set::TextSet;

verus! {

broadcast use encode_utf8_decode_utf8;

/// How many rows pass between two progress reports.
pub const SCAN_REPORT_INTERVAL: i64 = 5000;
/// Milliseconds in a day.
pub const MILLIS_PER_DAY: i64 = 86_400_000;

/// The conversation a key belongs to: the text between its first colon and
/// the next one (or the end).
pub open spec fn composer_of(key: Seq<char>) -> Option<Seq<char>> {
    match spec_composer_id(encode_utf8(key)) {
        Some(bytes) => Some(decode_utf8(bytes)),
        None => None,
    }
}

fn composer_of_key(key: &str) -> (id: Option<&str>)
    ensures
        match composer_of(key@) {
            Some(expected) => id matches Some(found) && found@ == expected,
            None => id is None,
        },
{
    let id = composer_id_from_key(key);
    proof {
        match id {
            Some(found) => {
                assert(decode_utf8(encode_utf8(found@)) == found@);
            },
            None => {},
        }
    }
    id
}

/// The cutoff of a deep clean: `days` days before `now`.
pub open spec fn spec_cutoff_millis(now_millis: i64, days: i64) -> int {
    now_millis - clamp_i64(days * MILLIS_PER_DAY)
}

/// The time before which a conversation counts as old.
pub fn cutoff_millis(now_millis: i64, days: i64) -> (cutoff: i64)
    requires
        i64::MIN <= spec_cutoff_millis(now_millis, days) <= i64::MAX,
    ensures
        cutoff == spec_cutoff_millis(now_millis, days),
{
    now_millis - saturating_mul_i64(days, MILLIS_PER_DAY)
}

/// Row counts summed as `i64::saturating_add` sums them, left to right.
pub open spec fn saturating_total(counts: Seq<i64>) -> int
    decreases counts.len(),
{
    if counts.len() == 0 {
        0
    } else {
        clamp_i64(saturating_total(counts.drop_last()) + counts.last())
    }
}

/// What a scan has gathered.
pub struct ScanView {
    pub cutoff_millis: int,
    pub total_rows: int,
    pub scanned_rows: int,
    pub keys: Seq<Seq<char>>,
    pub total_bytes: int,
    pub aged: Set<Seq<char>>,
    pub recent: Set<Seq<char>>,
    pub unresolved: Seq<Seq<char>>,
}

/// The age of a stored value, where it is text or a blob.
pub open spec fn value_age(value: Option<Seq<u8>>, cutoff_millis: int) -> Option<bool> {
    match value {
        Some(bytes) => spec_classify_value_age(bytes, cutoff_millis),
        None => None,
    }
}

pub open spec fn value_length(value: Option<Seq<u8>>) -> int {
    match value {
        Some(bytes) => bytes.len() as int,
        None => 0,
    }
}

/// After a composer row: its conversation is marked old or recent by its
/// timestamps, and the row is chosen when old.
pub open spec fn after_composer_row(scan: ScanView, key: Seq<char>, value: Option<Seq<u8>>) -> ScanView {
    let age = value_age(value, scan.cutoff_millis);
    ScanView {
        aged: match (composer_of(key), age) {
            (Some(id), Some(true)) => scan.aged.insert(id),
            _ => scan.aged,
        },
        recent: match (composer_of(key), age) {
            (Some(id), Some(false)) => scan.recent.insert(id),
            _ => scan.recent,
        },
        keys: if age == Some(true) { scan.keys.push(key) } else { scan.keys },
        total_bytes: if age == Some(true) {
            clamp_i64(scan.total_bytes + value_length(value))
        } else {
            scan.total_bytes
        },
        ..scan
    }
}

/// After a child row: chosen when its conversation is old and not recent;
/// left for later when its conversation is neither.
pub open spec fn after_child_row(scan: ScanView, key: Seq<char>, length: i64) -> ScanView {
    match composer_of(key) {
        Some(id) if scan.recent.contains(id) => scan,
        Some(id) if scan.aged.contains(id) => ScanView {
            keys: scan.keys.push(key),
            total_bytes: clamp_i64(scan.total_bytes + length),
            ..scan
        },
        _ => ScanView { unresolved: scan.unresolved.push(key), ..scan },
    }
}

/// After the value of a row left for later: chosen when the value is old.
pub open spec fn after_unresolved_value(scan: ScanView, key: Seq<char>, value: Option<Seq<u8>>) -> ScanView {
    if value_age(value, scan.cutoff_millis) == Some(true) {
        ScanView {
            keys: scan.keys.push(key),
            total_bytes: clamp_i64(scan.total_bytes + value_length(value)),
            ..scan
        }
    } else {
        scan
    }
}

pub open spec fn opt_bytes(value: Option<&[u8]>) -> Option<Seq<u8>> {
    match value {
        Some(bytes) => Some(bytes@),
        None => None,
    }
}

/// The rows chosen for removal and the bytes their values take.
pub struct AgedKeySelection {
    pub keys: Vec<String>,
    pub total_bytes: i64,
}

/// A scan in progress.
pub struct AgedKeyScan {
    cutoff_millis: i64,
    total_rows: i64,
    scanned_rows: i64,
    keys: Vec<String>,
    total_bytes: i64,
    aged: TextSet,
    recent: TextSet,
    unresolved: Vec<String>,
}

pub open spec fn texts(strings: Seq<String>) -> Seq<Seq<char>> {
    strings.map_values(|s: String| s@)
}

impl View for AgedKeyScan {
    type V = ScanView;

    closed spec fn view(&self) -> ScanView {
        ScanView {
            cutoff_millis: self.cutoff_millis as int,
            total_rows: self.total_rows as int,
            scanned_rows: self.scanned_rows as int,
            keys: texts(self.keys@),
            total_bytes: self.total_bytes as int,
            aged: self.aged@,
            recent: self.recent@,
            unresolved: texts(self.unresolved@),
        }
    }
}

proof fn lemma_texts_push(strings: Seq<String>, s: String)
    ensures
        texts(strings.push(s)) == texts(strings).push(s@),
{
    assert(texts(strings.push(s)) =~= texts(strings).push(s@));
}

impl AgedKeyScan {
    pub closed spec fn wf(&self) -> bool {
        &&& self.aged.wf()
        &&& self.recent.wf()
        &&& self.scanned_rows >= 0
    }

    /// A scan with nothing seen yet, for the given cutoff and row counts.
    pub fn new(cutoff_millis: i64, composer_rows: i64, child_rows: &Vec<i64>) -> (scan: AgedKeyScan)
        ensures
            scan.wf(),
            scan@ == (ScanView {
                cutoff_millis: cutoff_millis as int,
                total_rows: clamp_i64(composer_rows + saturating_total(child_rows@)),
                scanned_rows: 0,
                keys: Seq::empty(),
                total_bytes: 0,
                aged: Set::empty(),
                recent: Set::empty(),
                unresolved: Seq::empty(),
            }),
    {
        let mut children: i64 = 0;
        let mut i: usize = 0;
        while i < child_rows.len()
            invariant
                i <= child_rows@.len(),
                children == saturating_total(child_rows@.subrange(0, i as int)),
            decreases child_rows@.len() - i,
        {
            assert(child_rows@.subrange(0, i + 1).drop_last() =~= child_rows@.subrange(0, i as int));
            children = saturating_add_i64(children, child_rows[i]);
            i += 1;
        }
        assert(child_rows@.subrange(0, child_rows@.len() as int) =~= child_rows@);
        let scan = AgedKeyScan {
            cutoff_millis,
            total_rows: saturating_add_i64(composer_rows, children),
            scanned_rows: 0,
            keys: Vec::new(),
            total_bytes: 0,
            aged: TextSet::new(),
            recent: TextSet::new(),
            unresolved: Vec::new(),
        };
        assert(texts(scan.keys@) =~= Seq::<Seq<char>>::empty());
        assert(texts(scan.unresolved@) =~= Seq::<Seq<char>>::empty());
        scan
    }

    /// How many rows the scan will see.
    pub fn total_rows(&self) -> (rows: i64)
        ensures
            rows == self@.total_rows,
    {
        self.total_rows
    }

    /// How many rows the scan has counted.
    pub fn scanned_rows(&self) -> (rows: i64)
        ensures
            rows == self@.scanned_rows,
    {
        self.scanned_rows
    }

    /// Counts one more row; says whether a progress report (and a look at
    /// cancellation) is due.
    pub fn count_row(&mut self) -> (report_due: bool)
        requires
            old(self).wf(),
        ensures
            final(self).wf(),
            final(self)@ == (ScanView { scanned_rows: clamp_i64(old(self)@.scanned_rows + 1), ..old(self)@ }),
            report_due == (final(self)@.scanned_rows % (SCAN_REPORT_INTERVAL as int) == 0),
    {
        self.scanned_rows = saturating_add_i64(self.scanned_rows, 1);
        self.scanned_rows % SCAN_REPORT_INTERVAL == 0
    }

    /// Takes in a composer row; `value` holds its bytes when it is text or
    /// a blob.
    pub fn observe_composer_row(&mut self, key: String, value: Option<&[u8]>)
        requires
            old(self).wf(),
            value_length(opt_bytes(value)) <= i64::MAX,
        ensures
            final(self).wf(),
            final(self)@ == after_composer_row(old(self)@, key@, opt_bytes(value)),
    {
        let (age, length) = match value {
            Some(bytes) => (classify_value_age(bytes, self.cutoff_millis), bytes.len() as i64),
            None => (None, 0i64),
        };
        match composer_of_key(key.as_str()) {
            Some(id) => match age {
                Some(true) => self.aged.insert(id.to_string()),
                Some(false) => self.recent.insert(id.to_string()),
                None => {},
            },
            None => {},
        }
        if age == Some(true) {
            proof {
                lemma_texts_push(self.keys@, key);
            }
            self.keys.push(key);
            self.total_bytes = saturating_add_i64(self.total_bytes, length);
        }
        assert(self@ == after_composer_row(old(self)@, key@, opt_bytes(value)));
    }

    /// Takes in a child row and the length of its value.
    pub fn observe_child_row(&mut self, key: String, length: i64)
        requires
            old(self).wf(),
        ensures
            final(self).wf(),
            final(self)@ == after_child_row(old(self)@, key@, length),
    {
        let (aged, unresolved) = match composer_of_key(key.as_str()) {
            Some(id) => if self.recent.contains(id) {
                (false, false)
            } else if self.aged.contains(id) {
                (true, false)
            } else {
                (false, true)
            },
            None => (false, true),
        };
        proof {
            lemma_texts_push(self.keys@, key);
            lemma_texts_push(self.unresolved@, key);
        }
        if aged {
            self.keys.push(key);
            self.total_bytes = saturating_add_i64(self.total_bytes, length);
        } else if unresolved {
            self.unresolved.push(key);
        }
    }

    /// Hands over the rows left for later, in the order they came.
    pub fn take_unresolved(&mut self) -> (keys: Vec<String>)
        requires
            old(self).wf(),
        ensures
            final(self).wf(),
            texts(keys@) == old(self)@.unresolved,
            final(self)@ == (ScanView { unresolved: Seq::empty(), ..old(self)@ }),
    {
        let mut keys: Vec<String> = Vec::new();
        std::mem::swap(&mut keys, &mut self.unresolved);
        assert(texts(self.unresolved@) =~= Seq::<Seq<char>>::empty());
        keys
    }

    /// Takes in the value of a row left for later; `None` when the row is
    /// gone or its value is neither text nor a blob.
    pub fn observe_unresolved_value(&mut self, key: String, value: Option<&[u8]>)
        requires
            old(self).wf(),
            value_length(opt_bytes(value)) <= i64::MAX,
        ensures
            final(self).wf(),
            final(self)@ == after_unresolved_value(old(self)@, key@, opt_bytes(value)),
    {
        match value {
            Some(bytes) => {
                if classify_value_age(bytes, self.cutoff_millis) == Some(true) {
                    proof {
                        lemma_texts_push(self.keys@, key);
                    }
                    self.keys.push(key);
                    self.total_bytes = saturating_add_i64(self.total_bytes, bytes.len() as i64);
                }
            },
            None => {},
        }
    }

    /// The rows chosen and the bytes their values take.
    pub fn finish(self) -> (selection: AgedKeySelection)
        ensures
            texts(selection.keys@) == self@.keys,
            selection.total_bytes == self@.total_bytes,
    {
        AgedKeySelection { keys: self.keys, total_bytes: self.total_bytes }
    }
}

/// The space a compaction would give back: the free pages times the page
/// size, never negative; an unreadable count counts as zero.
pub open spec fn spec_compaction_reclaim_bytes(freelist_pages: Option<i64>, page_size: Option<i64>) -> int {
    let product = clamp_i64(
        match freelist_pages {
            Some(n) => n as int,
            None => 0,
        } * match page_size {
            Some(n) => n as int,
            None => 0,
        },
    );
    if product < 0 {
        0
    } else {
        product
    }
}

/// The space a compaction would give back.
pub fn compaction_reclaim_bytes(freelist_pages: Option<i64>, page_size: Option<i64>) -> (bytes: i64)
    ensures
        bytes == spec_compaction_reclaim_bytes(freelist_pages, page_size),
{
    let pages = match freelist_pages {
        Some(n) => n,
        None => 0,
    };
    let size = match page_size {
        Some(n) => n,
        None => 0,
    };
    let product = saturating_mul_i64(pages, size);
    if product < 0 {
        0
    } else {
        product
    }
}

/// Rows once chosen stay chosen, in their order, whatever row comes next.
pub proof fn law_choices_only_grow(scan: ScanView, key: Seq<char>, value: Option<Seq<u8>>, length: i64)
    ensures
        after_composer_row(scan, key, value).keys.take(scan.keys.len() as int) == scan.keys,
        after_child_row(scan, key, length).keys.take(scan.keys.len() as int) == scan.keys,
        after_unresolved_value(scan, key, value).keys.take(scan.keys.len() as int) == scan.keys,
{
    assert(scan.keys.push(key).take(scan.keys.len() as int) =~= scan.keys);
    assert(scan.keys.take(scan.keys.len() as int) =~= scan.keys);
}

/// A row of a conversation that some composer row marked recent is never
/// chosen, nor left for later.
pub proof fn law_recent_conversations_are_kept(scan: ScanView, key: Seq<char>, length: i64)
    requires
        composer_of(key) matches Some(id) && scan.recent.contains(id),
    ensures
        after_child_row(scan, key, length) == scan,
{
}

/// A row of a conversation marked old, and never recent, is chosen with its
/// length.
pub proof fn law_old_conversations_are_taken(scan: ScanView, key: Seq<char>, length: i64)
    requires
        composer_of(key) matches Some(id) && scan.aged.contains(id) && !scan.recent.contains(id),
    ensures
        after_child_row(scan, key, length).keys == scan.keys.push(key),
        after_child_row(scan, key, length).total_bytes == clamp_i64(scan.total_bytes + length),
{
}

/// A composer row is chosen exactly when its newest timestamp is before the
/// cutoff.
pub proof fn law_composer_rows_chosen_by_age(scan: ScanView, key: Seq<char>, value: Option<Seq<u8>>)
    ensures
        (after_composer_row(scan, key, value).keys.len() > scan.keys.len()) == (value_age(value, scan.cutoff_millis)
            == Some(true)),
{
}

/// A scan that has seen nothing, for a cutoff.
pub open spec fn fresh_scan(cutoff_millis: int) -> ScanView {
    ScanView {
        cutoff_millis,
        total_rows: 0,
        scanned_rows: 0,
        keys: Seq::empty(),
        total_bytes: 0,
        aged: Set::empty(),
        recent: Set::empty(),
        unresolved: Seq::empty(),
    }
}

/// The scan after the composer rows, in order.
pub open spec fn composer_pass(scan: ScanView, rows: Seq<(Seq<char>, Option<Seq<u8>>)>) -> ScanView
    decreases rows.len(),
{
    if rows.len() == 0 {
        scan
    } else {
        after_composer_row(composer_pass(scan, rows.drop_last()), rows.last().0, rows.last().1)
    }
}

/// The scan after the child rows (key and value length), in order.
pub open spec fn child_pass(scan: ScanView, rows: Seq<(Seq<char>, i64)>) -> ScanView
    decreases rows.len(),
{
    if rows.len() == 0 {
        scan
    } else {
        after_child_row(child_pass(scan, rows.drop_last()), rows.last().0, rows.last().1)
    }
}

/// The scan after the values of the rows left for later, in order.
pub open spec fn value_pass(scan: ScanView, rows: Seq<(Seq<char>, Option<Seq<u8>>)>) -> ScanView
    decreases rows.len(),
{
    if rows.len() == 0 {
        scan
    } else {
        after_unresolved_value(value_pass(scan, rows.drop_last()), rows.last().0, rows.last().1)
    }
}

/// A whole scan: the composer rows, the child rows, then the values of
/// the rows left for later.
pub open spec fn whole_scan(
    cutoff_millis: int,
    composers: Seq<(Seq<char>, Option<Seq<u8>>)>,
    children: Seq<(Seq<char>, i64)>,
    values: Seq<(Seq<char>, Option<Seq<u8>>)>,
) -> ScanView {
    let after_children = child_pass(composer_pass(fresh_scan(cutoff_millis), composers), children);
    value_pass(ScanView { unresolved: Seq::empty(), ..after_children }, values)
}

/// The rows whose value is older than the cutoff, with their lengths.
pub open spec fn old_rows(rows: Seq<(Seq<char>, Option<Seq<u8>>)>, cutoff_millis: int) -> Seq<(Seq<char>, int)>
    decreases rows.len(),
{
    if rows.len() == 0 {
        Seq::empty()
    } else {
        old_rows(rows.drop_last(), cutoff_millis) + if value_age(rows.last().1, cutoff_millis) == Some(true) {
            seq![(rows.last().0, value_length(rows.last().1))]
        } else {
            Seq::empty()
        }
    }
}

/// A child row is taken when its conversation was marked old and never recent.
pub open spec fn child_taken(key: Seq<char>, aged: Set<Seq<char>>, recent: Set<Seq<char>>) -> bool {
    composer_of(key) matches Some(id) && !recent.contains(id) && aged.contains(id)
}

/// A child row is left for later when its conversation was marked neither.
pub open spec fn child_pending(key: Seq<char>, aged: Set<Seq<char>>, recent: Set<Seq<char>>) -> bool {
    match composer_of(key) {
        Some(id) => !recent.contains(id) && !aged.contains(id),
        None => true,
    }
}

pub open spec fn taken_children(rows: Seq<(Seq<char>, i64)>, aged: Set<Seq<char>>, recent: Set<Seq<char>>) -> Seq<(Seq<char>, int)>
    decreases rows.len(),
{
    if rows.len() == 0 {
        Seq::empty()
    } else {
        taken_children(rows.drop_last(), aged, recent) + if child_taken(rows.last().0, aged, recent) {
            seq![(rows.last().0, rows.last().1 as int)]
        } else {
            Seq::empty()
        }
    }
}

pub open spec fn pending_children(rows: Seq<(Seq<char>, i64)>, aged: Set<Seq<char>>, recent: Set<Seq<char>>) -> Seq<Seq<char>>
    decreases rows.len(),
{
    if rows.len() == 0 {
        Seq::empty()
    } else {
        pending_children(rows.drop_last(), aged, recent) + if child_pending(rows.last().0, aged, recent) {
            seq![rows.last().0]
        } else {
            Seq::empty()
        }
    }
}

pub open spec fn keys_of(rows: Seq<(Seq<char>, int)>) -> Seq<Seq<char>> {
    rows.map_values(|row: (Seq<char>, int)| row.0)
}

pub open spec fn value_keys(rows: Seq<(Seq<char>, Option<Seq<u8>>)>) -> Seq<Seq<char>> {
    rows.map_values(|row: (Seq<char>, Option<Seq<u8>>)| row.0)
}

pub open spec fn child_keys(rows: Seq<(Seq<char>, i64)>) -> Seq<Seq<char>> {
    rows.map_values(|row: (Seq<char>, i64)| row.0)
}

/// A byte total kept as `i64::saturating_add` keeps it, from `start`.
pub open spec fn running_total(start: int, rows: Seq<(Seq<char>, int)>) -> int
    decreases rows.len(),
{
    if rows.len() == 0 {
        start
    } else {
        clamp_i64(running_total(start, rows.drop_last()) + rows.last().1)
    }
}

proof fn lemma_running_total_concat(start: int, a: Seq<(Seq<char>, int)>, b: Seq<(Seq<char>, int)>)
    ensures
        running_total(start, a + b) == running_total(running_total(start, a), b),
    decreases b.len(),
{
    if b.len() == 0 {
        assert(a + b =~= a);
    } else {
        lemma_running_total_concat(start, a, b.drop_last());
        assert((a + b).drop_last() =~= a + b.drop_last());
        assert((a + b).last() == b.last());
    }
}

proof fn lemma_keys_of_concat(a: Seq<(Seq<char>, int)>, b: Seq<(Seq<char>, int)>)
    ensures
        keys_of(a + b) == keys_of(a) + keys_of(b),
{
    assert(keys_of(a + b) =~= keys_of(a) + keys_of(b));
}

proof fn lemma_composer_pass(scan: ScanView, rows: Seq<(Seq<char>, Option<Seq<u8>>)>)
    ensures
        composer_pass(scan, rows).keys == scan.keys + keys_of(old_rows(rows, scan.cutoff_millis)),
        composer_pass(scan, rows).total_bytes == running_total(scan.total_bytes, old_rows(rows, scan.cutoff_millis)),
        composer_pass(scan, rows).cutoff_millis == scan.cutoff_millis,
        composer_pass(scan, rows).unresolved == scan.unresolved,
    decreases rows.len(),
{
    if rows.len() == 0 {
        assert(scan.keys + keys_of(Seq::empty()) =~= scan.keys);
    } else {
        let prefix = rows.drop_last();
        lemma_composer_pass(scan, prefix);
        let before = old_rows(prefix, scan.cutoff_millis);
        let added: Seq<(Seq<char>, int)> = if value_age(rows.last().1, scan.cutoff_millis) == Some(true) {
            seq![(rows.last().0, value_length(rows.last().1))]
        } else {
            Seq::empty()
        };
        lemma_keys_of_concat(before, added);
        lemma_running_total_concat(scan.total_bytes, before, added);
        assert(old_rows(rows, scan.cutoff_millis) == before + added);
        let middle = running_total(scan.total_bytes, before);
        if added.len() == 1 {
            assert(added.drop_last() =~= Seq::<(Seq<char>, int)>::empty());
            assert(running_total(middle, added.drop_last()) == middle);
            assert(running_total(middle, added) == clamp_i64(middle + added.last().1));
        } else {
            assert(running_total(middle, added) == middle);
        }
        if added.len() == 1 {
            assert(keys_of(added) =~= seq![rows.last().0]);
            assert(added.drop_last() =~= Seq::<(Seq<char>, int)>::empty());
        } else {
            assert(keys_of(added) =~= Seq::<Seq<char>>::empty());
        }
        assert(composer_pass(scan, rows).keys =~= scan.keys + keys_of(old_rows(rows, scan.cutoff_millis)));
    }
}

proof fn lemma_child_pass(scan: ScanView, rows: Seq<(Seq<char>, i64)>)
    ensures
        child_pass(scan, rows).keys == scan.keys + keys_of(taken_children(rows, scan.aged, scan.recent)),
        child_pass(scan, rows).total_bytes == running_total(scan.total_bytes, taken_children(rows, scan.aged, scan.recent)),
        child_pass(scan, rows).unresolved == scan.unresolved + pending_children(rows, scan.aged, scan.recent),
        child_pass(scan, rows).cutoff_millis == scan.cutoff_millis,
        child_pass(scan, rows).aged == scan.aged,
        child_pass(scan, rows).recent == scan.recent,
    decreases rows.len(),
{
    if rows.len() == 0 {
        assert(scan.keys + keys_of(Seq::empty()) =~= scan.keys);
        assert(scan.unresolved + Seq::<Seq<char>>::empty() =~= scan.unresolved);
    } else {
        let prefix = rows.drop_last();
        lemma_child_pass(scan, prefix);
        let before = taken_children(prefix, scan.aged, scan.recent);
        let key = rows.last().0;
        let added: Seq<(Seq<char>, int)> = if child_taken(key, scan.aged, scan.recent) {
            seq![(key, rows.last().1 as int)]
        } else {
            Seq::empty()
        };
        let waiting: Seq<Seq<char>> = if child_pending(key, scan.aged, scan.recent) {
            seq![key]
        } else {
            Seq::empty()
        };
        lemma_keys_of_concat(before, added);
        lemma_running_total_concat(scan.total_bytes, before, added);
        assert(taken_children(rows, scan.aged, scan.recent) == before + added);
        let middle = running_total(scan.total_bytes, before);
        if added.len() == 1 {
            assert(added.drop_last() =~= Seq::<(Seq<char>, int)>::empty());
            assert(running_total(middle, added.drop_last()) == middle);
            assert(running_total(middle, added) == clamp_i64(middle + added.last().1));
        } else {
            assert(running_total(middle, added) == middle);
        }
        if added.len() == 1 {
            assert(keys_of(added) =~= seq![key]);
            assert(added.drop_last() =~= Seq::<(Seq<char>, int)>::empty());
        } else {
            assert(keys_of(added) =~= Seq::<Seq<char>>::empty());
        }
        assert(child_pass(scan, rows).keys =~= scan.keys + keys_of(taken_children(rows, scan.aged, scan.recent)));
        assert(child_pass(scan, rows).unresolved =~= scan.unresolved + pending_children(
            rows,
            scan.aged,
            scan.recent,
        ));
    }
}

proof fn lemma_value_pass(scan: ScanView, rows: Seq<(Seq<char>, Option<Seq<u8>>)>)
    ensures
        value_pass(scan, rows).keys == scan.keys + keys_of(old_rows(rows, scan.cutoff_millis)),
        value_pass(scan, rows).total_bytes == running_total(scan.total_bytes, old_rows(rows, scan.cutoff_millis)),
        value_pass(scan, rows).cutoff_millis == scan.cutoff_millis,
    decreases rows.len(),
{
    if rows.len() == 0 {
        assert(scan.keys + keys_of(Seq::empty()) =~= scan.keys);
    } else {
        let prefix = rows.drop_last();
        lemma_value_pass(scan, prefix);
        let before = old_rows(prefix, scan.cutoff_millis);
        let added: Seq<(Seq<char>, int)> = if value_age(rows.last().1, scan.cutoff_millis) == Some(true) {
            seq![(rows.last().0, value_length(rows.last().1))]
        } else {
            Seq::empty()
        };
        lemma_keys_of_concat(before, added);
        lemma_running_total_concat(scan.total_bytes, before, added);
        assert(old_rows(rows, scan.cutoff_millis) == before + added);
        let middle = running_total(scan.total_bytes, before);
        if added.len() == 1 {
            assert(added.drop_last() =~= Seq::<(Seq<char>, int)>::empty());
            assert(running_total(middle, added.drop_last()) == middle);
            assert(running_total(middle, added) == clamp_i64(middle + added.last().1));
        } else {
            assert(running_total(middle, added) == middle);
        }
        if added.len() == 1 {
            assert(keys_of(added) =~= seq![rows.last().0]);
            assert(added.drop_last() =~= Seq::<(Seq<char>, int)>::empty());
        } else {
            assert(keys_of(added) =~= Seq::<Seq<char>>::empty());
        }
        assert(value_pass(scan, rows).keys =~= scan.keys + keys_of(old_rows(rows, scan.cutoff_millis)));
    }
}

proof fn lemma_push_no_duplicates(s: Seq<Seq<char>>, x: Seq<char>)
    requires
        s.no_duplicates(),
        !s.contains(x),
    ensures
        s.push(x).no_duplicates(),
{
    assert forall|i: int, j: int| 0 <= i < s.len() + 1 && 0 <= j < s.len() + 1 && i != j implies s.push(x)[i]
        != s.push(x)[j] by {
        if i == s.len() as int {
            assert(s.push(x)[j] == s[j]);
        } else if j == s.len() as int {
            assert(s.push(x)[i] == s[i]);
        }
    }
}

proof fn lemma_concat_no_duplicates(a: Seq<Seq<char>>, b: Seq<Seq<char>>)
    requires
        a.no_duplicates(),
        b.no_duplicates(),
        forall|k: Seq<char>| !(a.contains(k) && b.contains(k)),
    ensures
        (a + b).no_duplicates(),
{
    assert forall|i: int, j: int| 0 <= i < (a + b).len() && 0 <= j < (a + b).len() && i != j implies (a
        + b)[i] != (a + b)[j] by {
        if i < a.len() && j >= a.len() {
            assert(a.contains((a + b)[i]));
            assert(b.contains((a + b)[j]));
        } else if j < a.len() && i >= a.len() {
            assert(a.contains((a + b)[j]));
            assert(b.contains((a + b)[i]));
        } else if i >= a.len() && j >= a.len() {
            assert((a + b)[i] == b[i - a.len()]);
            assert((a + b)[j] == b[j - a.len()]);
        }
    }
}

#[verifier::spinoff_prover]
proof fn lemma_old_rows_keys(rows: Seq<(Seq<char>, Option<Seq<u8>>)>, cutoff_millis: int)
    ensures
        forall|k: Seq<char>| keys_of(old_rows(rows, cutoff_millis)).contains(k) ==> value_keys(rows).contains(k),
        value_keys(rows).no_duplicates() ==> keys_of(old_rows(rows, cutoff_millis)).no_duplicates(),
    decreases rows.len(),
{
    if rows.len() > 0 {
        let prefix = rows.drop_last();
        lemma_old_rows_keys(prefix, cutoff_millis);
        let before = old_rows(prefix, cutoff_millis);
        let added: Seq<(Seq<char>, int)> = if value_age(rows.last().1, cutoff_millis) == Some(true) {
            seq![(rows.last().0, value_length(rows.last().1))]
        } else {
            Seq::empty()
        };
        lemma_keys_of_concat(before, added);
        assert(value_keys(rows) =~= value_keys(prefix).push(rows.last().0));
        assert(old_rows(rows, cutoff_millis) == before + added);
        assert forall|k: Seq<char>| keys_of(old_rows(rows, cutoff_millis)).contains(k) implies value_keys(
            rows,
        ).contains(k) by {
            let whole = keys_of(before) + keys_of(added);
            let i = choose|i: int| 0 <= i < whole.len() && whole[i] == k;
            if i < keys_of(before).len() {
                assert(keys_of(before)[i] == k);
                assert(keys_of(before).contains(k));
                assert(value_keys(prefix).contains(k));
                let j = choose|j: int| 0 <= j < value_keys(prefix).len() && value_keys(prefix)[j] == k;
                assert(value_keys(rows)[j] == k);
            } else {
                assert(keys_of(added)[i - keys_of(before).len()] == k);
                assert(k == rows.last().0);
                assert(value_keys(rows)[rows.len() - 1] == k);
            }
        }
        if value_keys(rows).no_duplicates() {
            assert(value_keys(prefix).no_duplicates()) by {
                assert forall|i: int, j: int| 0 <= i < value_keys(prefix).len() && 0 <= j < value_keys(
                    prefix,
                ).len() && i != j implies value_keys(prefix)[i] != value_keys(prefix)[j] by {
                    assert(value_keys(prefix)[i] == value_keys(rows)[i]);
                    assert(value_keys(prefix)[j] == value_keys(rows)[j]);
                }
            }
            if added.len() == 1 {
                assert(keys_of(added) =~= seq![rows.last().0]);
                if keys_of(before).contains(rows.last().0) {
                    assert(value_keys(prefix).contains(rows.last().0));
                    let j = choose|j: int| 0 <= j < value_keys(prefix).len() && value_keys(prefix)[j] == rows.last().0;
                    assert(value_keys(rows)[j] == value_keys(prefix)[j]);
                    assert(value_keys(rows)[rows.len() - 1] == rows.last().0);
                    assert(false);
                }
                lemma_push_no_duplicates(keys_of(before), rows.last().0);
                assert(keys_of(before) + keys_of(added) =~= keys_of(before).push(rows.last().0));
            } else {
                assert(keys_of(before) + keys_of(added) =~= keys_of(before));
            }
        }
    }
}

#[verifier::spinoff_prover]
#[verifier::rlimit(40)]
proof fn lemma_child_split(rows: Seq<(Seq<char>, i64)>, aged: Set<Seq<char>>, recent: Set<Seq<char>>)
    ensures
        forall|k: Seq<char>| keys_of(taken_children(rows, aged, recent)).contains(k) ==> child_keys(rows).contains(k),
        forall|k: Seq<char>| pending_children(rows, aged, recent).contains(k) ==> child_keys(rows).contains(k),
        child_keys(rows).no_duplicates() ==> {
            &&& keys_of(taken_children(rows, aged, recent)).no_duplicates()
            &&& pending_children(rows, aged, recent).no_duplicates()
            &&& forall|k: Seq<char>| !(keys_of(taken_children(rows, aged, recent)).contains(k)
                && pending_children(rows, aged, recent).contains(k))
        },
    decreases rows.len(),
{
    if rows.len() == 0 {
        assert(keys_of(taken_children(rows, aged, recent)) =~= Seq::<Seq<char>>::empty());
        assert(pending_children(rows, aged, recent) =~= Seq::<Seq<char>>::empty());
    } else {
        let prefix = rows.drop_last();
        let key = rows.last().0;
        lemma_child_split(prefix, aged, recent);
        let taken_before = keys_of(taken_children(prefix, aged, recent));
        let pending_before = pending_children(prefix, aged, recent);
        let added: Seq<(Seq<char>, int)> = if child_taken(key, aged, recent) {
            seq![(key, rows.last().1 as int)]
        } else {
            Seq::empty()
        };
        let waiting: Seq<Seq<char>> = if child_pending(key, aged, recent) {
            seq![key]
        } else {
            Seq::empty()
        };
        assert(taken_children(rows, aged, recent) == taken_children(prefix, aged, recent) + added);
        lemma_keys_of_concat(taken_children(prefix, aged, recent), added);
        let taken = keys_of(taken_children(rows, aged, recent));
        let pending = pending_children(rows, aged, recent);
        assert(pending == pending_before + waiting);
        assert(child_keys(rows) =~= child_keys(prefix).push(key));
        if added.len() == 1 {
            assert(taken =~= taken_before.push(key));
        } else {
            assert(taken =~= taken_before);
        }
        if waiting.len() == 1 {
            assert(pending =~= pending_before.push(key));
        } else {
            assert(pending =~= pending_before);
        }
        assert(!(added.len() == 1 && waiting.len() == 1));
        assert forall|k: Seq<char>| taken.contains(k) implies child_keys(rows).contains(k) by {
            let i = choose|i: int| 0 <= i < taken.len() && taken[i] == k;
            if i < taken_before.len() {
                assert(taken[i] == taken_before[i]);
                assert(taken_before.contains(k));
                assert(child_keys(prefix).contains(k));
                let j = choose|j: int| 0 <= j < child_keys(prefix).len() && child_keys(prefix)[j] == k;
                assert(child_keys(rows)[j] == k);
            } else {
                assert(child_keys(rows)[rows.len() - 1] == k);
            }
        }
        assert forall|k: Seq<char>| pending.contains(k) implies child_keys(rows).contains(k) by {
            let i = choose|i: int| 0 <= i < pending.len() && pending[i] == k;
            if i < pending_before.len() {
                assert(pending[i] == pending_before[i]);
                assert(pending_before.contains(k));
                assert(child_keys(prefix).contains(k));
                let j = choose|j: int| 0 <= j < child_keys(prefix).len() && child_keys(prefix)[j] == k;
                assert(child_keys(rows)[j] == k);
            } else {
                assert(child_keys(rows)[rows.len() - 1] == k);
            }
        }
        if child_keys(rows).no_duplicates() {
            assert(child_keys(prefix).no_duplicates()) by {
                assert forall|i: int, j: int| 0 <= i < child_keys(prefix).len() && 0 <= j < child_keys(
                    prefix,
                ).len() && i != j implies child_keys(prefix)[i] != child_keys(prefix)[j] by {
                    assert(child_keys(prefix)[i] == child_keys(rows)[i]);
                    assert(child_keys(prefix)[j] == child_keys(rows)[j]);
                }
            }
            assert(!child_keys(prefix).contains(key)) by {
                if child_keys(prefix).contains(key) {
                    let j = choose|j: int| 0 <= j < child_keys(prefix).len() && child_keys(prefix)[j] == key;
                    assert(child_keys(rows)[j] == child_keys(prefix)[j]);
                    assert(child_keys(rows)[rows.len() - 1] == key);
                }
            }
            assert(!taken_before.contains(key));
            assert(!pending_before.contains(key));
            if added.len() == 1 {
                lemma_push_no_duplicates(taken_before, key);
            }
            if waiting.len() == 1 {
                lemma_push_no_duplicates(pending_before, key);
            }
            assert forall|k: Seq<char>| !(taken.contains(k) && pending.contains(k)) by {
                if taken.contains(k) && pending.contains(k) {
                    let i = choose|i: int| 0 <= i < taken.len() && taken[i] == k;
                    let j = choose|j: int| 0 <= j < pending.len() && pending[j] == k;
                    if i < taken_before.len() {
                        assert(taken_before.contains(k));
                        if j < pending_before.len() {
                            assert(pending_before.contains(k));
                        } else {
                            assert(k == key);
                        }
                    } else {
                        assert(k == key);
                        if j < pending_before.len() {
                            assert(pending_before.contains(k));
                        }
                    }
                }
            }
        }
    }
}

proof fn lemma_concat_parts(a: Seq<Seq<char>>, b: Seq<Seq<char>>)
    requires
        (a + b).no_duplicates(),
    ensures
        a.no_duplicates(),
        b.no_duplicates(),
        forall|k: Seq<char>| !(a.contains(k) && b.contains(k)),
{
    assert forall|i: int, j: int| 0 <= i < a.len() && 0 <= j < a.len() && i != j implies a[i] != a[j] by {
        assert((a + b)[i] == a[i] && (a + b)[j] == a[j]);
    }
    assert forall|i: int, j: int| 0 <= i < b.len() && 0 <= j < b.len() && i != j implies b[i] != b[j] by {
        assert((a + b)[a.len() + i] == b[i] && (a + b)[a.len() + j] == b[j]);
    }
    assert forall|k: Seq<char>| !(a.contains(k) && b.contains(k)) by {
        if a.contains(k) && b.contains(k) {
            let i = choose|i: int| 0 <= i < a.len() && a[i] == k;
            let j = choose|j: int| 0 <= j < b.len() && b[j] == k;
            assert((a + b)[i] == k && (a + b)[a.len() + j] == k);
        }
    }
}

/// The rows that a whole scan chooses, with the lengths it counts: the
/// composer rows whose value is older than the cutoff; the child rows
/// whose conversation some composer row marked old and none marked
/// recent; and the rows left for later whose value is older than the
/// cutoff.
pub open spec fn chosen_rows(
    cutoff_millis: int,
    composers: Seq<(Seq<char>, Option<Seq<u8>>)>,
    children: Seq<(Seq<char>, i64)>,
    values: Seq<(Seq<char>, Option<Seq<u8>>)>,
) -> Seq<(Seq<char>, int)> {
    let marks = composer_pass(fresh_scan(cutoff_millis), composers);
    old_rows(composers, cutoff_millis) + taken_children(children, marks.aged, marks.recent) + old_rows(
        values,
        cutoff_millis,
    )
}

/// Over a whole scan, in the order the rows come: the rows left for later
/// are the child rows whose conversation no composer row marked; the rows
/// chosen are exactly `chosen_rows`, in that order; the byte total is their
/// lengths summed as `i64::saturating_add` sums them; and when every row
/// key is seen once and the rows left for later are looked up once each,
/// no row is chosen twice.
pub proof fn law_whole_scan_chooses_by_age(
    cutoff_millis: int,
    composers: Seq<(Seq<char>, Option<Seq<u8>>)>,
    children: Seq<(Seq<char>, i64)>,
    values: Seq<(Seq<char>, Option<Seq<u8>>)>,
)
    ensures
        child_pass(composer_pass(fresh_scan(cutoff_millis), composers), children).unresolved
            == pending_children(
            children,
            composer_pass(fresh_scan(cutoff_millis), composers).aged,
            composer_pass(fresh_scan(cutoff_millis), composers).recent,
        ),
        whole_scan(cutoff_millis, composers, children, values).keys == keys_of(
            chosen_rows(cutoff_millis, composers, children, values),
        ),
        whole_scan(cutoff_millis, composers, children, values).total_bytes == running_total(
            0,
            chosen_rows(cutoff_millis, composers, children, values),
        ),
        (value_keys(composers) + child_keys(children)).no_duplicates() && value_keys(values)
            == pending_children(
            children,
            composer_pass(fresh_scan(cutoff_millis), composers).aged,
            composer_pass(fresh_scan(cutoff_millis), composers).recent,
        ) ==> whole_scan(cutoff_millis, composers, children, values).keys.no_duplicates(),
{
    let start = fresh_scan(cutoff_millis);
    let marks = composer_pass(start, composers);
    lemma_composer_pass(start, composers);
    lemma_child_pass(marks, children);
    let after_children = child_pass(marks, children);
    let ready = ScanView { unresolved: Seq::empty(), ..after_children };
    lemma_value_pass(ready, values);
    let old1 = old_rows(composers, cutoff_millis);
    let taken = taken_children(children, marks.aged, marks.recent);
    let old3 = old_rows(values, cutoff_millis);
    assert(Seq::<Seq<char>>::empty() + pending_children(children, marks.aged, marks.recent)
        =~= pending_children(children, marks.aged, marks.recent));
    lemma_keys_of_concat(old1, taken);
    lemma_keys_of_concat(old1 + taken, old3);
    lemma_running_total_concat(0, old1, taken);
    lemma_running_total_concat(0, old1 + taken, old3);
    assert(Seq::<Seq<char>>::empty() + keys_of(old1) =~= keys_of(old1));
    assert(whole_scan(cutoff_millis, composers, children, values).keys =~= keys_of(old1 + taken + old3));
    if (value_keys(composers) + child_keys(children)).no_duplicates() && value_keys(values) == pending_children(
        children,
        marks.aged,
        marks.recent,
    ) {
        lemma_concat_parts(value_keys(composers), child_keys(children));
        lemma_old_rows_keys(composers, cutoff_millis);
        lemma_child_split(children, marks.aged, marks.recent);
        lemma_old_rows_keys(values, cutoff_millis);
        let k1 = keys_of(old1);
        let k2 = keys_of(taken);
        let k3 = keys_of(old3);
        let pending = pending_children(children, marks.aged, marks.recent);
        assert forall|k: Seq<char>| !(k1.contains(k) && k2.contains(k)) by {
            if k1.contains(k) && k2.contains(k) {
                assert(value_keys(composers).contains(k));
                assert(child_keys(children).contains(k));
            }
        }
        lemma_concat_no_duplicates(k1, k2);
        assert forall|k: Seq<char>| !((k1 + k2).contains(k) && k3.contains(k)) by {
            if (k1 + k2).contains(k) && k3.contains(k) {
                assert(value_keys(values).contains(k));
                assert(pending.contains(k));
                let i = choose|i: int| 0 <= i < (k1 + k2).len() && (k1 + k2)[i] == k;
                if i < k1.len() {
                    assert(k1[i] == k);
                    assert(k1.contains(k));
                    assert(value_keys(composers).contains(k));
                    assert(child_keys(children).contains(k));
                } else {
                    assert(k2[i - k1.len()] == k);
                    assert(k2.contains(k));
                }
            }
        }
        lemma_concat_no_duplicates(k1 + k2, k3);
    }
}

} // verus!
