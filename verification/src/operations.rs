//! Which database tasks may run together: reads run side by side, a write
//! runs alone, and an interrupted write blocks everything but its recovery.

use vstd::prelude::*;
use crate::json::{Value, Json, text, number_from_integer, boolean};
use crate::numbers::integer_json_chars;
use crate::text::{text_equals, to_owned_text};

verus! {

/// What a request does to the database.
#[derive(Clone, Copy, PartialEq, Eq, Debug, Structural)]
pub enum OperationAccess {
    Neutral,
    Read,
    Write,
}

pub open spec fn is_read_action(action: Seq<char>) -> bool {
    ||| action == "overview"@
    ||| action == "lightCleanAnalyze"@
    ||| action == "deepCleanAnalyze"@
    ||| action == "toolIntegrityCheck"@
    ||| action == "toolBackup"@
    ||| action == "quickSummary"@
    ||| action == "storageEstimate"@
}

pub open spec fn is_write_action(action: Seq<char>) -> bool {
    ||| action == "lightCleanRun"@
    ||| action == "deepCleanRun"@
    ||| action == "toolCheckpoint"@
    ||| action == "toolVacuum"@
    ||| action == "toolAnalyze"@
    ||| action == "toolFlushDatabase"@
    ||| action == "recoverOperations"@
}

pub open spec fn spec_classify_action(action: Seq<char>) -> OperationAccess {
    if is_read_action(action) {
        OperationAccess::Read
    } else if is_write_action(action) {
        OperationAccess::Write
    } else {
        OperationAccess::Neutral
    }
}

/// Whether an action reads the database, writes it, or leaves it alone.
pub fn classify_action(action: &str) -> (access: OperationAccess)
    ensures
        access == spec_classify_action(action@),
{
    if text_equals(action, "overview") || text_equals(action, "lightCleanAnalyze")
        || text_equals(action, "deepCleanAnalyze") || text_equals(action, "toolIntegrityCheck")
        || text_equals(action, "toolBackup") || text_equals(action, "quickSummary")
        || text_equals(action, "storageEstimate") {
        OperationAccess::Read
    } else if text_equals(action, "lightCleanRun") || text_equals(action, "deepCleanRun")
        || text_equals(action, "toolCheckpoint") || text_equals(action, "toolVacuum")
        || text_equals(action, "toolAnalyze") || text_equals(action, "toolFlushDatabase")
        || text_equals(action, "recoverOperations") {
        OperationAccess::Write
    } else {
        OperationAccess::Neutral
    }
}

pub open spec fn spec_operation_title(action: Seq<char>) -> Seq<char> {
    if action == "overview"@ {
        "Analyzing"@
    } else if action == "lightCleanAnalyze"@ {
        "Scanning"@
    } else if action == "deepCleanAnalyze"@ {
        "Calculating savings"@
    } else if action == "lightCleanRun"@ {
        "Cleaning up"@
    } else if action == "deepCleanRun"@ {
        "Deleting old conversations"@
    } else if action == "toolIntegrityCheck"@ {
        "Checking integrity"@
    } else if action == "toolCheckpoint"@ {
        "Flushing pending writes"@
    } else if action == "toolVacuum"@ {
        "Compacting"@
    } else if action == "toolAnalyze"@ {
        "Refreshing statistics"@
    } else if action == "toolFlushDatabase"@ {
        "Flushing database"@
    } else if action == "quickSummary"@ {
        "Reading storage"@
    } else if action == "storageEstimate"@ {
        "Checking storage"@
    } else if action == "recoverOperations"@ {
        "Recovering"@
    } else {
        "Working"@
    }
}

/// The title shown for a running action.
pub fn operation_title(action: &str) -> (title: String)
    ensures
        title@ == spec_operation_title(action@),
{
    let title = if text_equals(action, "overview") {
        "Analyzing"
    } else if text_equals(action, "lightCleanAnalyze") {
        "Scanning"
    } else if text_equals(action, "deepCleanAnalyze") {
        "Calculating savings"
    } else if text_equals(action, "lightCleanRun") {
        "Cleaning up"
    } else if text_equals(action, "deepCleanRun") {
        "Deleting old conversations"
    } else if text_equals(action, "toolIntegrityCheck") {
        "Checking integrity"
    } else if text_equals(action, "toolCheckpoint") {
        "Flushing pending writes"
    } else if text_equals(action, "toolVacuum") {
        "Compacting"
    } else if text_equals(action, "toolAnalyze") {
        "Refreshing statistics"
    } else if text_equals(action, "toolFlushDatabase") {
        "Flushing database"
    } else if text_equals(action, "quickSummary") {
        "Reading storage"
    } else if text_equals(action, "storageEstimate") {
        "Checking storage"
    } else if text_equals(action, "recoverOperations") {
        "Recovering"
    } else {
        "Working"
    };
    to_owned_text(title)
}


/// A task that has begun and not yet finished.
pub struct OperationSnapshot {
    pub request_id: i64,
    pub action: String,
    pub title: String,
    pub access: OperationAccess,
    pub started_millis: i64,
    pub progress: String,
}

/// The content of a running task.
pub struct OperationView {
    pub request_id: i64,
    pub action: Seq<char>,
    pub title: Seq<char>,
    pub access: OperationAccess,
    pub started_millis: i64,
    pub progress: Seq<char>,
}

impl View for OperationSnapshot {
    type V = OperationView;

    open spec fn view(&self) -> OperationView {
        OperationView {
            request_id: self.request_id,
            action: self.action@,
            title: self.title@,
            access: self.access,
            started_millis: self.started_millis,
            progress: self.progress@,
        }
    }
}

impl OperationSnapshot {
    /// A copy of this snapshot.
    pub fn duplicate(&self) -> (copy: OperationSnapshot)
        ensures
            copy@ == self@,
    {
        OperationSnapshot {
            request_id: self.request_id,
            action: self.action.clone(),
            title: self.title.clone(),
            access: self.access,
            started_millis: self.started_millis,
            progress: self.progress.clone(),
        }
    }
}

/// The tasks that run: at most one write, and reads by request id.
pub struct CoordinatorView {
    pub write: Option<OperationView>,
    pub reads: Map<i64, OperationView>,
    pub recovery_pending: bool,
}

pub open spec fn has_read(reads: Seq<OperationSnapshot>, id: i64) -> bool {
    exists|i: int| 0 <= i < reads.len() && reads[i].request_id == id
}

pub open spec fn read_index(reads: Seq<OperationSnapshot>, id: i64) -> int {
    choose|i: int| 0 <= i < reads.len() && reads[i].request_id == id
}

pub open spec fn reads_map(reads: Seq<OperationSnapshot>) -> Map<i64, OperationView> {
    Map::new(|id: i64| has_read(reads, id), |id: i64| reads[read_index(reads, id)]@)
}

pub open spec fn distinct_ids(reads: Seq<OperationSnapshot>) -> bool {
    forall|i: int, j: int|
        0 <= i < reads.len() && 0 <= j < reads.len() && i != j ==> reads[i].request_id
            != reads[j].request_id
}

/// Coordinates the tasks that touch the database.
pub struct OperationCoordinator {
    journal_path: String,
    active_write: Option<OperationSnapshot>,
    active_reads: Vec<OperationSnapshot>,
    recovery_pending: bool,
}

/// A task that has begun; finishing it releases its place.
pub struct OperationTicket {
    request_id: i64,
    action: String,
    access: OperationAccess,
}

impl OperationTicket {
    pub closed spec fn request_id(&self) -> i64 {
        self.request_id
    }

    pub closed spec fn action(&self) -> Seq<char> {
        self.action@
    }

    pub closed spec fn access(&self) -> OperationAccess {
        self.access
    }

    /// Releases the task's place in the coordinator; returns whether the
    /// journal of an interrupted write is to be removed.
    pub fn finish(self, coordinator: &mut OperationCoordinator, succeeded: bool) -> (remove_journal: bool)
        requires
            old(coordinator).wf(),
        ensures
            final(coordinator).wf(),
            final(coordinator)@ == old(coordinator)@.after_finish(
                self.request_id(),
                self.action(),
                self.access(),
                succeeded,
            ),
            final(coordinator).journal_location() == old(coordinator).journal_location(),
            remove_journal == (self.access() == OperationAccess::Write && succeeded),
    {
        coordinator.finish(self.request_id, self.action.as_str(), self.access, succeeded)
    }
}

impl CoordinatorView {
    /// The state after the task `request_id` ended.
    pub open spec fn after_finish(
        self,
        request_id: i64,
        action: Seq<char>,
        access: OperationAccess,
        succeeded: bool,
    ) -> CoordinatorView {
        match access {
            OperationAccess::Neutral => self,
            OperationAccess::Read => CoordinatorView { reads: self.reads.remove(request_id), ..self },
            OperationAccess::Write => CoordinatorView {
                write: match self.write {
                    Some(w) => if w.request_id == request_id {
                        None
                    } else {
                        Some(w)
                    },
                    None => None,
                },
                recovery_pending: !succeeded && action != "recoverOperations"@,
                ..self
            },
        }
    }

    /// Why a task may not begin now, if it may not.
    pub open spec fn refusal(self, action: Seq<char>) -> Option<Seq<char>> {
        let access = spec_classify_action(action);
        if self.recovery_pending && access != OperationAccess::Neutral && action
            != "recoverOperations"@ {
            Some("A previous task was interrupted and needs recovery."@)
        } else if access == OperationAccess::Read && self.write is Some {
            Some("Another task is running. Please wait for it to finish."@)
        } else if access == OperationAccess::Write && (self.write is Some || self.reads.dom().len()
            > 0) {
            Some("Another task is running. Please wait for it to finish."@)
        } else {
            None
        }
    }

    /// The state after the task began.
    pub open spec fn after_begin(self, request_id: i64, action: Seq<char>, now_millis: i64) -> CoordinatorView {
        let access = spec_classify_action(action);
        let snapshot = OperationView {
            request_id,
            action,
            title: spec_operation_title(action),
            access,
            started_millis: now_millis,
            progress: Seq::empty(),
        };
        match access {
            OperationAccess::Neutral => self,
            OperationAccess::Read => CoordinatorView { reads: self.reads.insert(request_id, snapshot), ..self },
            OperationAccess::Write => CoordinatorView {
                write: Some(snapshot),
                recovery_pending: true,
                ..self
            },
        }
    }
}

proof fn lemma_read_index(reads: Seq<OperationSnapshot>, id: i64, i: int)
    requires
        distinct_ids(reads),
        0 <= i < reads.len(),
        reads[i].request_id == id,
    ensures
        has_read(reads, id),
        read_index(reads, id) == i,
{
    let k = read_index(reads, id);
    assert(0 <= k < reads.len() && reads[k].request_id == id);
}

impl OperationCoordinator {
    pub closed spec fn view(&self) -> CoordinatorView {
        CoordinatorView {
            write: match self.active_write {
                Some(w) => Some(w@),
                None => None,
            },
            reads: reads_map(self.active_reads@),
            recovery_pending: self.recovery_pending,
        }
    }

    /// The order in which running reads are listed.
    pub closed spec fn read_order(&self) -> Seq<i64> {
        self.active_reads@.map_values(|snapshot: OperationSnapshot| snapshot.request_id)
    }

    pub closed spec fn journal_location(&self) -> Seq<char> {
        self.journal_path@
    }

    /// The coordinator keeps each read once, and never a read beside a write.
    pub closed spec fn wf(&self) -> bool {
        &&& distinct_ids(self.active_reads@)
        &&& self.active_write is Some ==> self.active_reads@.len() == 0
        &&& self.active_write matches Some(w) ==> w.access == OperationAccess::Write
        &&& forall|i: int| 0 <= i < self.active_reads@.len() ==> #[trigger] self.active_reads@[i].access == OperationAccess::Read
    }

    pub proof fn lemma_view_wf(&self)
        requires
            self.wf(),
        ensures
            self.view().reads.dom().finite(),
            self.view().write is Some ==> self.view().reads.dom().len() == 0,
            self.view().write matches Some(w) ==> w.access == OperationAccess::Write,
            forall|id: i64| #[trigger] self.view().reads.contains_key(id) ==> self.view().reads[id].access == OperationAccess::Read
                && self.view().reads[id].request_id == id,
            self.read_order().len() == self.view().reads.dom().len(),
            self.read_order().to_set() == self.view().reads.dom(),
            self.read_order().no_duplicates(),
    {
        let reads = self.active_reads@;
        let order = self.read_order();
        assert forall|id: i64| #[trigger] self.view().reads.contains_key(id) implies self.view().reads[id].access == OperationAccess::Read
            && self.view().reads[id].request_id == id by {
            let k = read_index(reads, id);
            assert(0 <= k < reads.len() && reads[k].request_id == id);
        }
        assert(order.no_duplicates()) by {
            assert forall|i: int, j: int| 0 <= i < order.len() && 0 <= j < order.len() && i != j implies order[i] != order[j] by {
                assert(order[i] == reads[i].request_id);
                assert(order[j] == reads[j].request_id);
            }
        }
        assert(order.to_set() =~= self.view().reads.dom()) by {
            assert forall|id: i64| order.to_set().contains(id) <==> self.view().reads.dom().contains(id) by {
                if order.to_set().contains(id) {
                    let k = choose|k: int| 0 <= k < order.len() && order[k] == id;
                    assert(reads[k].request_id == id);
                }
                if self.view().reads.dom().contains(id) {
                    let k = read_index(reads, id);
                    assert(order[k] == id);
                }
            }
        }
        order.unique_seq_to_set();
        assert(self.view().reads.dom().finite());
    }

    /// A coordinator with no running task; a journal left on disk means an
    /// earlier write was interrupted.
    pub fn new(journal_path: String, journal_exists: bool) -> (coordinator: OperationCoordinator)
        ensures
            coordinator.wf(),
            coordinator@.write is None,
            coordinator@.reads == Map::<i64, OperationView>::empty(),
            coordinator@.recovery_pending == journal_exists,
            coordinator.journal_location() == journal_path@,
    {
        let coordinator = OperationCoordinator {
            journal_path,
            active_write: None,
            active_reads: Vec::new(),
            recovery_pending: journal_exists,
        };
        assert(reads_map(coordinator.active_reads@) =~= Map::<i64, OperationView>::empty());
        coordinator
    }

    /// Where the journal of a running write is kept.
    pub fn journal_path(&self) -> (path: &str)
        ensures
            path@ == self.journal_location(),
    {
        self.journal_path.as_str()
    }

    /// Whether a write runs now; the window may not close meanwhile.
    pub fn has_running_write(&self) -> (running: bool)
        ensures
            running == (self@.write is Some),
    {
        self.active_write.is_some()
    }

    fn find_read(&self, request_id: i64) -> (index: Option<usize>)
        requires
            distinct_ids(self.active_reads@),
        ensures
            match index {
                Some(i) => i < self.active_reads@.len() && self.active_reads@[i as int].request_id
                    == request_id,
                None => !has_read(self.active_reads@, request_id),
            },
    {
        let mut i: usize = 0;
        while i < self.active_reads.len()
            invariant
                i <= self.active_reads@.len(),
                forall|k: int| 0 <= k < i ==> self.active_reads@[k].request_id != request_id,
            decreases self.active_reads@.len() - i,
        {
            if self.active_reads[i].request_id == request_id {
                return Some(i);
            }
            i += 1;
        }
        None
    }

    /// Begins the task `request_id`, or says why it may not run now. A write
    /// that begins marks recovery as pending until it finishes.
    pub fn begin(&mut self, request_id: i64, action: &str, now_millis: i64) -> (result: Result<
        OperationTicket,
        String,
    >)
        requires
            old(self).wf(),
        ensures
            final(self).wf(),
            final(self).journal_location() == old(self).journal_location(),
            match old(self)@.refusal(action@) {
                Some(message) => result matches Err(m) && m@ == message && final(self)@ == old(
                    self,
                )@,
                None => result matches Ok(ticket) && ticket.request_id() == request_id
                    && ticket.action() == action@ && ticket.access() == spec_classify_action(
                    action@,
                ) && final(self)@ == old(self)@.after_begin(request_id, action@, now_millis),
            },
    {
        proof {
            self.lemma_view_wf();
        }
        let access = classify_action(action);
        let title = operation_title(action);
        if self.recovery_pending && access != OperationAccess::Neutral && !text_equals(
            action,
            "recoverOperations",
        ) {
            return Err(to_owned_text("A previous task was interrupted and needs recovery."));
        }
        match access {
            OperationAccess::Neutral => {},
            OperationAccess::Read => {
                if self.active_write.is_some() {
                    return Err(to_owned_text("Another task is running. Please wait for it to finish."));
                }
                let snapshot = OperationSnapshot {
                    request_id,
                    action: to_owned_text(action),
                    title,
                    access,
                    started_millis: now_millis,
                    progress: String::new(),
                };
                let ghost before = self.active_reads@;
                let ghost snapshot_view = snapshot@;
                match self.find_read(request_id) {
                    Some(i) => {
                        self.active_reads.set(i, snapshot);
                        proof {
                            lemma_reads_replace(before, self.active_reads@, i as int, snapshot_view);
                        }
                    },
                    None => {
                        self.active_reads.push(snapshot);
                        proof {
                            lemma_reads_push(before, self.active_reads@, snapshot_view);
                        }
                    },
                }
            },
            OperationAccess::Write => {
                if self.active_write.is_some() || self.active_reads.len() > 0 {
                    return Err(to_owned_text("Another task is running. Please wait for it to finish."));
                }
                self.active_write = Some(
                    OperationSnapshot {
                        request_id,
                        action: to_owned_text(action),
                        title,
                        access,
                        started_millis: now_millis,
                        progress: String::new(),
                    },
                );
                self.recovery_pending = true;
            },
        }
        Ok(OperationTicket { request_id, action: to_owned_text(action), access })
    }

    /// Gives up a write that began but whose journal could not be saved.
    pub fn abandon_write(&mut self, journal_exists: bool)
        requires
            old(self).wf(),
        ensures
            final(self).wf(),
            final(self).journal_location() == old(self).journal_location(),
            final(self)@ == (CoordinatorView {
                write: None,
                recovery_pending: journal_exists,
                ..old(self)@
            }),
    {
        self.active_write = None;
        self.recovery_pending = journal_exists;
    }

    /// Records the progress text of a running task; returns the write's
    /// snapshot when the task is the running write, for its journal.
    pub fn update_progress(&mut self, request_id: i64, progress: &str) -> (journal: Option<
        OperationSnapshot,
    >)
        requires
            old(self).wf(),
        ensures
            final(self).wf(),
            final(self).journal_location() == old(self).journal_location(),
            final(self)@.recovery_pending == old(self)@.recovery_pending,
            final(self)@.write == match old(self)@.write {
                Some(w) => if w.request_id == request_id {
                    Some(OperationView { progress: progress@, ..w })
                } else {
                    Some(w)
                },
                None => None,
            },
            final(self)@.reads == if old(self)@.reads.contains_key(request_id) {
                old(self)@.reads.insert(
                    request_id,
                    OperationView { progress: progress@, ..old(self)@.reads[request_id] },
                )
            } else {
                old(self)@.reads
            },
            match journal {
                Some(snapshot) => final(self)@.write == Some(snapshot@) && snapshot.request_id
                    == request_id,
                None => !(old(self)@.write matches Some(w) && w.request_id == request_id),
            },
    {
        let mut journal = None;
        if let Some(active) = &mut self.active_write {
            if active.request_id == request_id {
                active.progress = to_owned_text(progress);
                journal = Some(active.duplicate());
            }
        }
        let ghost before = self.active_reads@;
        match self.find_read(request_id) {
            Some(i) => {
                let mut updated = self.active_reads[i].duplicate();
                updated.progress = to_owned_text(progress);
                let ghost updated_view = updated@;
                self.active_reads.set(i, updated);
                proof {
                    lemma_reads_replace(before, self.active_reads@, i as int, updated_view);
                    lemma_read_index(before, request_id, i as int);
                }
            },
            None => {},
        }
        journal
    }

    /// Ends the task `request_id`; returns whether the journal is to be
    /// removed, which is after a write that succeeded.
    pub fn finish(&mut self, request_id: i64, action: &str, access: OperationAccess, succeeded: bool) -> (remove_journal: bool)
        requires
            old(self).wf(),
        ensures
            final(self).wf(),
            final(self).journal_location() == old(self).journal_location(),
            final(self)@ == old(self)@.after_finish(request_id, action@, access, succeeded),
            remove_journal == (access == OperationAccess::Write && succeeded),
    {
        match access {
            OperationAccess::Neutral => {},
            OperationAccess::Read => {
                let ghost before = self.active_reads@;
                match self.find_read(request_id) {
                    Some(i) => {
                        self.active_reads.remove(i);
                        proof {
                            lemma_reads_remove(before, self.active_reads@, i as int);
                        }
                    },
                    None => {
                        assert(reads_map(before) =~= reads_map(before).remove(request_id));
                    },
                }
            },
            OperationAccess::Write => {
                let matches = match &self.active_write {
                    Some(active) => active.request_id == request_id,
                    None => false,
                };
                if matches {
                    self.active_write = None;
                }
                if succeeded {
                    self.recovery_pending = false;
                } else {
                    self.recovery_pending = !text_equals(action, "recoverOperations");
                }
            },
        }
        access == OperationAccess::Write && succeeded
    }
}

proof fn lemma_reads_replace(
    before: Seq<OperationSnapshot>,
    after: Seq<OperationSnapshot>,
    i: int,
    snapshot: OperationView,
)
    requires
        distinct_ids(before),
        0 <= i < before.len(),
        after == before.update(i, after[i]),
        after[i]@ == snapshot,
        after[i].request_id == before[i].request_id,
    ensures
        distinct_ids(after),
        reads_map(after) == reads_map(before).insert(before[i].request_id, snapshot),
{
    assert(distinct_ids(after)) by {
        assert forall|a: int, b: int| 0 <= a < after.len() && 0 <= b < after.len() && a != b implies after[a].request_id != after[b].request_id by {
            assert(after[a].request_id == before[a].request_id);
            assert(after[b].request_id == before[b].request_id);
        }
    }
    let id = before[i].request_id;
    assert forall|x: i64| has_read(after, x) <==> (has_read(before, x) || x == id) by {
        if has_read(after, x) {
            let k = choose|k: int| 0 <= k < after.len() && after[k].request_id == x;
            assert(before[k].request_id == x);
        }
        if has_read(before, x) {
            let k = choose|k: int| 0 <= k < before.len() && before[k].request_id == x;
            assert(after[k].request_id == x);
        }
        if x == id {
            assert(after[i].request_id == x);
        }
    }
    assert forall|x: i64| has_read(after, x) implies reads_map(after)[x] == reads_map(before).insert(id, snapshot)[x] by {
        let k = choose|k: int| 0 <= k < after.len() && after[k].request_id == x;
        lemma_read_index(after, x, k);
        if x != id {
            lemma_read_index(before, x, k);
            assert(k != i);
        } else {
            assert(k == i);
        }
    }
    assert(reads_map(after) =~= reads_map(before).insert(id, snapshot));
}

proof fn lemma_reads_push(before: Seq<OperationSnapshot>, after: Seq<OperationSnapshot>, snapshot: OperationView)
    requires
        distinct_ids(before),
        after.len() == before.len() + 1,
        forall|k: int| 0 <= k < before.len() ==> after[k] == before[k],
        after.last()@ == snapshot,
        !has_read(before, after.last().request_id),
    ensures
        distinct_ids(after),
        reads_map(after) == reads_map(before).insert(after.last().request_id, snapshot),
{
    let id = after.last().request_id;
    let n = before.len() as int;
    assert(distinct_ids(after)) by {
        assert forall|a: int, b: int| 0 <= a < after.len() && 0 <= b < after.len() && a != b implies after[a].request_id != after[b].request_id by {
            if a < n && b < n {
                assert(after[a] == before[a] && after[b] == before[b]);
            } else if a < n {
                assert(after[a] == before[a]);
            } else if b < n {
                assert(after[b] == before[b]);
            }
        }
    }
    assert forall|x: i64| has_read(after, x) <==> (has_read(before, x) || x == id) by {
        if has_read(after, x) {
            let k = choose|k: int| 0 <= k < after.len() && after[k].request_id == x;
            if k < n {
                assert(before[k].request_id == x);
            }
        }
        if has_read(before, x) {
            let k = choose|k: int| 0 <= k < before.len() && before[k].request_id == x;
            assert(after[k].request_id == x);
        }
        if x == id {
            assert(after[n].request_id == x);
        }
    }
    assert forall|x: i64| has_read(after, x) implies reads_map(after)[x] == reads_map(before).insert(id, snapshot)[x] by {
        let k = choose|k: int| 0 <= k < after.len() && after[k].request_id == x;
        lemma_read_index(after, x, k);
        if x != id {
            assert(k < n);
            assert(before[k] == after[k]);
            lemma_read_index(before, x, k);
        } else {
            assert(k == n);
        }
    }
    assert(reads_map(after) =~= reads_map(before).insert(id, snapshot));
}

proof fn lemma_reads_remove(before: Seq<OperationSnapshot>, after: Seq<OperationSnapshot>, i: int)
    requires
        distinct_ids(before),
        0 <= i < before.len(),
        after == before.remove(i),
    ensures
        distinct_ids(after),
        reads_map(after) == reads_map(before).remove(before[i].request_id),
{
    let id = before[i].request_id;
    assert forall|k: int| 0 <= k < after.len() implies after[k] == before[if k < i { k } else { k + 1 }] by {}
    assert(distinct_ids(after)) by {
        assert forall|a: int, b: int| 0 <= a < after.len() && 0 <= b < after.len() && a != b implies after[a].request_id != after[b].request_id by {
            let ia = if a < i { a } else { a + 1 };
            let ib = if b < i { b } else { b + 1 };
            assert(after[a] == before[ia]);
            assert(after[b] == before[ib]);
        }
    }
    assert forall|x: i64| has_read(after, x) <==> (has_read(before, x) && x != id) by {
        if has_read(after, x) {
            let k = choose|k: int| 0 <= k < after.len() && after[k].request_id == x;
            let ik = if k < i { k } else { k + 1 };
            assert(before[ik].request_id == x);
            assert(ik != i);
        }
        if has_read(before, x) && x != id {
            let k = choose|k: int| 0 <= k < before.len() && before[k].request_id == x;
            assert(k != i);
            let ak = if k < i { k } else { k - 1 };
            assert(after[ak] == before[k]);
        }
    }
    assert forall|x: i64| has_read(after, x) implies reads_map(after)[x] == reads_map(before)[x] by {
        let k = choose|k: int| 0 <= k < after.len() && after[k].request_id == x;
        lemma_read_index(after, x, k);
        let ik = if k < i { k } else { k + 1 };
        assert(before[ik] == after[k]);
        lemma_read_index(before, x, ik);
    }
    assert(reads_map(after) =~= reads_map(before).remove(id));
}


pub open spec fn access_label(access: OperationAccess) -> Seq<char> {
    match access {
        OperationAccess::Neutral => "neutral"@,
        OperationAccess::Read => "read"@,
        OperationAccess::Write => "write"@,
    }
}

/// `i64::saturating_sub`.
pub open spec fn saturating_difference(a: int, b: int) -> int {
    if a - b > i64::MAX {
        i64::MAX as int
    } else if a - b < i64::MIN {
        i64::MIN as int
    } else {
        a - b
    }
}

/// Division of integers that rounds toward zero, as `/` on `i64` does.
pub open spec fn quotient_toward_zero(a: int, b: int) -> int {
    if a >= 0 {
        a / b
    } else {
        -((-a) / b)
    }
}

/// Whole seconds since `started_millis`.
pub open spec fn elapsed_seconds(now_millis: int, started_millis: int) -> int {
    quotient_toward_zero(saturating_difference(now_millis, started_millis), 1000)
}

fn elapsed_seconds_between(now_millis: i64, started_millis: i64) -> (seconds: i64)
    ensures
        seconds == elapsed_seconds(now_millis as int, started_millis as int),
{
    let difference: i64 = match now_millis.checked_sub(started_millis) {
        Some(d) => d,
        None => if started_millis < 0 {
            i64::MAX
        } else {
            i64::MIN
        },
    };
    if difference >= 0 {
        difference / 1000
    } else {
        let magnitude: u64 = ((-(difference + 1)) as u64) + 1;
        -((magnitude / 1000) as i64)
    }
}

pub open spec fn number_json(value: int) -> Json {
    Json::Number(integer_json_chars(value))
}

/// How a running task is shown.
pub open spec fn snapshot_json(snapshot: OperationView, now_millis: int) -> Json {
    Json::Object(
        seq![
            ("requestId"@, number_json(snapshot.request_id as int)),
            ("action"@, Json::Text(snapshot.action)),
            ("title"@, Json::Text(snapshot.title)),
            ("access"@, Json::Text(access_label(snapshot.access))),
            ("startedMillis"@, number_json(snapshot.started_millis as int)),
            ("progress"@, Json::Text(snapshot.progress)),
            ("elapsedSeconds"@, number_json(elapsed_seconds(now_millis, snapshot.started_millis as int))),
        ],
    )
}

/// How the coordinator reports its state, with the journal found on disk.
pub open spec fn status_json(view: CoordinatorView, order: Seq<i64>, journal: Json, now_millis: int) -> Json {
    Json::Object(
        seq![
            ("recoveryPending"@, Json::Boolean(view.recovery_pending)),
            ("closeBlocked"@, Json::Boolean(view.write is Some)),
            ("activeWrite"@, match view.write {
                Some(w) => snapshot_json(w, now_millis),
                None => Json::Null,
            }),
            ("activeReads"@, Json::Array(order.map_values(|id: i64| snapshot_json(view.reads[id], now_millis)))),
            ("journal"@, journal),
        ],
    )
}

/// What the journal of a running write records.
pub open spec fn journal_json(
    snapshot: OperationView,
    now_millis: int,
    database_bytes: u64,
    write_ahead_log_bytes: u64,
) -> Json {
    Json::Object(
        seq![
            ("action"@, Json::Text(snapshot.action)),
            ("title"@, Json::Text(snapshot.title)),
            ("requestId"@, number_json(snapshot.request_id as int)),
            ("startedMillis"@, number_json(snapshot.started_millis as int)),
            ("updatedMillis"@, number_json(now_millis)),
            ("progress"@, Json::Text(snapshot.progress)),
            ("databaseBytes"@, number_json((database_bytes as i64) as int)),
            ("writeAheadLogBytes"@, number_json((write_ahead_log_bytes as i64) as int)),
        ],
    )
}

fn member(key: &str, value: Value) -> (entry: (String, Value))
    ensures
        entry.0@ == key@,
        entry.1 == value,
{
    (to_owned_text(key), value)
}

fn label_of(access: OperationAccess) -> (label: &'static str)
    ensures
        label@ == access_label(access),
{
    match access {
        OperationAccess::Neutral => "neutral",
        OperationAccess::Read => "read",
        OperationAccess::Write => "write",
    }
}

/// The document that shows a running task.
pub fn snapshot_value(snapshot: &OperationSnapshot, now_millis: i64) -> (value: Value)
    ensures
        value@ == snapshot_json(snapshot@, now_millis as int),
{
    let entries = vec![
        member("requestId", number_from_integer(snapshot.request_id)),
        member("action", text(snapshot.action.as_str())),
        member("title", text(snapshot.title.as_str())),
        member("access", text(label_of(snapshot.access))),
        member("startedMillis", number_from_integer(snapshot.started_millis)),
        member("progress", text(snapshot.progress.as_str())),
        member("elapsedSeconds", number_from_integer(elapsed_seconds_between(now_millis, snapshot.started_millis))),
    ];
    proof {
        crate::json::lemma_json_of_entries(entries@);
        assert(crate::json::json_of_entries(entries@) =~= snapshot_json(snapshot@, now_millis as int)->Object_0);
    }
    Value::Object(entries)
}

/// The document written to the journal of a running write.
pub fn journal_value(
    snapshot: &OperationSnapshot,
    now_millis: i64,
    database_bytes: u64,
    write_ahead_log_bytes: u64,
) -> (value: Value)
    ensures
        value@ == journal_json(snapshot@, now_millis as int, database_bytes, write_ahead_log_bytes),
{
    let entries = vec![
        member("action", text(snapshot.action.as_str())),
        member("title", text(snapshot.title.as_str())),
        member("requestId", number_from_integer(snapshot.request_id)),
        member("startedMillis", number_from_integer(snapshot.started_millis)),
        member("updatedMillis", number_from_integer(now_millis)),
        member("progress", text(snapshot.progress.as_str())),
        member("databaseBytes", number_from_integer(database_bytes as i64)),
        member("writeAheadLogBytes", number_from_integer(write_ahead_log_bytes as i64)),
    ];
    proof {
        crate::json::lemma_json_of_entries(entries@);
        assert(crate::json::json_of_entries(entries@) =~= journal_json(snapshot@, now_millis as int, database_bytes, write_ahead_log_bytes)->Object_0);
    }
    Value::Object(entries)
}

impl OperationCoordinator {
    /// The document that reports the running tasks and the journal.
    pub fn status_value(&self, journal: Value, now_millis: i64) -> (value: Value)
        requires
            self.wf(),
        ensures
            value@ == status_json(self@, self.read_order(), journal@, now_millis as int),
    {
        let active_write = match &self.active_write {
            Some(w) => snapshot_value(w, now_millis),
            None => Value::Null,
        };
        let mut reads: Vec<Value> = Vec::new();
        let mut i: usize = 0;
        while i < self.active_reads.len()
            invariant
                self.wf(),
                i <= self.active_reads@.len(),
                crate::json::json_of_items(reads@) == self.read_order().subrange(0, i as int).map_values(
                    |id: i64| snapshot_json(self@.reads[id], now_millis as int),
                ),
            decreases self.active_reads@.len() - i,
        {
            let item = snapshot_value(&self.active_reads[i], now_millis);
            let ghost before = reads@;
            reads.push(item);
            proof {
                assert(reads@.drop_last() =~= before);
                lemma_read_index(self.active_reads@, self.active_reads@[i as int].request_id, i as int);
                assert(self.read_order().subrange(0, i + 1).map_values(
                    |id: i64| snapshot_json(self@.reads[id], now_millis as int),
                ) =~= self.read_order().subrange(0, i as int).map_values(
                    |id: i64| snapshot_json(self@.reads[id], now_millis as int),
                ).push(snapshot_json(self.active_reads@[i as int]@, now_millis as int)));
            }
            i += 1;
        }
        assert(self.read_order().subrange(0, self.active_reads@.len() as int) =~= self.read_order());
        let ghost journal_view = journal@;
        let entries = vec![
            member("recoveryPending", boolean(self.recovery_pending)),
            member("closeBlocked", boolean(self.active_write.is_some())),
            member("activeWrite", active_write),
            member("activeReads", Value::Array(reads)),
            member("journal", journal),
        ];
        proof {
            crate::json::lemma_json_of_entries(entries@);
            assert(crate::json::json_of_entries(entries@) =~= status_json(self@, self.read_order(), journal_view, now_millis as int)->Object_0);
        }
        Value::Object(entries)
    }
}


/// While a write runs, no task that touches the database may begin; while
/// reads run, no write may begin.
pub proof fn law_write_runs_alone(state: CoordinatorView, action: Seq<char>)
    ensures
        state.write is Some && spec_classify_action(action) != OperationAccess::Neutral
            ==> state.refusal(action) is Some,
        state.reads.dom().len() > 0 && spec_classify_action(action) == OperationAccess::Write
            ==> state.refusal(action) is Some,
{
}

/// While an interrupted write awaits recovery, only the recovery and tasks
/// that leave the database alone may begin.
pub proof fn law_recovery_comes_first(state: CoordinatorView, action: Seq<char>)
    ensures
        state.recovery_pending && spec_classify_action(action) != OperationAccess::Neutral
            && action != "recoverOperations"@ ==> state.refusal(action) is Some,
{
}

/// Finishing a read that began brings the coordinator back to where it was.
pub proof fn law_read_finish_undoes_begin(
    state: CoordinatorView,
    request_id: i64,
    action: Seq<char>,
    now_millis: i64,
    succeeded: bool,
)
    requires
        spec_classify_action(action) == OperationAccess::Read,
        !state.reads.contains_key(request_id),
    ensures
        state.after_begin(request_id, action, now_millis).after_finish(
            request_id,
            action,
            OperationAccess::Read,
            succeeded,
        ) == state,
{
    let after = state.after_begin(request_id, action, now_millis).after_finish(
        request_id,
        action,
        OperationAccess::Read,
        succeeded,
    );
    assert(after.reads =~= state.reads);
}

/// After a write that was allowed to begin finishes, no write runs, and
/// recovery is pending exactly when it failed and was not itself the
/// recovery.
pub proof fn law_write_finish_settles_recovery(
    state: CoordinatorView,
    request_id: i64,
    action: Seq<char>,
    now_millis: i64,
    succeeded: bool,
)
    requires
        spec_classify_action(action) == OperationAccess::Write,
        state.refusal(action) is None,
    ensures
        state.after_begin(request_id, action, now_millis).after_finish(
            request_id,
            action,
            OperationAccess::Write,
            succeeded,
        ) == (CoordinatorView {
            write: None,
            recovery_pending: !succeeded && action != "recoverOperations"@,
            ..state
        }),
{
}

/// One call made on a coordinator: a task asked to begin, or the ticket at
/// position `ticket` among those not yet finished being finished.
pub enum CoordinatorEvent {
    Begin { request_id: i64, action: Seq<char>, now_millis: i64 },
    Finish { ticket: int, succeeded: bool },
}

/// A coordinator as `OperationCoordinator::new` makes it.
pub open spec fn fresh_view(journal_exists: bool) -> CoordinatorView {
    CoordinatorView { write: None, reads: Map::empty(), recovery_pending: journal_exists }
}

/// The state and the tickets not yet finished (request id and action, in
/// the order they were handed out) after one more call. A task that may
/// not begin gets no ticket.
pub open spec fn after_event(
    history: (CoordinatorView, Seq<(i64, Seq<char>)>),
    event: CoordinatorEvent,
) -> (CoordinatorView, Seq<(i64, Seq<char>)>) {
    let (state, open) = history;
    match event {
        CoordinatorEvent::Begin { request_id, action, now_millis } => if state.refusal(action) is None {
            (state.after_begin(request_id, action, now_millis), open.push((request_id, action)))
        } else {
            history
        },
        CoordinatorEvent::Finish { ticket, succeeded } => if 0 <= ticket < open.len() {
            let (request_id, action) = open[ticket];
            (
                state.after_finish(request_id, action, spec_classify_action(action), succeeded),
                open.remove(ticket),
            )
        } else {
            history
        },
    }
}

/// The state and unfinished tickets after a sequence of calls.
pub open spec fn replay(start: CoordinatorView, events: Seq<CoordinatorEvent>) -> (
    CoordinatorView,
    Seq<(i64, Seq<char>)>,
)
    decreases events.len(),
{
    if events.len() == 0 {
        (start, Seq::empty())
    } else {
        after_event(replay(start, events.drop_last()), events.last())
    }
}

/// Some ticket not yet finished is a write's.
pub open spec fn unfinished_write(open: Seq<(i64, Seq<char>)>) -> bool {
    exists|i: int| 0 <= i < open.len() && spec_classify_action(#[trigger] open[i].1) == OperationAccess::Write
}

/// A write runs exactly while one write ticket is unfinished, and it is
/// that ticket's task.
spec fn write_matches_tickets(state: CoordinatorView, open: Seq<(i64, Seq<char>)>) -> bool {
    &&& (state.write is Some <==> unfinished_write(open))
    &&& forall|i: int| 0 <= i < open.len() && spec_classify_action(#[trigger] open[i].1)
        == OperationAccess::Write ==> (state.write matches Some(w) && w.request_id == open[i].0)
    &&& forall|i: int, j: int|
        0 <= i < open.len() && 0 <= j < open.len() && spec_classify_action(#[trigger] open[i].1)
            == OperationAccess::Write && spec_classify_action(#[trigger] open[j].1)
            == OperationAccess::Write ==> i == j
}

proof fn lemma_event_keeps_write_matching(
    history: (CoordinatorView, Seq<(i64, Seq<char>)>),
    event: CoordinatorEvent,
)
    requires
        write_matches_tickets(history.0, history.1),
    ensures
        write_matches_tickets(after_event(history, event).0, after_event(history, event).1),
{
    let (state, open) = history;
    let (next, next_open) = after_event(history, event);
    match event {
        CoordinatorEvent::Begin { request_id, action, now_millis } => {
            if state.refusal(action) is None {
                let access = spec_classify_action(action);
                assert(next_open == open.push((request_id, action)));
                if access == OperationAccess::Write {
                    assert(state.write is None);
                    assert(!unfinished_write(open));
                    assert(spec_classify_action(next_open[open.len() as int].1) == OperationAccess::Write);
                    assert forall|i: int| 0 <= i < next_open.len() && spec_classify_action(
                        #[trigger] next_open[i].1,
                    ) == OperationAccess::Write implies i == open.len() by {
                        if i < open.len() {
                            assert(next_open[i] == open[i]);
                        }
                    }
                } else {
                    assert(next.write == state.write);
                    assert forall|i: int| 0 <= i < next_open.len() && spec_classify_action(
                        #[trigger] next_open[i].1,
                    ) == OperationAccess::Write implies i < open.len() && next_open[i] == open[i] by {
                        if i == open.len() {
                            assert(next_open[i].1 == action);
                        }
                    }
                    if unfinished_write(next_open) {
                        let i = choose|i: int| 0 <= i < next_open.len() && spec_classify_action(
                            #[trigger] next_open[i].1,
                        ) == OperationAccess::Write;
                        assert(spec_classify_action(open[i].1) == OperationAccess::Write);
                    }
                    if unfinished_write(open) {
                        let i = choose|i: int| 0 <= i < open.len() && spec_classify_action(
                            #[trigger] open[i].1,
                        ) == OperationAccess::Write;
                        assert(next_open[i] == open[i]);
                    }
                }
            }
        },
        CoordinatorEvent::Finish { ticket, succeeded } => {
            if 0 <= ticket < open.len() {
                let (request_id, action) = open[ticket];
                let access = spec_classify_action(action);
                assert(next_open == open.remove(ticket));
                assert forall|i: int| 0 <= i < next_open.len() implies #[trigger] next_open[i] == (if i
                    < ticket {
                    open[i]
                } else {
                    open[i + 1]
                }) by {}
                if access == OperationAccess::Write {
                    assert(next.write is None);
                    assert forall|i: int| 0 <= i < next_open.len() implies spec_classify_action(
                        #[trigger] next_open[i].1,
                    ) != OperationAccess::Write by {
                        let k = if i < ticket {
                            i
                        } else {
                            i + 1
                        };
                        assert(next_open[i] == open[k]);
                        assert(k != ticket);
                    }
                } else {
                    assert(next.write == state.write);
                    if unfinished_write(next_open) {
                        let i = choose|i: int| 0 <= i < next_open.len() && spec_classify_action(
                            #[trigger] next_open[i].1,
                        ) == OperationAccess::Write;
                        let k = if i < ticket {
                            i
                        } else {
                            i + 1
                        };
                        assert(next_open[i] == open[k]);
                    }
                    if unfinished_write(open) {
                        let k = choose|k: int| 0 <= k < open.len() && spec_classify_action(
                            #[trigger] open[k].1,
                        ) == OperationAccess::Write;
                        assert(k != ticket);
                        let i = if k < ticket {
                            k
                        } else {
                            k - 1
                        };
                        assert(next_open[i] == open[k]);
                    }
                    assert forall|i: int, j: int|
                        0 <= i < next_open.len() && 0 <= j < next_open.len()
                            && spec_classify_action(#[trigger] next_open[i].1)
                            == OperationAccess::Write && spec_classify_action(
                            #[trigger] next_open[j].1,
                        ) == OperationAccess::Write implies i == j by {
                        let ki = if i < ticket {
                            i
                        } else {
                            i + 1
                        };
                        let kj = if j < ticket {
                            j
                        } else {
                            j + 1
                        };
                        assert(next_open[i] == open[ki]);
                        assert(next_open[j] == open[kj]);
                    }
                    assert forall|i: int| 0 <= i < next_open.len() && spec_classify_action(
                        #[trigger] next_open[i].1,
                    ) == OperationAccess::Write implies (next.write matches Some(w) && w.request_id
                        == next_open[i].0) by {
                        let k = if i < ticket {
                            i
                        } else {
                            i + 1
                        };
                        assert(next_open[i] == open[k]);
                    }
                }
            }
        },
    }
}

proof fn lemma_replay_keeps_write_matching(journal_exists: bool, events: Seq<CoordinatorEvent>)
    ensures
        write_matches_tickets(
            replay(fresh_view(journal_exists), events).0,
            replay(fresh_view(journal_exists), events).1,
        ),
    decreases events.len(),
{
    if events.len() > 0 {
        lemma_replay_keeps_write_matching(journal_exists, events.drop_last());
        lemma_event_keeps_write_matching(
            replay(fresh_view(journal_exists), events.drop_last()),
            events.last(),
        );
    }
}

/// Over any sequence of tasks begun and tickets finished on a fresh
/// coordinator, a write runs, and the window may not close, exactly while
/// some write task that began has not finished.
pub proof fn law_running_write_is_an_unfinished_write(
    journal_exists: bool,
    events: Seq<CoordinatorEvent>,
    order: Seq<i64>,
    journal: Json,
    now_millis: int,
)
    ensures
        replay(fresh_view(journal_exists), events).0.write is Some <==> unfinished_write(
            replay(fresh_view(journal_exists), events).1,
        ),
        status_json(replay(fresh_view(journal_exists), events).0, order, journal, now_millis)->Object_0[1]
            == ("closeBlocked"@, Json::Boolean(unfinished_write(replay(fresh_view(journal_exists), events).1))),
{
    lemma_replay_keeps_write_matching(journal_exists, events);
}

} // verus!
