//! Per-slot transaction schedule.

pub mod accounts;
pub mod batch_laws;
pub mod completion;
pub mod conflict;
pub mod dispatch;
pub mod intake;
pub mod laws;
pub mod model;
pub mod replies;
pub mod resolve;
pub mod step_laws;
pub mod turnover;
pub mod validity;

use crate::bindings::{PubkeysRegion, TransactionRegion};
use crate::validator::fallback_stage::RESET_TIMEOUT_MS;
use crate::validator::schedule::accounts::Accounts;
use crate::validator::schedule::model::{LookupsSpec, ScheduleSpec, Sent, TaskSpec, TaskState};
use crate::transaction::{Access, TransactionView};
use crate::tx_map::{tx_entries, tx_map_insert, tx_map_with_capacity, TxMap};
use std::collections::VecDeque;
use vstd::prelude::*;

verus! {

/// The keys that the lookup tables of a transaction stand for, and where they lie.
pub struct ResolvedKeys {
    pub region: PubkeysRegion,
    pub keys: Vec<[u8; 32]>,
}

impl View for ResolvedKeys {
    type V = LookupsSpec;

    open spec fn view(&self) -> LookupsSpec {
        LookupsSpec { region: self.region, keys: self.keys@ }
    }
}

/// The value inside an optional [`ResolvedKeys`].
pub open spec fn lookups_view(lookups: Option<ResolvedKeys>) -> Option<LookupsSpec> {
    match lookups {
        Some(lookups) => Some(lookups@),
        None => None,
    }
}

/// A node of the dependency graph: a transaction to execute.
struct Task {
    /// What the transaction holds.
    view: TransactionView,
    /// Whether it refers to address lookup tables.
    has_alts: bool,
    /// Resolved lookup keys from the CHECK response.
    alt_pubkeys: Option<ResolvedKeys>,
    /// Tasks that depend on this one.
    successors: Vec<usize>,
    /// Number of incomplete predecessors.
    pending: usize,
    /// Lifecycle stage.
    state: TaskState,
}

impl View for Task {
    type V = TaskSpec;

    closed spec fn view(&self) -> TaskSpec {
        TaskSpec {
            tx: self.view@,
            lookups: lookups_view(self.alt_pubkeys),
            state: self.state,
        }
    }
}

/// Per-slot scheduler state.
pub struct Schedule {
    /// First signature and region of each task.
    map: TxMap,
    /// Transactions to be executed.
    tasks: Vec<Task>,
    /// Per-account dependency state.
    accounts: Accounts,
    /// Next task to resolve.
    cursor: usize,
    /// Tasks awaiting CHECK dispatch for lookup resolution.
    unresolved: VecDeque<usize>,
    /// Globally ready tasks.
    ready: VecDeque<usize>,
    /// The last task assigned to each worker.
    tails: Vec<Option<usize>>,
    /// Count of batches in flight on workers.
    inflight: usize,
    /// Transactions sent to each worker for CHECK this slot.
    check_counts: Vec<usize>,
    /// Transactions sent to each worker for EXECUTE this slot.
    execute_counts: Vec<usize>,
    /// The accounts that the tasks behind the cursor use.
    accesses: Ghost<Seq<Seq<Access>>>,
    /// What was sent for EXECUTE.
    sent: Ghost<Seq<Sent>>,
}

impl View for Schedule {
    type V = ScheduleSpec;

    closed spec fn view(&self) -> ScheduleSpec {
        ScheduleSpec {
            entries: tx_entries(self.map),
            tasks: Seq::new(self.tasks@.len(), |t: int| self.tasks@[t]@),
            accesses: self.accesses@,
            unresolved: self.unresolved@,
            ready: self.ready@,
            tails: self.tails@,
            inflight: self.inflight,
            check_counts: self.check_counts@,
            execute_counts: self.execute_counts@,
            sent: self.sent@,
        }
    }
}

/// Whether `list` holds `id`.
fn list_contains(list: &[usize], id: usize) -> (result: bool)
    ensures
        result == list@.contains(id),
{
    let mut i: usize = 0;
    while i < list.len()
        invariant
            i <= list@.len(),
            forall|j: int| 0 <= j < i ==> list@[j] != id,
        decreases list.len() - i,
    {
        if list[i] == id {
            return true;
        }
        i = i + 1;
    }
    false
}

/// A vector that holds `value` `n` times.
fn filled<T: Copy>(value: T, n: usize) -> (result: Vec<T>)
    ensures
        result@ == Seq::new(n as nat, |i: int| value),
{
    let mut result: Vec<T> = Vec::new();
    let mut i: usize = 0;
    while i < n
        invariant
            i <= n,
            result@ =~= Seq::new(i as nat, |i: int| value),
        decreases n - i,
    {
        result.push(value);
        i = i + 1;
    }
    result
}

impl Schedule {
    /// The tasks and their links agree with the account history.
    spec fn links_wf(&self) -> bool {
        &&& self.cursor == self.accesses@.len()
        &&& self.accounts.tells(self.accesses@)
        &&& forall|t: int|
            0 <= t < self.tasks@.len() ==> (#[trigger] self.tasks@[t]).has_alts == (
            self.tasks@[t].view.num_lookups > 0)
        &&& forall|t: int|
            0 <= t < self.cursor ==> (#[trigger] self.tasks@[t]).successors@ == self@.successors(t)
                && self.tasks@[t].pending == self@.waiting_on(t).len()
        &&& forall|t: int|
            self.cursor <= t < self.tasks@.len() ==> (#[trigger] self.tasks@[t]).successors@.len()
                == 0 && self.tasks@[t].pending == 0
    }

    /// What every operation keeps.
    pub closed spec fn wf(&self) -> bool {
        &&& self@.wf()
        &&& self.links_wf()
    }

    /// A schedule that is well formed has a well-formed value, which is what the laws speak of.
    pub proof fn lemma_view_wf(&self)
        requires
            self.wf(),
        ensures
            self@.wf(),
    {
    }

    /// A schedule without tasks.
    pub fn new(num_workers: usize) -> (result: Self)
        ensures
            result.wf(),
            result@ == ScheduleSpec::empty(num_workers as nat),
    {
        let result = Schedule {
            map: tx_map_with_capacity(8192),
            tasks: Vec::new(),
            accounts: Accounts::new(),
            cursor: 0,
            unresolved: VecDeque::with_capacity(256),
            ready: VecDeque::with_capacity(1024),
            tails: filled(None, num_workers),
            inflight: 0,
            check_counts: filled(0, num_workers),
            execute_counts: filled(0, num_workers),
            accesses: Ghost(Seq::empty()),
            sent: Ghost(Seq::empty()),
        };
        proof {
            ScheduleSpec::lemma_empty_wf(num_workers as nat);
            let v = ScheduleSpec::empty(num_workers as nat);
            assert(result@.tasks =~= v.tasks);
            assert(result@.unresolved =~= v.unresolved);
            assert(result@.ready =~= v.ready);
            assert(result@.tails =~= v.tails);
            assert(result@.check_counts =~= v.check_counts);
            assert(result@.execute_counts =~= v.execute_counts);
        }
        result
    }

    /// True iff any batch is in flight on a worker.
    pub fn active(&self) -> (result: bool)
        ensures
            result == (self@.inflight != 0),
    {
        self.inflight != 0
    }

    /// Whether to wait on for replies before the schedule is cleared, `elapsed_ms` after that began.
    pub fn draining(&self, elapsed_ms: u64) -> (result: bool)
        ensures
            result == (self@.inflight != 0 && elapsed_ms < RESET_TIMEOUT_MS),
    {
        self.active() && elapsed_ms < RESET_TIMEOUT_MS
    }

    /// Inserts a transaction, and tells whether it is new. One whose signature is known changes
    /// nothing; its region is the caller's to free.
    pub fn insert_view(
        &mut self,
        region: TransactionRegion,
        key: [u8; 64],
        view: TransactionView,
    ) -> (fresh: bool)
        requires
            old(self).wf(),
        ensures
            final(self).wf(),
            fresh == !old(self)@.has_task(key),
            final(self)@ == old(self)@.insert(key, region, view@),
    {
        let has_alts = view.num_lookups > 0;
        let ghost tx = view@;
        match tx_map_insert(&mut self.map, key, region) {
            None => {
                false
            },
            Some(idx) => {
                self.tasks.push(
                    Task {
                        view,
                        has_alts,
                        alt_pubkeys: None,
                        successors: Vec::new(),
                        pending: 0,
                        state: TaskState::Unresolved,
                    },
                );
                if has_alts {
                    self.unresolved.push_back(idx);
                }
                proof {
                    assert(self.tasks.len() == old(self)@.tasks.len() + 1);
                    old(self)@.lemma_insert_wf(key, region, tx);
                    let v = old(self)@.insert(key, region, tx);
                    assert(self@.tasks =~= v.tasks);
                    assert(self@ == v);
                    assert forall|t: int| 0 <= t < self.cursor implies (
                    #[trigger] self.tasks@[t]).successors@ == self@.successors(t)
                        && self.tasks@[t].pending == self@.waiting_on(t).len() by {
                        assert(self.tasks@[t] == old(self).tasks@[t]);
                        assert(self@.waiting_on(t) =~= old(self)@.waiting_on(t));
                    }
                }
                true
            },
        }
    }
}

} // verus!
