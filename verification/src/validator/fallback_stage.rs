//! Builds a block from stored transactions where the block engine sends none.

use crate::bindings::{
    message_views, ExecutionResponse, PackMessage, PackMessageSpec, Reply, Responses,
    TransactionRegion, BANK_NOT_AVAILABLE, EXECUTE, INCLUDED, MAX_WORKING_SLOT_EXCEEDED, PROCESSED,
    WOULD_EXCEED_MAX_BLOCK_COST_LIMIT,
};
use crate::consts::PACK_TO_WORKER_CAPACITY;
use std::collections::VecDeque;
use vstd::prelude::*;

verus! {

/// Per-slot counters.
#[derive(Clone, Copy, Debug, PartialEq, Eq, Structural)]
pub struct Metrics {
    /// Transactions inserted.
    pub total: usize,
    /// Transactions that landed.
    pub success: usize,
    /// Transactions that did not land.
    pub fail: usize,
    /// Transactions that were dropped without landing.
    pub dropped: usize,
}

impl Metrics {
    /// Nothing counted.
    pub open spec fn zero() -> Self {
        Metrics { total: 0, success: 0, fail: 0, dropped: 0 }
    }
}

/// What a fallback stage holds.
pub struct FallbackSpec {
    /// The transactions that wait for a worker.
    pub txs: Seq<TransactionRegion>,
    pub num_workers: int,
    /// The worker whose turn it is.
    pub next_worker: int,
    /// The number of messages that workers have not answered.
    pub processing: usize,
    /// Nothing more can land in this slot.
    pub slot_end: bool,
    pub metrics: Metrics,
}

/// A response that shows that the block takes no more.
pub open spec fn ends_slot(response: ExecutionResponse) -> bool {
    response.not_included_reason == WOULD_EXCEED_MAX_BLOCK_COST_LIMIT
        || response.not_included_reason == BANK_NOT_AVAILABLE
}

impl FallbackSpec {
    /// A stage without transactions.
    pub open spec fn fresh(num_workers: usize) -> Self {
        FallbackSpec {
            txs: Seq::empty(),
            num_workers: num_workers as int,
            next_worker: 0,
            processing: 0,
            slot_end: false,
            metrics: Metrics::zero(),
        }
    }

    /// The worker whose turn it is exists, where there is any.
    pub open spec fn wf(self) -> bool {
        &&& 0 <= self.next_worker
        &&& self.next_worker < self.num_workers || (self.num_workers == 0 && self.next_worker == 0)
        &&& self.num_workers * PACK_TO_WORKER_CAPACITY < usize::MAX
    }

    /// Every transaction that came in is waiting, on a worker, or counted as ended in one of three
    /// ways.
    pub open spec fn balanced(self) -> bool {
        self.metrics.total == self.metrics.success + self.metrics.fail + self.metrics.dropped
            + self.processing + self.txs.len()
    }

    /// The first worker with room, beginning `k` places behind the one whose turn it is.
    pub open spec fn pick(self, room: Seq<usize>, k: int) -> Option<int>
        decreases self.num_workers - k,
    {
        if k >= self.num_workers {
            None
        } else {
            let w = (self.next_worker + k) % self.num_workers;
            if room[w] > 0 {
                Some(w)
            } else {
                self.pick(room, k + 1)
            }
        }
    }

    /// Takes transactions in.
    pub open spec fn enqueue(self, txs: Seq<TransactionRegion>) -> Self {
        FallbackSpec {
            txs: self.txs + txs,
            metrics: Metrics {
                total: (self.metrics.total + txs.len()) as usize,
                ..self.metrics
            },
            ..self
        }
    }

    /// Another transaction may be sent.
    pub open spec fn may_send(self) -> bool {
        &&& !self.slot_end
        &&& self.processing <= PACK_TO_WORKER_CAPACITY * self.num_workers
        &&& self.txs.len() > 0
    }

    /// Sends the oldest transaction to worker `w`.
    pub open spec fn send(self, w: int) -> Self {
        FallbackSpec {
            txs: self.txs.drop_first(),
            processing: (self.processing + 1) as usize,
            next_worker: (w + 1) % self.num_workers,
            ..self
        }
    }

    /// Sends one transaction after another, in turn to the workers that have room.
    pub open spec fn send_all(self, room: Seq<usize>) -> Self
        decreases self.txs.len(),
    {
        match self.pick(room, 0) {
            Some(w) if self.may_send() => self.send(w).send_all(
                room.update(w, (room[w] - 1) as usize),
            ),
            _ => self,
        }
    }

    /// The messages that sending one transaction after another makes.
    pub open spec fn messages(self, slot: u64, room: Seq<usize>) -> Seq<PackMessageSpec>
        decreases self.txs.len(),
    {
        match self.pick(room, 0) {
            Some(w) if self.may_send() => seq![
                PackMessageSpec {
                    worker: w,
                    flags: EXECUTE,
                    max_working_slot: slot,
                    batch: seq![self.txs[0]],
                },
            ] + self.send(w).messages(slot, room.update(w, (room[w] - 1) as usize)),
            _ => Seq::empty(),
        }
    }

    /// Takes one response.
    pub open spec fn count(self, response: ExecutionResponse) -> Self {
        if response.not_included_reason == INCLUDED {
            FallbackSpec {
                metrics: Metrics { success: (self.metrics.success + 1) as usize, ..self.metrics },
                ..self
            }
        } else {
            FallbackSpec {
                metrics: Metrics { fail: (self.metrics.fail + 1) as usize, ..self.metrics },
                slot_end: self.slot_end || ends_slot(response),
                ..self
            }
        }
    }

    /// Takes the first `n` responses.
    pub open spec fn count_all(self, responses: Seq<ExecutionResponse>, n: nat) -> Self
        decreases n,
    {
        if n == 0 {
            self
        } else {
            self.count_all(responses, (n - 1) as nat).count(responses[n - 1])
        }
    }

    /// How many transactions of `reply` are over.
    pub open spec fn num_over(reply: Reply) -> nat {
        if reply.processed_code == MAX_WORKING_SLOT_EXCEEDED {
            reply.batch@.len()
        } else {
            match reply.responses {
                Responses::Execution(list) => if reply.batch@.len() <= list@.len() {
                    reply.batch@.len()
                } else {
                    list@.len()
                },
                _ => 0,
            }
        }
    }

    /// Whether a worker may send `reply`: something is in flight, and the transactions were
    /// executed or came too late. The counters have room.
    pub open spec fn accepts(self, reply: Reply) -> bool {
        &&& self.processing > 0
        &&& if reply.processed_code == MAX_WORKING_SLOT_EXCEEDED {
            self.metrics.dropped + reply.batch@.len() <= usize::MAX
        } else {
            &&& reply.processed_code == PROCESSED
            &&& reply.responses is Execution
            &&& self.metrics.success + Self::num_over(reply) <= usize::MAX
            &&& self.metrics.fail + Self::num_over(reply) <= usize::MAX
        }
    }

    /// The stage after `reply`.
    pub open spec fn after(self, reply: Reply) -> Self {
        let answered = FallbackSpec { processing: (self.processing - 1) as usize, ..self };
        if reply.processed_code == MAX_WORKING_SLOT_EXCEEDED {
            FallbackSpec {
                metrics: Metrics {
                    dropped: (self.metrics.dropped + reply.batch@.len()) as usize,
                    ..self.metrics
                },
                ..answered
            }
        } else {
            match reply.responses {
                Responses::Execution(list) => answered.count_all(list@, Self::num_over(reply)),
                _ => answered,
            }
        }
    }

    /// The stage after the first `n` of `replies`, in turn.
    pub open spec fn after_all(self, replies: Seq<Reply>, n: nat) -> Self
        decreases n,
    {
        if n == 0 {
            self
        } else {
            self.after_all(replies, (n - 1) as nat).after(replies[n - 1])
        }
    }

    /// Whether workers may send the first `n` of `replies`, in turn.
    pub open spec fn accepts_all(self, replies: Seq<Reply>, n: nat) -> bool
        decreases n,
    {
        n == 0 || (self.accepts_all(replies, (n - 1) as nat) && self.after_all(
            replies,
            (n - 1) as nat,
        ).accepts(replies[n - 1]))
    }

    /// The regions that the first `n` of `replies` give back.
    pub open spec fn over_all(replies: Seq<Reply>, n: nat) -> Seq<TransactionRegion>
        decreases n,
    {
        if n == 0 {
            Seq::empty()
        } else {
            Self::over_all(replies, (n - 1) as nat) + Seq::new(
                Self::num_over(replies[n - 1]),
                |k: int| replies[n - 1].batch@[k].region,
            )
        }
    }

    /// The counters when the slot is over: what waits is dropped.
    pub open spec fn final_metrics(self) -> Metrics {
        Metrics { dropped: (self.metrics.dropped + self.txs.len()) as usize, ..self.metrics }
    }

    /// The stage at the start of the next slot.
    pub open spec fn cleared(self) -> Self {
        FallbackSpec { txs: Seq::empty(), metrics: Metrics::zero(), slot_end: false, ..self }
    }
}

impl FallbackSpec {
    /// Sending changes nothing about the number of workers.
    pub proof fn lemma_send_all_frame(self, room: Seq<usize>)
        ensures
            self.send_all(room).num_workers == self.num_workers,
        decreases self.txs.len(),
    {
        if let Some(w) = self.pick(room, 0) {
            if self.may_send() {
                self.send(w).lemma_send_all_frame(room.update(w, (room[w] - 1) as usize));
            }
        }
    }

    /// Replies that may come may also come one by one.
    pub proof fn lemma_accepts_prefix(self, replies: Seq<Reply>, m: nat, n: nat)
        requires
            m <= n,
            self.accepts_all(replies, n),
        ensures
            self.accepts_all(replies, m),
        decreases n,
    {
        if m < n {
            self.lemma_accepts_prefix(replies, m, (n - 1) as nat);
        }
    }

    /// A reply changes nothing about the number of workers.
    pub proof fn lemma_after_frame(self, reply: Reply)
        ensures
            self.after(reply).num_workers == self.num_workers,
    {
        let answered = FallbackSpec { processing: (self.processing - 1) as usize, ..self };
        if let Responses::Execution(list) = reply.responses {
            answered.lemma_count_all_frame(list@, Self::num_over(reply));
        }
    }

    proof fn lemma_count_all_frame(self, responses: Seq<ExecutionResponse>, n: nat)
        ensures
            self.count_all(responses, n).num_workers == self.num_workers,
        decreases n,
    {
        if n > 0 {
            self.lemma_count_all_frame(responses, (n - 1) as nat);
        }
    }
}

/// Sends stored transactions to the workers, one by one and in turn.
pub struct FallbackStage {
    /// Transactions that wait for a worker.
    txs: VecDeque<TransactionRegion>,
    /// How many workers there are.
    num_workers: usize,
    /// Next worker for round-robin dispatch.
    next_worker: usize,
    /// Dispatched message count.
    processing: usize,
    /// Reached the end of the slot.
    slot_end: bool,
    /// Per-slot metrics.
    metrics: Metrics,
}

/// For how long a stage waits for the last replies of a slot.
pub const RESET_TIMEOUT_MS: u64 = 25;

impl View for FallbackStage {
    type V = FallbackSpec;

    closed spec fn view(&self) -> FallbackSpec {
        FallbackSpec {
            txs: self.txs@,
            num_workers: self.num_workers as int,
            next_worker: self.next_worker as int,
            processing: self.processing,
            slot_end: self.slot_end,
            metrics: self.metrics,
        }
    }
}

impl FallbackStage {
    /// A stage without transactions.
    pub fn new(num_workers: usize) -> (result: Self)
        requires
            num_workers * PACK_TO_WORKER_CAPACITY < usize::MAX,
        ensures
            result@.wf(),
            result@ == FallbackSpec::fresh(num_workers),
    {
        let result = FallbackStage {
            txs: VecDeque::with_capacity(1024),
            num_workers,
            next_worker: 0,
            processing: 0,
            slot_end: false,
            metrics: Metrics { total: 0, success: 0, fail: 0, dropped: 0 },
        };
        assert(result@.txs =~= Seq::empty());
        result
    }

    /// Whether transactions wait for a worker.
    pub fn backpressured(&self) -> (result: bool)
        ensures
            result == (self@.txs.len() != 0),
    {
        self.txs.len() != 0
    }

    /// Nothing more can land this slot, so the stage can end early.
    pub fn done(&self) -> (result: bool)
        ensures
            result == self@.slot_end,
    {
        self.slot_end
    }

    /// The counters of this slot.
    pub fn metrics(&self) -> (result: Metrics)
        ensures
            result == self@.metrics,
    {
        self.metrics
    }

    /// The number of messages that workers have not answered.
    pub fn processing(&self) -> (result: usize)
        ensures
            result == self@.processing,
    {
        self.processing
    }

    /// Advances the pipeline: takes transactions in and sends what waits, then takes the replies that
    /// have come. Returns the messages to send and the regions to free.
    pub fn tick(
        &mut self,
        slot: u64,
        txs: &[TransactionRegion],
        room: &[usize],
        replies: &[Reply],
    ) -> (result: (Vec<PackMessage>, Vec<TransactionRegion>))
        requires
            old(self)@.wf(),
            room@.len() >= old(self)@.num_workers,
            old(self)@.metrics.total + txs@.len() <= usize::MAX,
            old(self)@.enqueue(txs@).send_all(room@).accepts_all(replies@, replies@.len()),
        ensures
            final(self)@.wf(),
            final(self)@ == old(self)@.enqueue(txs@).send_all(room@).after_all(
                replies@,
                replies@.len(),
            ),
            message_views(result.0@) == old(self)@.enqueue(txs@).messages(slot, room@),
            result.1@ == FallbackSpec::over_all(replies@, replies@.len()),
    {
        let messages = self.execute(slot, txs, room);
        let ghost start = self@;
        let mut freed: Vec<TransactionRegion> = Vec::new();
        let mut k: usize = 0;
        while k < replies.len()
            invariant
                k <= replies@.len(),
                self@.wf(),
                start.accepts_all(replies@, replies@.len()),
                self@ == start.after_all(replies@, k as nat),
                freed@ =~= FallbackSpec::over_all(replies@, k as nat),
            decreases replies.len() - k,
        {
            proof {
                start.lemma_accepts_prefix(replies@, (k + 1) as nat, replies@.len());
            }
            let mut over = self.resolve(&replies[k]);
            freed.append(&mut over);
            k = k + 1;
        }
        (messages, freed)
    }

    /// Takes transactions in, and sends what waits to the workers that have room. `room` tells how
    /// many messages the channel of each worker takes. Returns the messages to send.
    pub fn execute(&mut self, slot: u64, txs: &[TransactionRegion], room: &[usize]) -> (messages:
        Vec<PackMessage>)
        requires
            old(self)@.wf(),
            room@.len() >= old(self)@.num_workers,
            old(self)@.metrics.total + txs@.len() <= usize::MAX,
        ensures
            final(self)@.wf(),
            final(self)@ == old(self)@.enqueue(txs@).send_all(room@),
            message_views(messages@) == old(self)@.enqueue(txs@).messages(slot, room@),
    {
        let mut i: usize = 0;
        while i < txs.len()
            invariant
                i <= txs@.len(),
                old(self)@.metrics.total + txs@.len() <= usize::MAX,
                *self == (FallbackStage { txs: self.txs, metrics: self.metrics, ..*old(self) }),
                self.txs@ =~= old(self)@.txs + txs@.take(i as int),
                self.metrics == (Metrics {
                    total: (old(self)@.metrics.total + i) as usize,
                    ..old(self)@.metrics
                }),
            decreases txs.len() - i,
        {
            self.metrics.total = self.metrics.total + 1;
            self.txs.push_back(txs[i]);
            i = i + 1;
        }
        assert(txs@.take(i as int) =~= txs@);
        let ghost start = old(self)@.enqueue(txs@);
        assert(self@ == start);
        let mut left: Vec<usize> = Vec::new();
        let mut k: usize = 0;
        while k < room.len()
            invariant
                k <= room@.len(),
                left@ =~= room@.take(k as int),
            decreases room.len() - k,
        {
            left.push(room[k]);
            k = k + 1;
        }
        assert(left@ =~= room@);
        let mut messages: Vec<PackMessage> = Vec::new();
        while !self.slot_end && self.processing <= PACK_TO_WORKER_CAPACITY * self.num_workers
            invariant
                self@.wf(),
                left@.len() >= self@.num_workers,
                self@.send_all(left@) == start.send_all(room@),
                message_views(messages@) + self@.messages(slot, left@) =~= start.messages(
                    slot,
                    room@,
                ),
            ensures
                self@.wf(),
                self@ == start.send_all(room@),
                message_views(messages@) =~= start.messages(slot, room@),
            decreases self@.txs.len(),
        {
            let ghost here = self@;
            let ghost sent = messages@;
            let ghost room_left = left@;
            if self.txs.len() == 0 {
                break;
            }
            match self.pick_worker(&left) {
                None => {
                    break;
                },
                Some(w) => {
                    proof {
                        assert(here.may_send());
                    }
                    let tx = self.txs.pop_front().unwrap();
                    self.processing = self.processing + 1;
                    self.next_worker = (w + 1) % self.num_workers;
                    let less: usize = left[w] - 1;
                    left[w] = less;
                    let mut batch: Vec<TransactionRegion> = Vec::new();
                    batch.push(tx);
                    let message = PackMessage {
                        worker: w,
                        flags: EXECUTE,
                        max_working_slot: slot,
                        batch,
                    };
                    messages.push(message);
                    proof {
                        assert(self@.txs =~= here.send(w as int).txs);
                        assert(self@ == here.send(w as int));
                        assert(message@.batch =~= seq![here.txs[0]]);
                        assert(message_views(messages@) =~= message_views(sent).push(message@));
                        assert(left@ =~= room_left.update(
                            w as int,
                            (room_left[w as int] - 1) as usize,
                        ));
                        assert(here.messages(slot, room_left) == seq![message@] + self@.messages(
                            slot,
                            left@,
                        ));
                    }
                },
            }
        }
        messages
    }

    /// The first worker with room, beginning with the one whose turn it is.
    fn pick_worker(&self, room: &Vec<usize>) -> (result: Option<usize>)
        requires
            self@.wf(),
            room@.len() >= self@.num_workers,
        ensures
            result matches Some(w) ==> w < self@.num_workers && room@[w as int] > 0
                && self@.pick(room@, 0) == Some(w as int),
            result is None ==> self@.pick(room@, 0) is None,
    {
        let mut k: usize = 0;
        while k < self.num_workers
            invariant
                k <= self.num_workers,
                self@.wf(),
                room@.len() >= self@.num_workers,
                self@.pick(room@, 0) == self@.pick(room@, k as int),
            decreases self.num_workers - k,
        {
            let w: usize = if k < self.num_workers - self.next_worker {
                self.next_worker + k
            } else {
                k - (self.num_workers - self.next_worker)
            };
            proof {
                let n = self.num_workers as int;
                let sum = self.next_worker + k;
                if sum < n {
                    vstd::arithmetic::div_mod::lemma_small_mod(sum as nat, n as nat);
                } else {
                    vstd::arithmetic::div_mod::lemma_mod_add_multiples_vanish(sum - n, n);
                    vstd::arithmetic::div_mod::lemma_small_mod((sum - n) as nat, n as nat);
                }
                assert(sum % n == w);
            }
            if room[w] > 0 {
                return Some(w);
            }
            k = k + 1;
        }
        None
    }

    /// Takes a worker's reply. Returns the regions of the transactions that are over.
    pub fn resolve(&mut self, reply: &Reply) -> (freed: Vec<TransactionRegion>)
        requires
            old(self)@.wf(),
            old(self)@.accepts(*reply),
        ensures
            final(self)@.wf(),
            final(self)@ == old(self)@.after(*reply),
            freed@ == Seq::new(
                FallbackSpec::num_over(*reply),
                |k: int| reply.batch@[k].region,
            ),
    {
        self.processing = self.processing - 1;
        let ghost start = self@;
        let mut freed: Vec<TransactionRegion> = Vec::new();
        let mut n: usize = reply.batch.len();
        if reply.processed_code == MAX_WORKING_SLOT_EXCEEDED {
            self.metrics.dropped = self.metrics.dropped + n;
        } else if let Responses::Execution(list) = &reply.responses {
            if list.len() < n {
                n = list.len();
            }
            let mut k: usize = 0;
            while k < n
                invariant
                    k <= n <= list@.len(),
                    start.wf(),
                    self@.wf(),
                    start.metrics.success + n <= usize::MAX,
                    start.metrics.fail + n <= usize::MAX,
                    self@.metrics.success <= start.metrics.success + k,
                    self@.metrics.fail <= start.metrics.fail + k,
                    self@ == start.count_all(list@, k as nat),
                decreases n - k,
            {
                let reason: u8 = list[k].not_included_reason;
                if reason == INCLUDED {
                    self.metrics.success = self.metrics.success + 1;
                } else {
                    // Block is full, stop trying to pack more.
                    if reason == WOULD_EXCEED_MAX_BLOCK_COST_LIMIT || reason
                        == BANK_NOT_AVAILABLE {
                        self.slot_end = true;
                    }
                    self.metrics.fail = self.metrics.fail + 1;
                }
                k = k + 1;
            }
        }
        let mut k: usize = 0;
        while k < n
            invariant
                k <= n <= reply.batch@.len(),
                freed@ =~= Seq::new(k as nat, |k: int| reply.batch@[k].region),
            decreases n - k,
        {
            freed.push(reply.batch[k].region);
            k = k + 1;
        }
        freed
    }

    /// Whether a worker may send `reply`.
    pub fn accepts(&self, reply: &Reply) -> (result: bool)
        ensures
            result == self@.accepts(*reply),
    {
        if self.processing == 0 {
            return false;
        }
        let num: usize = reply.batch.len();
        if reply.processed_code == MAX_WORKING_SLOT_EXCEEDED {
            return num <= usize::MAX - self.metrics.dropped;
        }
        match &reply.responses {
            Responses::Execution(list) => {
                let n: usize = if num <= list.len() {
                    num
                } else {
                    list.len()
                };
                reply.processed_code == PROCESSED && n <= usize::MAX - self.metrics.success && n
                    <= usize::MAX - self.metrics.fail
            },
            _ => false,
        }
    }

    /// Whether to wait on for replies before the slot is closed, `elapsed_ms` after that began.
    pub fn draining(&self, elapsed_ms: u64) -> (result: bool)
        ensures
            result == (self@.processing != 0 && elapsed_ms < RESET_TIMEOUT_MS),
    {
        self.processing != 0 && elapsed_ms < RESET_TIMEOUT_MS
    }

    /// Closes the slot: what still waits is dropped. Returns the counters of the slot and the
    /// regions to free; `None`, with nothing changed, where a worker has not answered.
    pub fn reset(&mut self) -> (result: Option<(Metrics, Vec<TransactionRegion>)>)
        requires
            old(self)@.wf(),
            old(self)@.metrics.dropped + old(self)@.txs.len() <= usize::MAX,
        ensures
            final(self)@.wf(),
            result is None <==> old(self)@.processing != 0,
            result is None ==> final(self)@ == old(self)@,
            result matches Some((metrics, freed)) ==> metrics == old(self)@.final_metrics()
                && freed@ == old(self)@.txs && final(self)@ == old(self)@.cleared(),
    {
        if self.processing != 0 {
            return None;
        }
        let mut metrics = self.metrics;
        metrics.dropped = metrics.dropped + self.txs.len();
        let mut freed: Vec<TransactionRegion> = Vec::new();
        let n: usize = self.txs.len();
        let mut k: usize = 0;
        while k < n
            invariant
                k <= n == old(self).txs@.len(),
                *self == (FallbackStage { txs: self.txs, ..*old(self) }),
                self.txs@ =~= old(self).txs@.skip(k as int),
                freed@ =~= old(self).txs@.take(k as int),
            decreases n - k,
        {
            let tx = self.txs.pop_front().unwrap();
            freed.push(tx);
            k = k + 1;
        }
        self.metrics = Metrics { total: 0, success: 0, fail: 0, dropped: 0 };
        self.slot_end = false;
        assert(self@.txs =~= Seq::empty());
        assert(freed@ =~= old(self)@.txs);
        Some((metrics, freed))
    }
}

/// The books stay balanced when transactions come in and go out to workers, and no more than one
/// message over what the channels of all workers hold is ever outstanding.
pub proof fn law_execute_balances(v: FallbackSpec, txs: Seq<TransactionRegion>, room: Seq<usize>)
    requires
        v.wf(),
        v.balanced(),
        v.metrics.total + txs.len() <= usize::MAX,
        v.processing <= PACK_TO_WORKER_CAPACITY * v.num_workers + 1,
    ensures
        v.enqueue(txs).send_all(room).balanced(),
        v.enqueue(txs).send_all(room).processing <= PACK_TO_WORKER_CAPACITY * v.num_workers + 1,
        v.enqueue(txs).send_all(room).metrics == v.enqueue(txs).metrics,
{
    lemma_send_all_balances(v.enqueue(txs), room);
}

proof fn lemma_send_all_balances(v: FallbackSpec, room: Seq<usize>)
    requires
        v.num_workers * PACK_TO_WORKER_CAPACITY < usize::MAX,
        v.balanced(),
        v.processing <= PACK_TO_WORKER_CAPACITY * v.num_workers + 1,
    ensures
        v.send_all(room).balanced(),
        v.send_all(room).processing <= PACK_TO_WORKER_CAPACITY * v.num_workers + 1,
        v.send_all(room).metrics == v.metrics,
    decreases v.txs.len(),
{
    if let Some(w) = v.pick(room, 0) {
        if v.may_send() {
            lemma_send_all_balances(v.send(w), room.update(w, (room[w] - 1) as usize));
        }
    }
}

/// The transactions that leave, in the order of sending, are the oldest ones that waited: none is
/// lost, sent twice or overtaken.
pub proof fn law_execute_sends_in_order(v: FallbackSpec, slot: u64, room: Seq<usize>)
    ensures
        v.messages(slot, room).len() + v.send_all(room).txs.len() == v.txs.len(),
        v.send_all(room).txs == v.txs.skip(v.messages(slot, room).len() as int),
        forall|k: int|
            0 <= k < v.messages(slot, room).len() ==> (#[trigger] v.messages(slot, room)[k]).batch
                == seq![v.txs[k]],
    decreases v.txs.len(),
{
    match v.pick(room, 0) {
        Some(w) if v.may_send() => {
            let less = room.update(w, (room[w] - 1) as usize);
            law_execute_sends_in_order(v.send(w), slot, less);
            let rest = v.send(w).messages(slot, less);
            let all = v.messages(slot, room);
            assert(v.send_all(room).txs =~= v.txs.skip(all.len() as int));
            assert forall|k: int| 0 <= k < all.len() implies (#[trigger] all[k]).batch
                == seq![v.txs[k]] by {
                if k > 0 {
                    assert(all[k] == rest[k - 1]);
                    assert(v.send(w).txs[k - 1] == v.txs[k]);
                }
            }
        },
        _ => {
            assert(v.txs.skip(0) =~= v.txs);
        },
    }
}

/// The books stay balanced when a worker answers for the one transaction of a message: it ends in
/// exactly one way.
pub proof fn law_reply_balances(v: FallbackSpec, reply: Reply)
    requires
        v.balanced(),
        v.accepts(reply),
        reply.batch@.len() == 1,
        reply.responses matches Responses::Execution(list) ==> list@.len() == 1
            || reply.processed_code == MAX_WORKING_SLOT_EXCEEDED,
    ensures
        v.after(reply).balanced(),
        v.after(reply).metrics.total == v.metrics.total,
        v.after(reply).processing == v.processing - 1,
        v.after(reply).txs == v.txs,
{
    if reply.processed_code != MAX_WORKING_SLOT_EXCEEDED {
        if let Responses::Execution(list) = reply.responses {
            reveal_with_fuel(FallbackSpec::count_all, 2);
        }
    }
}

/// When a slot is closed, every transaction that came in has landed, failed or been dropped.
pub proof fn law_final_metrics_add_up(v: FallbackSpec)
    requires
        v.balanced(),
        v.processing == 0,
    ensures
        v.final_metrics().total == v.final_metrics().success + v.final_metrics().fail
            + v.final_metrics().dropped,
        v.cleared().balanced(),
{
}

/// Once a response shows that the block takes no more, nothing is sent until the slot is closed.
pub proof fn law_slot_end_stops_sending(v: FallbackSpec, slot: u64, room: Seq<usize>)
    requires
        v.slot_end,
    ensures
        v.send_all(room) == v,
        v.messages(slot, room).len() == 0,
{
}

} // verus!
