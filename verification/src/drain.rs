//! The drain pass: once per tick, walk the queue front to back under a
//! per-tick budget, expire entries past their time to live, dispatch
//! the rest, and record every failure. A failed entry stays in place —
//! it is retried next tick until its time to live, still measured from
//! its arrival, runs out.
use vstd::prelude::*;
use crate::email::Email;
use crate::ledger::{is_failure_record, ErrorLedger, ErrorRecord};
use crate::queue::{MailQueue, QueuedEmail};

verus! {

/// Seconds an entry may wait, measured from its arrival, before the
/// drain pass discards it unsent.
pub const TTL_SECONDS: u64 = 300;

/// Whether an entry has outlived its time to live at second `now`.
pub open spec fn spec_expired(e: QueuedEmail, now: u64) -> bool {
    now - e.received_at > TTL_SECONDS
}

/// Check whether the entry at `index` has expired.
pub fn entry_expired(queue: &MailQueue, index: usize, now: u64) -> (r: bool)
    requires
        index < queue@.len(),
    ensures
        r == spec_expired(queue@[index as int], now),
{
    let e = queue.get(index);
    e.received_at < now && now - e.received_at > TTL_SECONDS
}

/// The outcome of one dispatch attempt, as the transport reported it:
/// sent, or failed with the transport's error text.
pub enum SendOutcome {
    Sent,
    Failed(String),
}

impl SendOutcome {
    /// An identical copy.
    pub fn duplicate(&self) -> (r: SendOutcome)
        ensures
            r == *self,
    {
        match self {
            SendOutcome::Sent => SendOutcome::Sent,
            SendOutcome::Failed(s) => SendOutcome::Failed(s.clone()),
        }
    }
}

/// What one drain pass leaves behind.
#[verifier::ext_equal]
pub struct TickModel {
    /// Entries still queued after the pass, in order.
    pub remaining: Seq<QueuedEmail>,
    /// Emails whose dispatch succeeded, in the order they were sent.
    pub dispatched: Seq<Email>,
    /// Failure texts recorded, in the order the failures happened.
    pub failures: Seq<Seq<char>>,
    /// Entries the pass processed, each counted against the budget.
    pub processed: nat,
}

/// One drain pass over `entries`, consuming one of `outcomes` per
/// dispatch attempt, step by step from the front: an expired entry is
/// discarded, a sent entry leaves the queue, a failed entry stays.
/// Every step costs one unit of `budget`; the pass also stops when no
/// outcome is left to consume.
pub open spec fn spec_tick(
    entries: Seq<QueuedEmail>,
    outcomes: Seq<SendOutcome>,
    now: u64,
    budget: nat,
) -> TickModel
    decreases entries.len(),
{
    if budget == 0 || entries.len() == 0 {
        TickModel {
            remaining: entries,
            dispatched: Seq::empty(),
            failures: Seq::empty(),
            processed: 0,
        }
    } else if spec_expired(entries[0], now) {
        let rest = spec_tick(entries.drop_first(), outcomes, now, (budget - 1) as nat);
        TickModel {
            remaining: rest.remaining,
            dispatched: rest.dispatched,
            failures: rest.failures,
            processed: rest.processed + 1,
        }
    } else if outcomes.len() == 0 {
        TickModel {
            remaining: entries,
            dispatched: Seq::empty(),
            failures: Seq::empty(),
            processed: 0,
        }
    } else {
        match outcomes[0] {
            SendOutcome::Sent => {
                let rest = spec_tick(
                    entries.drop_first(),
                    outcomes.drop_first(),
                    now,
                    (budget - 1) as nat,
                );
                TickModel {
                    remaining: rest.remaining,
                    dispatched: seq![entries[0].email] + rest.dispatched,
                    failures: rest.failures,
                    processed: rest.processed + 1,
                }
            },
            SendOutcome::Failed(reason) => {
                let rest = spec_tick(
                    entries.drop_first(),
                    outcomes.drop_first(),
                    now,
                    (budget - 1) as nat,
                );
                TickModel {
                    remaining: seq![entries[0]] + rest.remaining,
                    dispatched: rest.dispatched,
                    failures: seq![reason@] + rest.failures,
                    processed: rest.processed + 1,
                }
            },
        }
    }
}

/// How a partly-done pass composes with the whole: what is already
/// settled, followed by what a pass over the rest still yields.
pub open spec fn tick_decomposes(
    m: TickModel,
    kept: Seq<QueuedEmail>,
    disp: Seq<Email>,
    fails: Seq<Seq<char>>,
    p: nat,
    rest: TickModel,
) -> bool {
    &&& m.remaining =~= kept + rest.remaining
    &&& m.dispatched =~= disp + rest.dispatched
    &&& m.failures =~= fails + rest.failures
    &&& m.processed == p + rest.processed
}

/// What the loop driving a drain pass must do next.
pub enum DrainAction {
    /// The pass is over: its budget is spent or the queue is walked to
    /// the end.
    Finished,
    /// The entry under the cursor had expired and was discarded; ask
    /// for the next action.
    Expired,
    /// Hand this email to the transport, then report the outcome
    /// before asking for the next action.
    Dispatch(Email),
}

/// One drain pass in progress: the walk cursor, the budget spent, and
/// — as ghost state — everything needed to tie the steps taken so far
/// to the model pass. The loop around it makes no decisions: it asks
/// for the next action, performs the dispatch it is handed, and
/// reports the outcome.
pub struct DrainPass {
    pub index: usize,
    pub processed: usize,
    pub rate_limit: usize,
    pub now: u64,
    pub awaiting: bool,
    pub orig: Ghost<Seq<QueuedEmail>>,
    pub led0: Ghost<Seq<ErrorRecord>>,
    pub outs: Ghost<Seq<SendOutcome>>,
    pub disp: Ghost<Seq<Email>>,
    pub fails: Ghost<Seq<Seq<char>>>,
}

impl DrainPass {
    /// For any outcomes still to come, the model pass over the original
    /// queue is what this pass has settled followed by a model pass
    /// over the rest of the queue.
    pub open spec fn decomposes_for(
        self,
        queue: Seq<QueuedEmail>,
        future: Seq<SendOutcome>,
    ) -> bool {
        tick_decomposes(
            spec_tick(self.orig@, self.outs@ + future, self.now, self.rate_limit as nat),
            queue.take(self.index as int),
            self.disp@,
            self.fails@,
            self.processed as nat,
            spec_tick(
                queue.skip(self.index as int),
                future,
                self.now,
                (self.rate_limit - self.processed) as nat,
            ),
        )
    }

    /// Everything a pass keeps true between steps: cursor and budget in
    /// bounds, one ledger record per failure so far, and the
    /// composition fact for every possible continuation.
    pub open spec fn wf(self, queue: Seq<QueuedEmail>, ledger: Seq<ErrorRecord>) -> bool {
        &&& self.index <= queue.len()
        &&& self.processed <= self.rate_limit
        &&& self.fails@.len() == self.index
        &&& ledger.len() == self.led0@.len() + self.fails@.len()
        &&& (forall|k: int| 0 <= k < self.led0@.len() ==> ledger[k] == self.led0@[k])
        &&& (forall|k: int|
            0 <= k < self.fails@.len() ==> is_failure_record(
                #[trigger] ledger[self.led0@.len() + k],
                self.fails@[k],
                self.now,
            ))
        &&& (forall|future: Seq<SendOutcome>| #[trigger] self.decomposes_for(queue, future))
        &&& (self.awaiting ==> self.index < queue.len() && self.processed < self.rate_limit
            && !spec_expired(queue[self.index as int], self.now))
    }

    /// Begin a pass over the queue at second `now` under `rate_limit`.
    pub fn begin(queue: &MailQueue, ledger: &ErrorLedger, rate_limit: usize, now: u64) -> (r:
        DrainPass)
        ensures
            r.wf(queue@, ledger@),
            r.orig@ == queue@,
            r.led0@ == ledger@,
            r.outs@ == Seq::<SendOutcome>::empty(),
            r.disp@ == Seq::<Email>::empty(),
            r.rate_limit == rate_limit,
            r.now == now,
            !r.awaiting,
    {
        let r = DrainPass {
            index: 0,
            processed: 0,
            rate_limit,
            now,
            awaiting: false,
            orig: Ghost(queue@),
            led0: Ghost(ledger@),
            outs: Ghost(Seq::empty()),
            disp: Ghost(Seq::empty()),
            fails: Ghost(Seq::empty()),
        };
        proof {
            assert forall|future: Seq<SendOutcome>| #[trigger] r.decomposes_for(
                queue@,
                future,
            ) by {
                assert(r.outs@ + future =~= future);
                assert(queue@.skip(0) =~= queue@);
                assert(queue@.take(0) =~= Seq::<QueuedEmail>::empty());
            }
        }
        r
    }

    /// Decide the next step: discard the entry under the cursor when it
    /// has expired (one per call), hand a live entry out for dispatch,
    /// or finish when the budget is spent or the queue ends. On
    /// `Finished` the queue, the dispatched emails, the recorded
    /// failures and the processed count are exactly what one model pass
    /// with the reported outcomes yields.
    pub fn next_action(&mut self, queue: &mut MailQueue, ledger: &ErrorLedger) -> (r: DrainAction)
        requires
            old(self).wf(old(queue)@, ledger@),
            !old(self).awaiting,
        ensures
            final(self).wf(final(queue)@, ledger@),
            final(self).orig@ == old(self).orig@,
            final(self).led0@ == old(self).led0@,
            final(self).now == old(self).now,
            final(self).rate_limit == old(self).rate_limit,
            final(self).disp@ == old(self).disp@,
            final(self).outs@ == old(self).outs@,
            match r {
                DrainAction::Finished => final(queue)@ == old(queue)@ && !final(self).awaiting && (
                final(self).processed >= final(self).rate_limit || final(self).index >= final(queue)@.len()) && ({
                    let m = spec_tick(
                        final(self).orig@,
                        final(self).outs@,
                        final(self).now,
                        final(self).rate_limit as nat,
                    );
                    &&& final(queue)@ == m.remaining
                    &&& final(self).disp@ == m.dispatched
                    &&& final(self).fails@ == m.failures
                    &&& final(self).processed == m.processed
                }),
                DrainAction::Expired => old(self).index < old(queue)@.len() && final(queue)@
                    == old(queue)@.remove(old(self).index as int) && !final(self).awaiting
                    && final(self).index == old(self).index && final(self).processed == old(self).processed + 1,
                DrainAction::Dispatch(e) => final(queue)@ == old(queue)@ && final(self).awaiting
                    && final(self).index == old(self).index && final(self).processed == old(self).processed && e == old(queue)@[old(self).index as int].email,
            },
    {
        if self.processed >= self.rate_limit || self.index >= queue.len() {
            proof {
                let empty = Seq::<SendOutcome>::empty();
                assert(self.decomposes_for(queue@, empty));
                assert(self.outs@ + empty =~= self.outs@);
                let rest = spec_tick(
                    queue@.skip(self.index as int),
                    empty,
                    self.now,
                    (self.rate_limit - self.processed) as nat,
                );
                assert(rest.remaining == queue@.skip(self.index as int));
                assert(queue@.take(self.index as int) + queue@.skip(self.index as int) =~= queue@);
                let m = spec_tick(self.orig@, self.outs@, self.now, self.rate_limit as nat);
                assert(m.remaining =~= queue@);
                assert(m.dispatched =~= self.disp@);
                assert(m.failures =~= self.fails@);
            }
            return DrainAction::Finished;
        }
        let ghost pre = queue@;
        let ghost idx = self.index as int;
        let ghost budget = (self.rate_limit - self.processed) as nat;
        if entry_expired(queue, self.index, self.now) {
            let _ = queue.remove(self.index);
            self.processed = self.processed + 1;
            proof {
                assert forall|future: Seq<SendOutcome>| #[trigger] self.decomposes_for(
                    queue@,
                    future,
                ) by {
                    assert(old(self).decomposes_for(pre, future));
                    assert(pre.skip(idx)[0] == pre[idx]);
                    assert(pre.remove(idx).take(idx) =~= pre.take(idx));
                    assert(pre.remove(idx).skip(idx) =~= pre.skip(idx).drop_first());
                }
            }
            return DrainAction::Expired;
        }
        let email = queue.get(self.index).email.duplicate();
        self.awaiting = true;
        proof {
            assert(pre.skip(idx)[0] == pre[idx]);
            assert forall|future: Seq<SendOutcome>| #[trigger] self.decomposes_for(
                queue@,
                future,
            ) by {
                assert(old(self).decomposes_for(pre, future));
            }
        }
        DrainAction::Dispatch(email)
    }

    /// Report the outcome of the dispatch the last step handed out: a
    /// sent entry leaves the queue and its email joins the dispatched
    /// sequence; a failed one stays in place, its failure recorded in
    /// the ledger.
    pub fn record_outcome(
        &mut self,
        queue: &mut MailQueue,
        ledger: &mut ErrorLedger,
        outcome: SendOutcome,
    )
        requires
            old(self).wf(old(queue)@, old(ledger)@),
            old(self).awaiting,
        ensures
            final(self).wf(final(queue)@, final(ledger)@),
            final(self).orig@ == old(self).orig@,
            final(self).led0@ == old(self).led0@,
            final(self).now == old(self).now,
            final(self).rate_limit == old(self).rate_limit,
            !final(self).awaiting,
            final(self).outs@ == old(self).outs@.push(outcome),
            final(self).processed == old(self).processed + 1,
            (outcome is Sent ==> final(self).index == old(self).index),
            (outcome is Failed ==> final(self).index == old(self).index + 1),
            (outcome is Sent ==> final(queue)@ == old(queue)@.remove(old(self).index as int)
                && final(ledger)@ == old(ledger)@ && final(self).disp@ == old(self).disp@.push(
                old(queue)@[old(self).index as int].email,
            )),
            (outcome matches SendOutcome::Failed(reason) ==> final(queue)@ == old(queue)@ && final(self).disp@ == old(self).disp@ && final(ledger)@.len() == old(ledger)@.len() + 1
                && is_failure_record(final(ledger)@.last(), reason@, final(self).now)),
    {
        let ghost pre = queue@;
        let ghost idx = self.index as int;
        let ghost oc = outcome;
        self.outs = Ghost(self.outs@.push(outcome));
        self.awaiting = false;
        match outcome {
            SendOutcome::Sent => {
                let entry = queue.remove(self.index);
                self.disp = Ghost(self.disp@.push(entry.email));
                self.processed = self.processed + 1;
                proof {
                    assert forall|future: Seq<SendOutcome>| #[trigger] self.decomposes_for(
                        queue@,
                        future,
                    ) by {
                        assert(old(self).decomposes_for(pre, seq![oc] + future));
                        assert(old(self).outs@ + (seq![oc] + future) =~= self.outs@ + future);
                        assert((seq![oc] + future)[0] == oc);
                        assert((seq![oc] + future).drop_first() =~= future);
                        assert(pre.skip(idx)[0] == pre[idx]);
                        assert(pre.remove(idx).take(idx) =~= pre.take(idx));
                        assert(pre.remove(idx).skip(idx) =~= pre.skip(idx).drop_first());
                    }
                }
            },
            SendOutcome::Failed(reason) => {
                let ghost rtext = reason@;
                let qlen = queue.len();
                ledger.push_failure(reason, self.now);
                self.fails = Ghost(self.fails@.push(rtext));
                assert(self.index < qlen);
                self.index = self.index + 1;
                self.processed = self.processed + 1;
                proof {
                    assert forall|future: Seq<SendOutcome>| #[trigger] self.decomposes_for(
                        queue@,
                        future,
                    ) by {
                        assert(old(self).decomposes_for(pre, seq![oc] + future));
                        assert(old(self).outs@ + (seq![oc] + future) =~= self.outs@ + future);
                        assert((seq![oc] + future)[0] == oc);
                        assert((seq![oc] + future).drop_first() =~= future);
                        assert(pre.skip(idx)[0] == pre[idx]);
                        assert(pre.take(idx + 1) =~= pre.take(idx) + seq![pre[idx]]);
                        assert(pre.skip(idx + 1) =~= pre.skip(idx).drop_first());
                    }
                }
            },
        }
    }
}

/// Run one drain pass, the outcome of each dispatch attempt supplied in
/// order by `outcomes`. The queue is rewritten to what the pass leaves,
/// one failure record is appended per failed attempt, and the emails
/// that went out come back in dispatch order together with how many
/// entries the pass processed.
pub fn run_tick(
    queue: &mut MailQueue,
    ledger: &mut ErrorLedger,
    outcomes: &Vec<SendOutcome>,
    now: u64,
    rate_limit: usize,
) -> (r: (Vec<Email>, usize))
    ensures
        ({
            let m = spec_tick(old(queue)@, outcomes@, now, rate_limit as nat);
            &&& final(queue)@ == m.remaining
            &&& r.0@ == m.dispatched
            &&& r.1 == m.processed
            &&& final(ledger)@.len() == old(ledger)@.len() + m.failures.len()
            &&& (forall|k: int|
                0 <= k < old(ledger)@.len() ==> final(ledger)@[k] == old(ledger)@[k])
            &&& (forall|k: int|
                0 <= k < m.failures.len() ==> is_failure_record(
                    #[trigger] final(ledger)@[old(ledger)@.len() + k],
                    m.failures[k],
                    now,
                ))
        }),
{
    let ghost m = spec_tick(queue@, outcomes@, now, rate_limit as nat);
    let ghost old_q = queue@;
    let ghost old_l = ledger@;
    let mut pass = DrainPass::begin(queue, ledger, rate_limit, now);
    let mut dispatched: Vec<Email> = Vec::new();
    let mut attempts: usize = 0;
    proof {
        assert(outcomes@.take(0) =~= Seq::<SendOutcome>::empty());
    }
    loop
        invariant_except_break
            !pass.awaiting,
        invariant
            pass.wf(queue@, ledger@),
            pass.orig@ == old_q,
            pass.led0@ == old_l,
            pass.now == now,
            pass.rate_limit == rate_limit,
            attempts <= outcomes@.len(),
            pass.outs@ =~= outcomes@.take(attempts as int),
            dispatched@ == pass.disp@,
        ensures
            spec_tick(
                queue@.skip(pass.index as int),
                outcomes@.skip(attempts as int),
                now,
                (rate_limit - pass.processed) as nat,
            ).processed == 0,
        decreases queue@.len() - pass.index + (rate_limit - pass.processed),
    {
        match pass.next_action(queue, ledger) {
            DrainAction::Finished => {
                break ;
            },
            DrainAction::Expired => {
            },
            DrainAction::Dispatch(email) => {
                if attempts >= outcomes.len() {
                    proof {
                        assert(queue@.skip(pass.index as int)[0] == queue@[pass.index as int]);
                        assert(outcomes@.skip(attempts as int) =~= Seq::<SendOutcome>::empty());
                    }
                    break ;
                }
                let outcome = outcomes[attempts].duplicate();
                let sent = match &outcome {
                    SendOutcome::Sent => true,
                    SendOutcome::Failed(_) => false,
                };
                attempts = attempts + 1;
                pass.record_outcome(queue, ledger, outcome);
                if sent {
                    dispatched.push(email);
                }
                proof {
                    assert(outcomes@.take(attempts as int) =~= outcomes@.take(attempts - 1).push(
                        outcomes@[attempts - 1],
                    ));
                }
            },
        }
    }
    proof {
        let outs_left = outcomes@.skip(attempts as int);
        assert(pass.decomposes_for(queue@, outs_left));
        assert(pass.outs@ + outs_left =~= outcomes@);
        let rest = spec_tick(
            queue@.skip(pass.index as int),
            outs_left,
            now,
            (rate_limit - pass.processed) as nat,
        );
        assert(rest.remaining == queue@.skip(pass.index as int));
        assert(queue@.take(pass.index as int) + queue@.skip(pass.index as int) =~= queue@);
        assert(m.remaining =~= queue@);
        assert(m.dispatched =~= dispatched@);
        assert(m.failures =~= pass.fails@);
    }
    (dispatched, pass.processed)
}

/// First-in, first-out drain: with budget for every entry, an outcome
/// for every attempt, every outcome a success and no entry expired,
/// one pass dispatches every email in arrival order and leaves the
/// queue empty.
pub proof fn lemma_tick_fifo_all_sent(
    entries: Seq<QueuedEmail>,
    outcomes: Seq<SendOutcome>,
    now: u64,
    budget: nat,
)
    requires
        budget >= entries.len(),
        outcomes.len() >= entries.len(),
        forall|i: int| 0 <= i < entries.len() ==> !spec_expired(#[trigger] entries[i], now),
        forall|i: int| 0 <= i < outcomes.len() ==> #[trigger] outcomes[i] is Sent,
    ensures
        spec_tick(entries, outcomes, now, budget).remaining =~= Seq::<QueuedEmail>::empty(),
        spec_tick(entries, outcomes, now, budget).dispatched =~= entries.map_values(
            |e: QueuedEmail| e.email,
        ),
        spec_tick(entries, outcomes, now, budget).failures =~= Seq::<Seq<char>>::empty(),
        spec_tick(entries, outcomes, now, budget).processed == entries.len(),
    decreases entries.len(),
{
    if entries.len() == 0 {
        assert(entries.map_values(|e: QueuedEmail| e.email) =~= Seq::<Email>::empty());
    } else {
        lemma_tick_fifo_all_sent(
            entries.drop_first(),
            outcomes.drop_first(),
            now,
            (budget - 1) as nat,
        );
        assert(seq![entries[0].email] + entries.drop_first().map_values(|e: QueuedEmail| e.email)
            =~= entries.map_values(|e: QueuedEmail| e.email));
    }
}

/// Expiry beats the budget: an expired entry at the front of the queue
/// is discarded without consuming any dispatch outcome — the transport
/// is not invoked for it — however much budget remains.
pub proof fn lemma_tick_expires_head(
    entries: Seq<QueuedEmail>,
    outcomes: Seq<SendOutcome>,
    now: u64,
    budget: nat,
)
    requires
        budget > 0,
        entries.len() > 0,
        spec_expired(entries[0], now),
    ensures
        ({
            let m = spec_tick(entries, outcomes, now, budget);
            let rest = spec_tick(entries.drop_first(), outcomes, now, (budget - 1) as nat);
            &&& !m.remaining.contains(entries[0]) || entries.drop_first().contains(entries[0])
            &&& m.remaining == rest.remaining
            &&& m.dispatched == rest.dispatched
            &&& m.failures == rest.failures
            &&& m.processed == rest.processed + 1
        }),
{
    let rest = spec_tick(entries.drop_first(), outcomes, now, (budget - 1) as nat);
    lemma_tick_remaining_from(entries.drop_first(), outcomes, now, (budget - 1) as nat);
    assert(spec_tick(entries, outcomes, now, budget).remaining == rest.remaining);
}

/// Every entry a pass leaves queued was already in the queue it walked.
pub proof fn lemma_tick_remaining_from(
    entries: Seq<QueuedEmail>,
    outcomes: Seq<SendOutcome>,
    now: u64,
    budget: nat,
)
    ensures
        forall|e: QueuedEmail|
            #[trigger] spec_tick(entries, outcomes, now, budget).remaining.contains(e)
                ==> entries.contains(e),
    decreases entries.len(),
{
    let m = spec_tick(entries, outcomes, now, budget);
    if budget == 0 || entries.len() == 0 {
    } else if !spec_expired(entries[0], now) && outcomes.len() == 0 {
    } else {
        let tail = entries.drop_first();
        let touts = if spec_expired(entries[0], now) {
            outcomes
        } else {
            outcomes.drop_first()
        };
        lemma_tick_remaining_from(tail, touts, now, (budget - 1) as nat);
        let rest = spec_tick(tail, touts, now, (budget - 1) as nat);
        assert forall|e: QueuedEmail| #[trigger] m.remaining.contains(e) implies entries.contains(
            e,
        ) by {
            let i = choose|i: int| 0 <= i < m.remaining.len() && m.remaining[i] == e;
            if m.remaining == seq![entries[0]] + rest.remaining && i == 0 {
                assert(entries[0] == e);
            } else {
                assert(rest.remaining.contains(e));
                assert(tail.contains(e));
                let j = choose|j: int| 0 <= j < tail.len() && tail[j] == e;
                assert(entries[j + 1] == e);
            }
        }
    }
}

/// Rate limiting: with an outcome available for every attempt, a pass
/// over more entries than it has budget for processes exactly its
/// budget, and the entries beyond its reach wait untouched, in order,
/// behind whatever the pass kept.
pub proof fn lemma_tick_rate_limit(
    entries: Seq<QueuedEmail>,
    outcomes: Seq<SendOutcome>,
    now: u64,
    budget: nat,
)
    requires
        budget <= entries.len(),
        outcomes.len() >= budget,
    ensures
        spec_tick(entries, outcomes, now, budget).processed == budget,
        spec_tick(entries, outcomes, now, budget).remaining =~= spec_tick(
            entries.take(budget as int),
            outcomes,
            now,
            budget,
        ).remaining + entries.skip(budget as int),
    decreases budget,
{
    if budget == 0 {
        assert(entries.skip(0) =~= entries);
    } else {
        let head = entries[0];
        assert(entries.take(budget as int)[0] == head);
        assert(entries.take(budget as int).drop_first() =~= entries.drop_first().take(
            budget - 1,
        ));
        if spec_expired(head, now) {
            lemma_tick_rate_limit(entries.drop_first(), outcomes, now, (budget - 1) as nat);
            assert(entries.drop_first().skip(budget - 1) =~= entries.skip(budget as int));
        } else {
            match outcomes[0] {
                SendOutcome::Sent => {
                    lemma_tick_rate_limit(
                        entries.drop_first(),
                        outcomes.drop_first(),
                        now,
                        (budget - 1) as nat,
                    );
                    assert(entries.drop_first().skip(budget - 1) =~= entries.skip(budget as int));
                },
                SendOutcome::Failed(_) => {
                    lemma_tick_rate_limit(
                        entries.drop_first(),
                        outcomes.drop_first(),
                        now,
                        (budget - 1) as nat,
                    );
                    assert(entries.drop_first().skip(budget - 1) =~= entries.skip(budget as int));
                },
            }
        }
    }
}

/// Retry rather than drop: a pass whose every dispatch fails leaves
/// the queue exactly as it was — each entry keeps its arrival time, so
/// its time to live keeps running — dispatches nothing, and records
/// one failure per entry it attempted.
pub proof fn lemma_tick_all_failed(
    entries: Seq<QueuedEmail>,
    outcomes: Seq<SendOutcome>,
    now: u64,
    budget: nat,
)
    requires
        budget >= entries.len(),
        outcomes.len() >= entries.len(),
        forall|i: int| 0 <= i < entries.len() ==> !spec_expired(#[trigger] entries[i], now),
        forall|i: int| 0 <= i < outcomes.len() ==> #[trigger] outcomes[i] is Failed,
    ensures
        spec_tick(entries, outcomes, now, budget).remaining =~= entries,
        spec_tick(entries, outcomes, now, budget).dispatched =~= Seq::<Email>::empty(),
        spec_tick(entries, outcomes, now, budget).failures.len() == entries.len(),
        spec_tick(entries, outcomes, now, budget).processed == entries.len(),
        forall|i: int|
            0 <= i < entries.len() ==> (outcomes[i] matches SendOutcome::Failed(r) ==> #[trigger] spec_tick(
                entries,
                outcomes,
                now,
                budget,
            ).failures[i] == r@),
    decreases entries.len(),
{
    if entries.len() == 0 {
    } else {
        lemma_tick_all_failed(
            entries.drop_first(),
            outcomes.drop_first(),
            now,
            (budget - 1) as nat,
        );
        assert(seq![entries[0]] + entries.drop_first() =~= entries);
    }
}

} // verus!
