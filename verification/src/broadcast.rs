//! The frame broadcast run inside the game: when the frame breakpoint fires,
//! clients that connected since the last frame are admitted, every client is
//! signalled, those that can no longer be reached are dropped, and one
//! acknowledgement per remaining client is awaited before the game goes on.
use std::sync::mpsc::{Receiver, Sender};
use vstd::prelude::*;
use crate::stepper::{classify_spec, disposition, disposition_spec, step_spec, BreakpointStepper, CodeBytes, Disposition, Hit};

verus! {

/// `std::sync::mpsc::Sender`, carried through as an opaque value.
#[verifier::external_type_specification]
#[verifier::external_body]
#[verifier::reject_recursive_types(T)]
pub struct ExSender<T>(Sender<T>);

/// `std::sync::mpsc::Receiver`, carried through as an opaque value.
#[verifier::external_type_specification]
#[verifier::external_body]
#[verifier::reject_recursive_types(T)]
pub struct ExReceiver<T>(Receiver<T>);

/// Calls `Receiver::try_iter` and collects the senders already queued.
/// What is queued depends on other threads, so nothing is stated of it.
#[verifier::external_body]
fn take_queued(rx: &Receiver<Sender<()>>) -> Vec<Sender<()>> {
    rx.try_iter().collect()
}

/// Calls `Sender::send` with `()`; `true` when the value was handed over.
/// Whether the receiving end still exists depends on other threads, so nothing
/// is stated of the result.
#[verifier::external_body]
fn send_signal(client: &Sender<()>) -> bool {
    client.send(()).is_ok()
}

/// Calls `Receiver::recv`; `true` when a value arrived. It blocks until one
/// arrives or every sender is gone; nothing is stated of the result.
#[verifier::external_body]
fn receive_signal(rx: &Receiver<()>) -> bool {
    rx.recv().is_ok()
}

/// Runs one channel operation `op` on `target`, as a call of a function value,
/// so that its outcome is recorded as an outcome of `op` on `target`.
fn perform<T, F: Fn(&T) -> bool>(op: F, target: &T) -> (outcome: bool)
    requires
        call_requires(op, (target,)),
    ensures
        call_ensures(op, (target,), outcome),
{
    op(target)
}

/// `ok` is an outcome that a call of `Sender::send` on `client` gave; it
/// holds only of outcomes that such a call returned.
pub closed spec fn signal_outcome(client: Sender<()>, ok: bool) -> bool {
    call_ensures(send_signal, (&client,), ok)
}

/// `ok` is an outcome that a call of `Receiver::recv` on `waiter` gave; it
/// holds only of outcomes that such a call returned.
pub closed spec fn acknowledgement_outcome(waiter: Receiver<()>, ok: bool) -> bool {
    call_ensures(receive_signal, (&waiter,), ok)
}

/// Waits once on `waiter` for the acknowledgement of wait number `round`.
fn receive_round(round: usize, waiter: &Receiver<()>) -> (arrived: bool)
    ensures
        acknowledgement_outcome(*waiter, arrived),
{
    perform(receive_signal, waiter)
}

/// Runs wait number `round` through `op`, as a call of a function value, so
/// that its outcome is recorded as the outcome of that round.
fn perform_round<F: Fn(usize, &Receiver<()>) -> bool>(op: F, round: usize, waiter: &Receiver<()>) -> (outcome: bool)
    requires
        call_requires(op, (round, waiter)),
    ensures
        call_ensures(op, (round, waiter), outcome),
{
    op(round, waiter)
}

/// `ok` is what wait number `round` on `waiter` gave: a call of
/// `receive_round` for that round, which itself waits once, returned it.
pub closed spec fn acknowledged_in_round(waiter: Receiver<()>, round: int, ok: bool) -> bool {
    call_ensures(receive_round, (round as usize, &waiter), ok)
}

/// The outcome of a round is an outcome of `Receiver::recv` on the waiter.
pub proof fn lemma_round_outcome_is_received(waiter: Receiver<()>, round: int, ok: bool)
    requires
        0 <= round <= usize::MAX,
        acknowledged_in_round(waiter, round, ok),
    ensures
        acknowledgement_outcome(waiter, ok),
{
}

/// The elements of `s` whose flag at the same position is set, in order.
pub open spec fn flag_filter<T>(s: Seq<T>, flags: Seq<bool>) -> Seq<T>
    decreases s.len(),
{
    if s.len() == 0 {
        Seq::empty()
    } else {
        let rest = flag_filter(s.drop_last(), flags);
        if flags[s.len() - 1] {
            rest.push(s.last())
        } else {
            rest
        }
    }
}

/// `kept` is what remains of `all` after dropping some of its elements.
pub open spec fn kept_some_of<T>(all: Seq<T>, kept: Seq<T>) -> bool {
    exists|flags: Seq<bool>| flags.len() == all.len() && kept == flag_filter(all, flags)
}

/// Keeps the items whose flag is set, in their order.
pub fn retain_flagged<T>(items: Vec<T>, flags: &Vec<bool>) -> (kept: Vec<T>)
    requires
        flags@.len() == items@.len(),
    ensures
        kept@ == flag_filter(items@, flags@),
{
    let ghost all = items@;
    let mut rest = items;
    let mut kept: Vec<T> = Vec::new();
    let mut i: usize = 0;
    let n: usize = flags.len();
    while i < n
        invariant
            n == flags@.len(),
            n == all.len(),
            i <= n,
            rest@ == all.skip(i as int),
            kept@ == flag_filter(all.take(i as int), flags@),
        decreases n - i,
    {
        let item = rest.remove(0);
        proof {
            let t = all.take(i as int + 1);
            assert(t.drop_last() =~= all.take(i as int));
            assert(t.last() == all[i as int]);
            assert(rest@ =~= all.skip(i as int + 1));
        }
        if flags[i] {
            kept.push(item);
        }
        i = i + 1;
    }
    proof {
        assert(all.take(n as int) =~= all);
    }
    kept
}

/// `reached` is `clients` filtered by one signal outcome per client: the
/// outcome at position `i` is an outcome of signalling `clients[i]`.
pub open spec fn signalled_and_kept(clients: Seq<Sender<()>>, reached: Seq<Sender<()>>) -> bool {
    exists|sent: Seq<bool>|
        #![trigger flag_filter(clients, sent)]
        {
            &&& sent.len() == clients.len()
            &&& forall|i: int| 0 <= i < clients.len() ==> signal_outcome(clients[i], #[trigger] sent[i])
            &&& reached == flag_filter(clients, sent)
        }
}

/// The outcome at each position `i` of `outcomes` is what the `i`-th wait
/// on `waiter` (its own call of `Receiver::recv`) gave.
pub open spec fn waited_on(waiter: Receiver<()>, outcomes: Seq<bool>) -> bool {
    forall|i: int| 0 <= i < outcomes.len() ==> acknowledged_in_round(waiter, i, #[trigger] outcomes[i])
}

/// Signals every client once and keeps those the signal reached, in order.
pub fn signal_clients(clients: Vec<Sender<()>>) -> (reached: Vec<Sender<()>>)
    ensures
        kept_some_of(clients@, reached@),
        signalled_and_kept(clients@, reached@),
{
    let mut flags: Vec<bool> = Vec::new();
    let mut i: usize = 0;
    while i < clients.len()
        invariant
            i <= clients@.len(),
            flags@.len() == i,
            forall|j: int| 0 <= j < i ==> signal_outcome(clients@[j], #[trigger] flags@[j]),
        decreases clients@.len() - i,
    {
        let ok = perform(send_signal, &clients[i]);
        flags.push(ok);
        i = i + 1;
    }
    let ghost f = flags@;
    let reached = retain_flagged(clients, &flags);
    proof {
        assert(f.len() == clients@.len() && reached@ == flag_filter(clients@, f));
    }
    assert(forall|j: int| 0 <= j < f.len() ==> signal_outcome(clients@[j], #[trigger] f[j]));
    assert(f.len() == clients@.len() && (forall|j: int| 0 <= j < clients@.len() ==> signal_outcome(clients@[j], #[trigger] f[j])) && reached@ == flag_filter(clients@, f));
    reached
}

/// The state the in-game exception handler works on.
pub struct Synchronizer {
    /// Senders of clients that connected and are not yet admitted.
    pub new_clients: Receiver<Sender<()>>,
    /// Where clients' acknowledgements arrive.
    pub waiter: Receiver<()>,
    /// Admitted clients, in the order they were admitted.
    pub clients: Vec<Sender<()>>,
    /// The breakpoint bookkeeping.
    pub stepper: BreakpointStepper,
}

impl Synchronizer {
    /// A synchronizer with no admitted client.
    pub fn new(new_clients: Receiver<Sender<()>>, waiter: Receiver<()>, stepper: BreakpointStepper) -> (s: Synchronizer)
        ensures
            s.new_clients == new_clients,
            s.waiter == waiter,
            s.clients@.len() == 0,
            s.stepper == stepper,
    {
        Synchronizer { new_clients, waiter, clients: Vec::new(), stepper }
    }

    /// Admits the clients in `queued` after the present ones, signals every
    /// client once, and keeps, in order, those the signal reached.
    pub fn admit_and_signal(&mut self, queued: Vec<Sender<()>>)
        ensures
            kept_some_of(old(self).clients@ + queued@, final(self).clients@),
            signalled_and_kept(old(self).clients@ + queued@, final(self).clients@),
            final(self).new_clients == old(self).new_clients,
            final(self).waiter == old(self).waiter,
            final(self).stepper == old(self).stepper,
    {
        let ghost before = self.clients@;
        let ghost q = queued@;
        let mut all: Vec<Sender<()>> = Vec::new();
        std::mem::swap(&mut all, &mut self.clients);
        let mut queued = queued;
        all.append(&mut queued);
        assert(all@ == before + q);
        let reached = signal_clients(all);
        self.clients = reached;
    }

    /// Waits once per admitted client for an acknowledgement, in turn;
    /// returns one outcome per wait, `true` where an acknowledgement arrived
    /// (a wait ends without one once every acknowledging end is gone).
    pub fn await_acknowledgements(&self) -> (outcomes: Vec<bool>)
        ensures
            outcomes@.len() == self.clients@.len(),
            waited_on(self.waiter, outcomes@),
    {
        let mut outcomes: Vec<bool> = Vec::new();
        let mut i: usize = 0;
        while i < self.clients.len()
            invariant
                i <= self.clients@.len(),
                outcomes@.len() == i,
                waited_on(self.waiter, outcomes@),
            decreases self.clients@.len() - i,
        {
            let arrived = perform_round(receive_round, i, &self.waiter);
            outcomes.push(arrived);
            i = i + 1;
        }
        outcomes
    }

    /// Answers an exception with `code` raised at `address`, where the two
    /// patched addresses hold `bytes`. On the frame breakpoint, the clients
    /// queued on `new_clients` are taken and handed to `admit_and_signal`,
    /// then `await_acknowledgements` waits once per client kept. Returns the
    /// answer, the bytes to store back, and the outcome of each wait. What was
    /// queued is up to other threads, so of the clients only the kept-from
    /// relation to some queue is stated here; `admit_and_signal` states it
    /// for the given queue.
    pub fn respond(&mut self, code: u32, address: u64, bytes: CodeBytes) -> (res: (Disposition, CodeBytes, Vec<bool>))
        ensures
            ({
                let hit = classify_spec(old(self).stepper, code, address);
                &&& res.0 == disposition_spec(hit)
                &&& (final(self).stepper, res.1) == step_spec(old(self).stepper, hit, bytes)
                &&& final(self).new_clients == old(self).new_clients
                &&& final(self).waiter == old(self).waiter
                &&& hit == Hit::FrameInstruction ==> (exists|queued: Seq<Sender<()>>|
                        kept_some_of(old(self).clients@ + queued, final(self).clients@))
                &&& hit == Hit::FrameInstruction ==> (exists|queued: Seq<Sender<()>>|
                        signalled_and_kept(old(self).clients@ + queued, final(self).clients@))
                &&& hit == Hit::FrameInstruction ==> res.2@.len() == final(self).clients@.len()
                &&& waited_on(old(self).waiter, res.2@)
                &&& hit != Hit::FrameInstruction ==> final(self).clients@ == old(self).clients@ && res.2@.len() == 0
            }),
    {
        let hit = self.stepper.classify(code, address);
        let mut outcomes: Vec<bool> = Vec::new();
        if hit == Hit::FrameInstruction {
            let queued = take_queued(&self.new_clients);
            self.admit_and_signal(queued);
            outcomes = self.await_acknowledgements();
        }
        let out = self.stepper.step(hit, bytes);
        (disposition(hit), out, outcomes)
    }
}

/// How many of `outcomes` are `true`.
pub open spec fn count_true(outcomes: Seq<bool>) -> nat
    decreases outcomes.len(),
{
    if outcomes.len() == 0 {
        0
    } else {
        count_true(outcomes.drop_last()) + if outcomes.last() { 1nat } else { 0nat }
    }
}

/// `count_true` never exceeds the number of outcomes.
pub proof fn lemma_count_true_bounded(outcomes: Seq<bool>)
    ensures
        count_true(outcomes) <= outcomes.len(),
    decreases outcomes.len(),
{
    if outcomes.len() > 0 {
        lemma_count_true_bounded(outcomes.drop_last());
    }
}

/// The number of acknowledgements that arrived among the wait outcomes.
pub fn count_acknowledged(outcomes: &Vec<bool>) -> (acks: usize)
    ensures
        acks == count_true(outcomes@),
{
    let mut acks: usize = 0;
    let mut i: usize = 0;
    while i < outcomes.len()
        invariant
            i <= outcomes@.len(),
            acks == count_true(outcomes@.take(i as int)),
        decreases outcomes@.len() - i,
    {
        proof {
            assert(outcomes@.take(i as int + 1).drop_last() =~= outcomes@.take(i as int));
            lemma_count_true_bounded(outcomes@.take(i as int));
        }
        if outcomes[i] {
            acks = acks + 1;
        }
        i = i + 1;
    }
    proof {
        assert(outcomes@.take(outcomes@.len() as int) =~= outcomes@);
    }
    acks
}

/// `x` is an element of `s` at a position whose flag is set.
pub open spec fn flagged_source<T>(s: Seq<T>, flags: Seq<bool>, x: T) -> bool {
    exists|i: int| 0 <= i < s.len() && flags[i] && x == s[i]
}

/// Filtering keeps one element per set flag.
pub proof fn lemma_flag_filter_len<T>(s: Seq<T>, flags: Seq<bool>)
    requires
        flags.len() == s.len(),
    ensures
        flag_filter(s, flags).len() == count_true(flags),
    decreases s.len(),
{
    if s.len() > 0 {
        lemma_flag_filter_len(s.drop_last(), flags.drop_last());
        lemma_flag_filter_prefix_flags(s.drop_last(), flags);
    }
}

/// Filtering looks only at the flags of the positions it keeps or drops.
pub proof fn lemma_flag_filter_prefix_flags<T>(s: Seq<T>, flags: Seq<bool>)
    requires
        s.len() <= flags.len(),
    ensures
        flag_filter(s, flags) == flag_filter(s, flags.take(s.len() as int)),
    decreases s.len(),
{
    if s.len() > 0 {
        lemma_flag_filter_prefix_flags(s.drop_last(), flags);
        lemma_flag_filter_prefix_flags(s.drop_last(), flags.take(s.len() as int));
        assert(flags.take(s.len() as int).take(s.len() - 1) =~= flags.take(s.len() - 1));
    }
}

/// Every element that filtering keeps is an element of `s` whose flag is set,
/// and every element whose flag is set is kept.
pub proof fn lemma_flag_filter_members<T>(s: Seq<T>, flags: Seq<bool>)
    requires
        flags.len() == s.len(),
    ensures
        forall|k: int| 0 <= k < flag_filter(s, flags).len() ==> #[trigger] flagged_source(s, flags, flag_filter(s, flags)[k]),
        forall|i: int| 0 <= i < s.len() && flags[i] ==> flag_filter(s, flags).contains(#[trigger] s[i]),
    decreases s.len(),
{
    if s.len() > 0 {
        let p = s.drop_last();
        lemma_flag_filter_prefix_flags(p, flags);
        lemma_flag_filter_members(p, flags.take(p.len() as int));
        let rest = flag_filter(p, flags);
        let kept = flag_filter(s, flags);
        assert forall|k: int| 0 <= k < kept.len() implies #[trigger] flagged_source(s, flags, kept[k]) by {
            if k < rest.len() {
                assert(kept[k] == rest[k]);
                assert(flagged_source(p, flags.take(p.len() as int), rest[k]));
                let i = choose|i: int| 0 <= i < p.len() && flags.take(p.len() as int)[i] && rest[k] == p[i];
                assert(0 <= i < s.len() && flags[i] && kept[k] == s[i]);
            } else {
                let i = s.len() - 1;
                assert(0 <= i < s.len() && flags[i] && kept[k] == s[i]);
            }
        }
        assert forall|i: int| 0 <= i < s.len() && flags[i] implies kept.contains(#[trigger] s[i]) by {
            if i < s.len() - 1 {
                assert(flags.take(p.len() as int)[i]);
                assert(rest.contains(p[i]));
                let k = choose|k: int| 0 <= k < rest.len() && rest[k] == p[i];
                assert(kept[k] == rest[k]);
            } else {
                assert(kept[kept.len() - 1] == s[i]);
            }
        }
    }
}

/// After a frame's signals: every kept client is one whose signal went
/// through, a client no signal can reach is never kept, and no more clients
/// remain than were signalled; exactly one kept client per successful signal.
pub proof fn lemma_signalled_clients_are_reached(clients: Seq<Sender<()>>, reached: Seq<Sender<()>>)
    requires
        signalled_and_kept(clients, reached),
    ensures
        reached.len() <= clients.len(),
        forall|k: int| 0 <= k < reached.len() ==> signal_outcome(#[trigger] reached[k], true),
        forall|c: Sender<()>| !signal_outcome(c, true) ==> !reached.contains(c),
        exists|sent: Seq<bool>| #![trigger flag_filter(clients, sent)]
            sent.len() == clients.len() && reached.len() == count_true(sent)
            && (forall|i: int| 0 <= i < clients.len() && #[trigger] sent[i] ==> reached.contains(clients[i]))
            && (forall|i: int| 0 <= i < clients.len() ==> signal_outcome(clients[i], sent[i])),
{
    let sent = choose|sent: Seq<bool>|
        #![trigger flag_filter(clients, sent)]
        {
            &&& sent.len() == clients.len()
            &&& forall|i: int| 0 <= i < clients.len() ==> signal_outcome(clients[i], #[trigger] sent[i])
            &&& reached == flag_filter(clients, sent)
        };
    lemma_flag_filter_len(clients, sent);
    lemma_count_true_bounded(sent);
    lemma_flag_filter_members(clients, sent);
    assert forall|k: int| 0 <= k < reached.len() implies signal_outcome(#[trigger] reached[k], true) by {
        assert(flagged_source(clients, sent, flag_filter(clients, sent)[k]));
        let i = choose|i: int| 0 <= i < clients.len() && sent[i] && flag_filter(clients, sent)[k] == clients[i];
        assert(signal_outcome(clients[i], sent[i]));
    }
    assert forall|c: Sender<()>| !signal_outcome(c, true) implies !reached.contains(c) by {
        if reached.contains(c) {
            let k = choose|k: int| 0 <= k < reached.len() && reached[k] == c;
            assert(signal_outcome(reached[k], true));
        }
    }
}

/// A frame's waits: one wait per kept client, each outcome is what its own
/// call of `Receiver::recv` on the waiter gave, and the acknowledgements
/// counted never exceed the clients waited for.
pub proof fn lemma_frame_waits(waiter: Receiver<()>, clients: Seq<Sender<()>>, outcomes: Seq<bool>)
    requires
        outcomes.len() == clients.len(),
        waited_on(waiter, outcomes),
        clients.len() <= usize::MAX,
    ensures
        forall|i: int| 0 <= i < outcomes.len() ==> acknowledgement_outcome(waiter, #[trigger] outcomes[i]),
        count_true(outcomes) <= clients.len(),
        clients.len() == 0 ==> count_true(outcomes) == 0,
{
    lemma_count_true_bounded(outcomes);
    assert forall|i: int| 0 <= i < outcomes.len() implies acknowledgement_outcome(waiter, #[trigger] outcomes[i]) by {
        lemma_round_outcome_is_received(waiter, i, outcomes[i]);
    }
}

} // verus!
