//! Sequences of operations on one channel, and what holds along every one of them.

use crate::garbage::names;
use crate::heap::is_live;
use crate::model::ChannelView;
use vstd::prelude::*;

verus! {

/// One operation on a channel.
pub enum Op<T> {
    /// The sender publishes a value.
    Send(T),
    /// The sender is closed.
    Close,
    /// A receiver clones the current value.
    Recv,
    /// A receiver borrows the current value.
    Borrow,
    /// The borrow that holds the pin on the given participant record ends.
    Release(int),
    /// An attempt to move the global epoch.
    TryAdvance,
    /// A collection of the oldest bag.
    Collect,
}

/// Whether `op` may run in state `s`: a value is sent only while the sender is there and the
/// heap has an address left.
pub open spec fn enabled<T>(s: ChannelView<T>, op: Op<T>) -> bool {
    match op {
        Op::Send(_) => s.open && s.heap.len() < usize::MAX,
        _ => true,
    }
}

/// The state after `op` ran in state `s`.
pub open spec fn step<T>(s: ChannelView<T>, op: Op<T>) -> ChannelView<T> {
    match op {
        Op::Send(value) => s.send(value),
        Op::Close => s.close(),
        Op::Recv => s.recv(),
        Op::Borrow => s.borrow(),
        Op::Release(id) => s.unpin(id),
        Op::TryAdvance => s.try_advance(),
        Op::Collect => s.collect(),
    }
}

/// Whether each operation of `ops` may run at its turn, starting from `s`.
pub open spec fn valid<T>(s: ChannelView<T>, ops: Seq<Op<T>>) -> bool
    decreases ops.len(),
{
    ops.len() == 0 || (enabled(s, ops[0]) && valid(step(s, ops[0]), ops.drop_first()))
}

/// The state after every operation of `ops` ran in turn, starting from `s`.
pub open spec fn run<T>(s: ChannelView<T>, ops: Seq<Op<T>>) -> ChannelView<T>
    decreases ops.len(),
{
    if ops.len() == 0 {
        s
    } else {
        run(step(s, ops[0]), ops.drop_first())
    }
}

/// The participant records whose pins `ops` ends.
pub open spec fn released<T>(ops: Seq<Op<T>>) -> Set<int> {
    Set::new(|id: int| exists|i: int| 0 <= i < ops.len() && #[trigger] ops[i] == Op::<T>::Release(id))
}

/// Whether `op` leaves the slot alone: it is neither a send nor the sender's close.
pub open spec fn reads<T>(op: Op<T>) -> bool {
    !(op is Send) && !(op is Close)
}

/// The operations that send the values of `values`, in order.
pub open spec fn sends<T>(values: Seq<T>) -> Seq<Op<T>> {
    Seq::new(values.len(), |i: int| Op::Send(values[i]))
}

/// Every operation keeps the channel well formed, keeps each allocated value as it was
/// published, and ends no protection but that of the pin it releases. An operation that is
/// neither a send nor the sender's close shows readers what they saw before.
pub proof fn lemma_step<T>(s: ChannelView<T>, op: Op<T>)
    requires
        s.wf(),
        enabled(s, op),
    ensures
        s.evolves(step(s, op), released(seq![op])),
        reads(op) ==> s.same_current(step(s, op)),
        op matches Op::Send(value) ==> {
            &&& step(s, op).slot == Some(s.heap.len() as usize)
            &&& step(s, op).current() == Some(value)
            &&& step(s, op).open
        },
        op is Close ==> !step(s, op).open,
{
    let none = Set::<int>::empty();
    let ended = released(seq![op]);
    match op {
        Op::Send(value) => {
            s.lemma_publish(value);
            s.publish(value).lemma_reclaim_round();
            s.lemma_evolves_trans(s.publish(value), s.send(value), none);
        },
        Op::Close => {
            let first = s.withdraw().reclaim_round();
            s.lemma_withdraw();
            s.withdraw().lemma_reclaim_round();
            first.lemma_reclaim_round();
            s.withdraw().lemma_evolves_trans(first, s.close(), none);
            s.lemma_evolves_trans(s.withdraw(), s.close(), none);
        },
        Op::Recv => {
            s.lemma_recv();
        },
        Op::Borrow => {
            s.lemma_borrow();
        },
        Op::Release(id) => {
            s.lemma_unpin(id);
            assert(seq![op][0] == Op::<T>::Release(id));
            assert(ended.contains(id));
            s.lemma_evolves_weaken(s.unpin(id), set![id], ended);
        },
        Op::TryAdvance => {
            s.lemma_try_advance();
        },
        Op::Collect => {
            s.lemma_collect();
        },
    }
    if !(op is Release) {
        s.lemma_evolves_weaken(step(s, op), none, ended);
    }
}

/// Along every sequence of operations the channel stays well formed, each allocated value
/// stays as it was published, and an address that a pin protects stays protected, with its
/// value, for as long as that pin is not released.
pub proof fn lemma_run<T>(s: ChannelView<T>, ops: Seq<Op<T>>)
    requires
        s.wf(),
        valid(s, ops),
    ensures
        s.evolves(run(s, ops), released(ops)),
    decreases ops.len(),
{
    if ops.len() > 0 {
        let mid = step(s, ops[0]);
        let rest = ops.drop_first();
        lemma_step(s, ops[0]);
        lemma_run(mid, rest);
        assert(released(seq![ops[0]]).subset_of(released(ops))) by {
            assert forall|id: int| released(seq![ops[0]]).contains(id) implies released(
                ops,
            ).contains(id) by {
                let i = choose|i: int|
                    0 <= i < seq![ops[0]].len() && #[trigger] seq![ops[0]][i] == Op::<T>::Release(
                        id,
                    );
                assert(ops[0] == Op::<T>::Release(id));
            }
        }
        assert(released(rest).subset_of(released(ops))) by {
            assert forall|id: int| released(rest).contains(id) implies released(ops).contains(
                id,
            ) by {
                let i = choose|i: int| 0 <= i < rest.len() && #[trigger] rest[i] == Op::<T>::Release(id);
                assert(ops[i + 1] == Op::<T>::Release(id));
            }
        }
        s.lemma_evolves_weaken(mid, released(seq![ops[0]]), released(ops));
        mid.lemma_evolves_weaken(run(s, ops), released(rest), released(ops));
        s.lemma_evolves_trans(mid, run(s, ops), released(ops));
    }
}

/// The last value sent is the one that readers see: after a send, whatever receivers, borrows
/// and reclamation do, the current value is the value of that send until the next send or
/// the sender's close.
pub proof fn lemma_last_send_wins<T>(s: ChannelView<T>, ops: Seq<Op<T>>, last: int, value: T)
    requires
        s.wf(),
        valid(s, ops),
        0 <= last < ops.len(),
        ops[last] == Op::Send(value),
        forall|i: int| last < i < ops.len() ==> reads(#[trigger] ops[i]),
    ensures
        run(s, ops).current() == Some(value),
        run(s, ops).open,
    decreases ops.len(),
{
    let mid = step(s, ops[0]);
    let rest = ops.drop_first();
    lemma_step(s, ops[0]);
    if last == 0 {
        assert forall|i: int| 0 <= i < rest.len() implies reads(#[trigger] rest[i]) by {
            assert(rest[i] == ops[i + 1]);
        }
        lemma_reads_keep_current(mid, rest);
    } else {
        assert(rest[last - 1] == ops[last]);
        assert forall|i: int| last - 1 < i < rest.len() implies reads(#[trigger] rest[i]) by {
            assert(rest[i] == ops[i + 1]);
        }
        lemma_last_send_wins(mid, rest, last - 1, value);
    }
}

/// Receivers, borrows and reclamation never change what readers see.
pub proof fn lemma_reads_keep_current<T>(s: ChannelView<T>, ops: Seq<Op<T>>)
    requires
        s.wf(),
        forall|i: int| 0 <= i < ops.len() ==> reads(#[trigger] ops[i]),
    ensures
        valid(s, ops),
        s.same_current(run(s, ops)),
    decreases ops.len(),
{
    if ops.len() > 0 {
        let rest = ops.drop_first();
        assert(reads(ops[0]));
        lemma_step(s, ops[0]);
        assert forall|i: int| 0 <= i < rest.len() implies reads(#[trigger] rest[i]) by {
            assert(rest[i] == ops[i + 1]);
        }
        lemma_reads_keep_current(step(s, ops[0]), rest);
    }
}

/// On a channel that starts empty, after any sequence of sends the current value is the last
/// one sent.
pub proof fn lemma_recv_after_sends<T>(values: Seq<T>)
    requires
        0 < values.len() <= usize::MAX,
    ensures
        valid(ChannelView::<T>::create_empty(), sends(values)),
        run(ChannelView::<T>::create_empty(), sends(values)).current() == Some(values.last()),
{
    let start = ChannelView::<T>::create_empty();
    ChannelView::<T>::lemma_create(values[0]);
    lemma_sends_valid(start, values);
    lemma_last_send_wins(start, sends(values), values.len() - 1, values.last());
}

/// A sequence of sends may run on an open channel whose heap has room for each of them.
pub proof fn lemma_sends_valid<T>(s: ChannelView<T>, values: Seq<T>)
    requires
        s.wf(),
        s.open,
        s.heap.len() + values.len() <= usize::MAX,
    ensures
        valid(s, sends(values)),
    decreases values.len(),
{
    if values.len() > 0 {
        let ops = sends(values);
        let value = values[0];
        assert(ops[0] == Op::Send(value));
        lemma_step(s, ops[0]);
        s.lemma_send_grows(value);
        assert(ops.drop_first() =~= sends(values.drop_first()));
        lemma_sends_valid(step(s, ops[0]), values.drop_first());
    }
}

/// Once the sender is closed the channel shows no value, whatever is done to it afterwards.
pub proof fn lemma_closed_stays_empty<T>(s: ChannelView<T>, ops: Seq<Op<T>>)
    requires
        s.wf(),
        !s.open,
        valid(s, ops),
    ensures
        !run(s, ops).open,
        run(s, ops).slot == None::<usize>,
        run(s, ops).current() == None::<T>,
{
    lemma_run(s, ops);
}

/// A borrowed value stays allocated and unchanged for as long as its borrow is not released,
/// whatever is sent, and whether or not the sender is closed.
pub proof fn lemma_borrow_outlives<T>(s: ChannelView<T>, ops: Seq<Op<T>>, id: int, ptr: usize)
    requires
        s.wf(),
        valid(s, ops),
        s.protects(id, ptr),
        forall|i: int| 0 <= i < ops.len() ==> #[trigger] ops[i] != Op::<T>::Release(id),
    ensures
        run(s, ops).protects(id, ptr),
        is_live(run(s, ops).heap, ptr as int),
        run(s, ops).heap[ptr as int] == s.heap[ptr as int],
{
    lemma_run(s, ops);
    run(s, ops).lemma_protected_is_live(id, ptr);
}

/// What readers observe follows the order of the sends: the address in the slot never goes
/// back to an earlier one, and as long as it is the same address it holds the same value.
pub proof fn lemma_observations_follow_sends<T>(s: ChannelView<T>, ops: Seq<Op<T>>)
    requires
        s.wf(),
        valid(s, ops),
        s.slot is Some,
        run(s, ops).slot is Some,
    ensures
        s.slot->0 <= run(s, ops).slot->0,
        s.slot == run(s, ops).slot ==> s.current() == run(s, ops).current(),
{
    lemma_run(s, ops);
}

/// While no participant is pinned, garbage does not pile up: from the second send on, at most
/// one retired value is waiting after a send.
pub proof fn lemma_idle_garbage_bounded<T>(s: ChannelView<T>, first: T, second: T)
    requires
        s.wf(),
        s.open,
        s.registry.idle(),
        s.registry.epoch + 2 <= u64::MAX,
        s.heap.len() + 2 <= usize::MAX,
    ensures
        s.send(first).send(second).retired().len() <= 1,
{
    s.lemma_idle_send(first);
    lemma_step(s, Op::Send(first));
    s.send(first).lemma_idle_send(second);
}

/// Once no participant is pinned, two rounds of reclamation free every retired value.
pub proof fn lemma_reclaimed_after_grace<T>(s: ChannelView<T>, ptr: usize)
    requires
        s.wf(),
        s.registry.idle(),
        s.registry.epoch + 2 <= u64::MAX,
        names(s.retired(), ptr as int),
    ensures
        !is_live(s.reclaim_round().reclaim_round().heap, ptr as int),
        s.reclaim_round().reclaim_round().retired().len() == 0,
{
    let garbage = s.registry.garbage;
    let first = s.reclaim_round();
    let second = first.reclaim_round();
    s.lemma_reclaim_round();
    assert(s.registry.can_advance());
    assert(first.registry.can_advance());
    assert(first.registry.garbage.previous == garbage.current);
    assert(second.retired() =~= Seq::empty());
    let k = choose|k: int| 0 <= k < s.retired().len() && (#[trigger] s.retired()[k]).ptr == ptr;
    let early = garbage.expired + garbage.previous;
    if k < early.len() {
        assert(early[k].ptr == ptr);
        assert(!is_live(first.heap, ptr as int));
    } else {
        assert(garbage.current[k - early.len()].ptr == ptr);
    }
}

} // verus!
