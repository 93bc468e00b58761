//! The queue in which accepted transactions wait for a block.
//!
//! Hashes wait in a bounded queue in the order in which their transactions
//! came in; the transactions themselves are kept in a map under their hash.
//! A transaction that comes in again under a hash that is already waiting
//! adds its signatures to the one that waits.

use crate::collections::{
    listed_by, lists, queue_capacity, queue_len, queue_new, queue_pop, queue_push, queued,
    store_contains, store_get, store_insert, store_new, store_remove, store_values, stored,
};
use crate::crypto;
use crate::signatures::{distinct_keys, lemma_merged, merged, signers};
use crate::time::{current_time_ms, saturated};
use crate::tx::{AcceptedTransaction, TransactionView};
use crate::wsv::{WorldStateView, WsvView};
use crossbeam::queue::ArrayQueue;
use dashmap::DashMap;
use std::collections::hash_map::RandomState;
use vstd::prelude::*;

verus! {

/// The limits of a queue.
#[derive(Clone, Copy, Debug)]
pub struct QueueConfiguration {
    /// How many transactions a block may take.
    pub maximum_transactions_in_block: u32,
    /// How many transactions may wait in the queue.
    pub maximum_transactions_in_queue: u32,
    /// After how many milliseconds a waiting transaction is dropped.
    pub transaction_time_to_live_ms: u64,
}

impl Default for QueueConfiguration {
    fn default() -> (r: Self)
        ensures
            r.maximum_transactions_in_block == 8192,
            r.maximum_transactions_in_queue == 65536,
            r.transaction_time_to_live_ms == 86_400_000,
    {
        QueueConfiguration {
            maximum_transactions_in_block: 8192,
            maximum_transactions_in_queue: 65536,
            transaction_time_to_live_ms: 86_400_000,
        }
    }
}

/// What decides the fate of a waiting transaction when the queue is popped.
pub struct PopContext {
    /// Whether the peer that pops is the leader.
    pub is_leader: bool,
    /// The world state.
    pub wsv: WsvView,
    /// The time to live that the queue grants.
    pub ttl_ms: u64,
    /// The time at which the queue is popped.
    pub now: u64,
}

/// What becomes of a waiting transaction when its turn comes.
pub enum Verdict {
    /// It leaves the queue for good and goes nowhere.
    Drop,
    /// It leaves the queue and is handed out.
    Yield,
    /// It is put aside and goes back to the end of the queue.
    Defer,
}

/// What becomes of `transaction` when its turn comes. It is dropped when
/// it is expired or committed already, or when its signature condition
/// cannot be checked. Else it is handed out, unless the peer is the leader
/// and the signature condition is not met yet: then it is put aside.
pub open spec fn verdict(transaction: TransactionView, cx: PopContext) -> Verdict {
    if transaction.expired(cx.ttl_ms, cx.now) || cx.wsv.transactions.contains(transaction.hash()) {
        Verdict::Drop
    } else {
        match transaction.signature_condition(cx.wsv) {
            Err(_) => Verdict::Drop,
            Ok(met) => if !cx.is_leader || met {
                Verdict::Yield
            } else {
                Verdict::Defer
            },
        }
    }
}

/// What one pop does to the hashes that wait.
pub struct Popped {
    /// The hash of the transaction that is handed out, if any.
    pub yielded: Option<crypto::Hash>,
    /// The hashes that were dropped on the way to it, in their order.
    pub dropped: Seq<crypto::Hash>,
    /// The hashes that were put aside on the way to it, in their order.
    pub deferred: Seq<crypto::Hash>,
    /// The hashes that still wait.
    pub rest: Seq<crypto::Hash>,
}

/// One pop: the hashes of `order` take their turn from the front until one
/// is handed out or none is left.
pub open spec fn pop_from(
    order: Seq<crypto::Hash>,
    transactions: Map<crypto::Hash, TransactionView>,
    cx: PopContext,
) -> Popped
    decreases order.len(),
{
    if order.len() == 0 {
        Popped { yielded: None, dropped: Seq::empty(), deferred: Seq::empty(), rest: Seq::empty() }
    } else {
        let h = order[0];
        let later = pop_from(order.drop_first(), transactions, cx);
        match verdict(transactions[h], cx) {
            Verdict::Yield => Popped {
                yielded: Some(h),
                dropped: Seq::empty(),
                deferred: Seq::empty(),
                rest: order.drop_first(),
            },
            Verdict::Drop => Popped { dropped: seq![h] + later.dropped, ..later },
            Verdict::Defer => Popped { deferred: seq![h] + later.deferred, ..later },
        }
    }
}

/// What filling a block does to the hashes that wait.
pub struct Taken {
    /// The hashes of the transactions that are handed out, in their order.
    pub yielded: Seq<crypto::Hash>,
    /// The hashes that were dropped, in their order.
    pub dropped: Seq<crypto::Hash>,
    /// The hashes that were put aside, in their order.
    pub deferred: Seq<crypto::Hash>,
    /// The hashes that never had their turn.
    pub rest: Seq<crypto::Hash>,
}

/// Filling a block with room for `room` transactions: one pop after the
/// other until the room is used up or a pop hands nothing out.
pub open spec fn take_available(
    order: Seq<crypto::Hash>,
    transactions: Map<crypto::Hash, TransactionView>,
    cx: PopContext,
    room: nat,
) -> Taken
    decreases room,
{
    if room == 0 {
        Taken { yielded: Seq::empty(), dropped: Seq::empty(), deferred: Seq::empty(), rest: order }
    } else {
        let popped = pop_from(order, transactions, cx);
        match popped.yielded {
            None => Taken {
                yielded: Seq::empty(),
                dropped: popped.dropped,
                deferred: popped.deferred,
                rest: popped.rest,
            },
            Some(h) => {
                let later = take_available(popped.rest, transactions, cx, (room - 1) as nat);
                Taken {
                    yielded: seq![h] + later.yielded,
                    dropped: popped.dropped + later.dropped,
                    deferred: popped.deferred + later.deferred,
                    rest: later.rest,
                }
            },
        }
    }
}

/// One pop sorts every hash that waits into exactly one of four lots, and
/// each lot holds what its name says: what is handed out was due to be, what
/// is dropped was expired, committed already or beyond checking, what is put
/// aside lacked signatures on the leader.
pub proof fn lemma_pop_from(
    order: Seq<crypto::Hash>,
    transactions: Map<crypto::Hash, TransactionView>,
    cx: PopContext,
)
    ensures
        ({
            let p = pop_from(order, transactions, cx);
            let first = match p.yielded {
                Some(h) => seq![h],
                None => Seq::empty(),
            };
            &&& (p.dropped + p.deferred + first + p.rest).to_multiset() == order.to_multiset()
            &&& p.yielded is None ==> p.rest.len() == 0
            &&& p.yielded is Some ==> verdict(transactions[p.yielded->Some_0], cx) is Yield
            &&& forall|i: int|
                0 <= i < p.dropped.len() ==> verdict(transactions[#[trigger] p.dropped[i]], cx)
                    is Drop
            &&& forall|i: int|
                0 <= i < p.deferred.len() ==> verdict(transactions[#[trigger] p.deferred[i]], cx)
                    is Defer
            &&& p.dropped.len() + p.deferred.len() + first.len() + p.rest.len() == order.len()
        }),
    decreases order.len(),
{
    broadcast use vstd::seq_lib::group_to_multiset_ensures;

    let p = pop_from(order, transactions, cx);
    if order.len() == 0 {
        assert(p.dropped + p.deferred + Seq::<crypto::Hash>::empty() + p.rest =~= order);
    } else {
        let h = order[0];
        let tail = order.drop_first();
        let later = pop_from(tail, transactions, cx);
        lemma_pop_from(tail, transactions, cx);
        let later_first = match later.yielded {
            Some(h) => seq![h],
            None => Seq::empty(),
        };
        assert(order =~= seq![h] + tail);
        vstd::seq_lib::lemma_multiset_commutative(seq![h], tail);
        match verdict(transactions[h], cx) {
            Verdict::Yield => {
                assert(p.dropped + p.deferred + seq![h] + p.rest =~= seq![h] + tail);
            },
            Verdict::Drop => {
                let all = later.dropped + later.deferred + later_first + later.rest;
                assert(p.dropped + p.deferred + later_first + p.rest =~= seq![h] + all);
                vstd::seq_lib::lemma_multiset_commutative(seq![h], all);
            },
            Verdict::Defer => {
                let a = later.dropped;
                let b = later.deferred + later_first + later.rest;
                let all = later.dropped + later.deferred + later_first + later.rest;
                assert(all =~= a + b);
                assert(p.dropped + p.deferred + later_first + p.rest =~= a + (seq![h] + b));
                vstd::seq_lib::lemma_multiset_commutative(a, seq![h] + b);
                vstd::seq_lib::lemma_multiset_commutative(seq![h], b);
                vstd::seq_lib::lemma_multiset_commutative(a, b);
                vstd::seq_lib::lemma_multiset_commutative(seq![h], a + b);
                assert((a + (seq![h] + b)).to_multiset() =~= (seq![h] + (a + b)).to_multiset());
            },
        }
    }
}

/// Filling a block sorts every hash that waits into exactly one of four
/// lots: handed out, dropped, put aside, or never reached. No more are handed
/// out than the block has room for. What is handed out was due to be; what
/// is dropped was expired, committed already, or its signature condition
/// could not be checked; what is put aside lacked signatures on the leader.
pub proof fn lemma_take_available(
    order: Seq<crypto::Hash>,
    transactions: Map<crypto::Hash, TransactionView>,
    cx: PopContext,
    room: nat,
)
    ensures
        ({
            let t = take_available(order, transactions, cx, room);
            &&& (t.yielded + t.dropped + t.deferred + t.rest).to_multiset() == order.to_multiset()
            &&& t.yielded.len() <= room
            &&& t.yielded.len() + t.dropped.len() + t.deferred.len() + t.rest.len() == order.len()
            &&& forall|i: int|
                0 <= i < t.yielded.len() ==> verdict(transactions[#[trigger] t.yielded[i]], cx)
                    is Yield
            &&& forall|i: int|
                0 <= i < t.dropped.len() ==> verdict(transactions[#[trigger] t.dropped[i]], cx)
                    is Drop
            &&& forall|i: int|
                0 <= i < t.deferred.len() ==> verdict(transactions[#[trigger] t.deferred[i]], cx)
                    is Defer
        }),
    decreases room,
{
    broadcast use vstd::seq_lib::group_to_multiset_ensures;

    let t = take_available(order, transactions, cx, room);
    if room == 0 {
        assert(t.yielded + t.dropped + t.deferred + t.rest =~= order);
    } else {
        let p = pop_from(order, transactions, cx);
        lemma_pop_from(order, transactions, cx);
        match p.yielded {
            None => {
                assert(t.yielded + t.dropped + t.deferred + t.rest =~= p.dropped + p.deferred
                    + Seq::<crypto::Hash>::empty() + p.rest);
            },
            Some(h) => {
                let later = take_available(p.rest, transactions, cx, (room - 1) as nat);
                lemma_take_available(p.rest, transactions, cx, (room - 1) as nat);
                let x = p.dropped + p.deferred + seq![h];
                let y = later.yielded + later.dropped + later.deferred + later.rest;
                // order ~ x + p.rest ~ x + y
                assert(p.dropped + p.deferred + seq![h] + p.rest =~= x + p.rest);
                vstd::seq_lib::lemma_multiset_commutative(x, p.rest);
                vstd::seq_lib::lemma_multiset_commutative(x, y);
                assert((x + y).to_multiset() =~= order.to_multiset());
                let whole = t.yielded + t.dropped + t.deferred + t.rest;
                assert(whole =~= seq![h] + later.yielded + p.dropped + later.dropped + p.deferred
                    + later.deferred + later.rest);
                lemma_same_hashes(
                    h,
                    p.dropped,
                    p.deferred,
                    later.yielded,
                    later.dropped,
                    later.deferred,
                    later.rest,
                );
            },
        }
    }
}

/// No transaction is handed out twice: when the hashes that wait are all
/// different, so are those that filling a block sorts into its four lots,
/// taken together. In particular nothing is handed out twice, and nothing
/// that is handed out is also dropped, put aside or left waiting.
pub proof fn lemma_taken_once(
    order: Seq<crypto::Hash>,
    transactions: Map<crypto::Hash, TransactionView>,
    cx: PopContext,
    room: nat,
)
    requires
        order.no_duplicates(),
    ensures
        ({
            let t = take_available(order, transactions, cx, room);
            (t.yielded + t.dropped + t.deferred + t.rest).no_duplicates()
        }),
{
    let t = take_available(order, transactions, cx, room);
    let all = t.yielded + t.dropped + t.deferred + t.rest;
    lemma_take_available(order, transactions, cx, room);
    order.lemma_multiset_has_no_duplicates();
    all.lemma_multiset_has_no_duplicates_conv();
}

/// As long as the signature condition of every waiting transaction can be
/// checked, a transaction leaves the queue without being handed out for two
/// reasons only: it is expired, or it was committed already.
pub proof fn lemma_dropped_only_when_stale(
    order: Seq<crypto::Hash>,
    transactions: Map<crypto::Hash, TransactionView>,
    cx: PopContext,
    room: nat,
)
    requires
        forall|i: int|
            0 <= i < order.len() ==> transactions[#[trigger] order[i]].signature_condition(cx.wsv)
                is Ok,
    ensures
        ({
            let t = take_available(order, transactions, cx, room);
            forall|i: int|
                0 <= i < t.dropped.len() ==> {
                    let dropped = transactions[#[trigger] t.dropped[i]];
                    dropped.expired(cx.ttl_ms, cx.now) || cx.wsv.transactions.contains(
                        dropped.hash(),
                    )
                }
        }),
{
    let t = take_available(order, transactions, cx, room);
    lemma_take_available(order, transactions, cx, room);
    assert forall|i: int| 0 <= i < t.dropped.len() implies {
        let dropped = transactions[#[trigger] t.dropped[i]];
        dropped.expired(cx.ttl_ms, cx.now) || cx.wsv.transactions.contains(dropped.hash())
    } by {
        let h = t.dropped[i];
        let all = t.yielded + t.dropped + t.deferred + t.rest;
        assert(all[t.yielded.len() + i] == h);
        assert(all.contains(h));
        vstd::seq_lib::to_multiset_contains(all, h);
        vstd::seq_lib::to_multiset_contains(order, h);
        let j = choose|j: int| 0 <= j < order.len() && order[j] == h;
        assert(transactions[order[j]].signature_condition(cx.wsv) is Ok);
        assert(verdict(transactions[h], cx) is Drop);
    }
}

/// Two ways of listing the same seven parts hold the same hashes.
proof fn lemma_same_hashes(
    h: crypto::Hash,
    d1: Seq<crypto::Hash>,
    s1: Seq<crypto::Hash>,
    y2: Seq<crypto::Hash>,
    d2: Seq<crypto::Hash>,
    s2: Seq<crypto::Hash>,
    r2: Seq<crypto::Hash>,
)
    ensures
        (seq![h] + y2 + d1 + d2 + s1 + s2 + r2).to_multiset() == ((d1 + s1 + seq![h]) + (y2 + d2
            + s2 + r2)).to_multiset(),
{
    broadcast use vstd::seq_lib::group_to_multiset_ensures;

    let one = seq![h];
    vstd::seq_lib::lemma_multiset_commutative(one, y2);
    vstd::seq_lib::lemma_multiset_commutative(one + y2, d1);
    vstd::seq_lib::lemma_multiset_commutative(one + y2 + d1, d2);
    vstd::seq_lib::lemma_multiset_commutative(one + y2 + d1 + d2, s1);
    vstd::seq_lib::lemma_multiset_commutative(one + y2 + d1 + d2 + s1, s2);
    vstd::seq_lib::lemma_multiset_commutative(one + y2 + d1 + d2 + s1 + s2, r2);
    vstd::seq_lib::lemma_multiset_commutative(d1, s1);
    vstd::seq_lib::lemma_multiset_commutative(d1 + s1, one);
    vstd::seq_lib::lemma_multiset_commutative(y2, d2);
    vstd::seq_lib::lemma_multiset_commutative(y2 + d2, s2);
    vstd::seq_lib::lemma_multiset_commutative(y2 + d2 + s2, r2);
    vstd::seq_lib::lemma_multiset_commutative(d1 + s1 + one, y2 + d2 + s2 + r2);
    assert((one + y2 + d1 + d2 + s1 + s2 + r2).to_multiset() =~= ((d1 + s1 + one) + (y2 + d2 + s2
        + r2)).to_multiset());
}

/// What is handed out or dropped is gone for good: after a block was
/// filled from a well-formed queue, the queue is well formed again, and no
/// hash that was handed out or dropped waits in it or has a transaction in
/// it any more. So no later pop hands the same transaction out again, unless
/// it is pushed again.
pub proof fn lemma_handed_out_is_gone(queue: QueueView, is_leader: bool, wsv: WsvView, now: u64)
    requires
        queue.wf(),
    ensures
        queue.left_behind(is_leader, wsv, now).wf(),
        ({
            let t = queue.taken(is_leader, wsv, now);
            let after = queue.left_behind(is_leader, wsv, now);
            forall|h: crypto::Hash|
                t.yielded.contains(h) || t.dropped.contains(h) ==> !after.order.contains(h)
                    && !after.transactions.dom().contains(h)
        }),
{
    let cx = queue.context(is_leader, wsv, now);
    let room = queue.max_in_block as nat;
    let t = queue.taken(is_leader, wsv, now);
    let after = queue.left_behind(is_leader, wsv, now);
    let gone = t.yielded + t.dropped;
    let kept = t.rest + t.deferred;
    let all = t.yielded + t.dropped + t.deferred + t.rest;
    assert(queue.order + Seq::<crypto::Hash>::empty() =~= queue.order);
    lemma_take_available(queue.order, queue.transactions, cx, room);
    lemma_taken_once(queue.order, queue.transactions, cx, room);
    assert forall|h: crypto::Hash| all.contains(h) == queue.order.contains(h) by {
        vstd::seq_lib::to_multiset_contains(all, h);
        vstd::seq_lib::to_multiset_contains(queue.order, h);
    }
    crate::seqs::lemma_concat_to_set(t.yielded, t.dropped);
    crate::seqs::lemma_concat_to_set(gone, t.deferred);
    crate::seqs::lemma_concat_to_set(gone + t.deferred, t.rest);
    crate::seqs::lemma_concat_to_set(t.rest, t.deferred);
    assert(all =~= (gone + t.deferred) + t.rest);
    assert forall|h: crypto::Hash| gone.contains(h) implies !kept.contains(h) by {
        let i = choose|i: int| 0 <= i < gone.len() && gone[i] == h;
        if kept.contains(h) {
            let j = choose|j: int| 0 <= j < kept.len() && kept[j] == h;
            if j < t.rest.len() {
                assert(all[gone.len() + t.deferred.len() + j] == h);
            } else {
                assert(all[gone.len() + (j - t.rest.len())] == h);
            }
            assert(all[i] == h);
        }
    }
    assert forall|i: int, j: int| 0 <= i < j < kept.len() implies kept[i] != kept[j] by {
        let at = |k: int|
            if k < t.rest.len() {
                gone.len() + t.deferred.len() + k
            } else {
                gone.len() + (k - t.rest.len())
            };
        assert(all[at(i)] == kept[i]);
        assert(all[at(j)] == kept[j]);
    }
    assert(after.order + Seq::<crypto::Hash>::empty() =~= kept);
    assert forall|h: crypto::Hash|
        after.transactions.dom().contains(h) <==> kept.contains(h) by {
        assert(gone.to_set().contains(h) == gone.contains(h));
        assert(kept.to_set().contains(h) == kept.contains(h));
        assert(all.to_set().contains(h) == all.contains(h));
        assert(t.deferred.to_set().contains(h) == t.deferred.contains(h));
        assert(t.rest.to_set().contains(h) == t.rest.contains(h));
        assert((queue.order + Seq::<crypto::Hash>::empty()).contains(h) == queue.order.contains(h));
        assert(queue.transactions.dom().contains(h) == queue.order.contains(h));
        assert(after.transactions.dom().contains(h) == (queue.transactions.dom().contains(h)
            && !gone.to_set().contains(h)));
        assert(all.to_set().contains(h) == (gone.to_set().contains(h)
            || t.deferred.to_set().contains(h) || t.rest.to_set().contains(h)));
        assert(kept.to_set().contains(h) == (t.rest.to_set().contains(h)
            || t.deferred.to_set().contains(h)));
        if gone.contains(h) {
            assert(!kept.contains(h));
        }
    }
}

/// Something that is done to a queue.
pub enum QueueStep {
    /// A transaction is pushed.
    Push(TransactionView),
    /// A block is filled.
    Pop {
        /// Whether the peer that pops is the leader.
        is_leader: bool,
        /// The world state at the pop.
        wsv: WsvView,
        /// The time of the pop.
        now: u64,
    },
}

/// The queue after `steps` were done to it, one after the other.
pub open spec fn after_steps(queue: QueueView, steps: Seq<QueueStep>) -> QueueView
    decreases steps.len(),
{
    if steps.len() == 0 {
        queue
    } else {
        let before = after_steps(queue, steps.drop_last());
        match steps.last() {
            QueueStep::Push(tx) => before.pushed(tx),
            QueueStep::Pop { is_leader, wsv, now } => before.left_behind(is_leader, wsv, now),
        }
    }
}

/// The hashes that the step at `index` of `steps` hands out, if it is a
/// pop; a push hands out nothing.
pub open spec fn handed_out_at(queue: QueueView, steps: Seq<QueueStep>, index: int) -> Seq<
    crypto::Hash,
> {
    match steps[index] {
        QueueStep::Push(_) => Seq::empty(),
        QueueStep::Pop { is_leader, wsv, now } => after_steps(queue, steps.take(index)).taken(
            is_leader,
            wsv,
            now,
        ).yielded,
    }
}

/// Whether no transaction that `steps` push is signed twice by one key.
pub open spec fn pushes_wf(steps: Seq<QueueStep>) -> bool {
    forall|i: int|
        0 <= i < steps.len() ==> ((#[trigger] steps[i]) matches QueueStep::Push(tx)
            ==> distinct_keys(tx.signatures))
}

/// A push leaves a well-formed queue well formed, and puts no other hash
/// in it than that of the transaction pushed.
pub proof fn lemma_pushed(queue: QueueView, tx: TransactionView)
    requires
        queue.wf(),
        distinct_keys(tx.signatures),
    ensures
        queue.pushed(tx).wf(),
        forall|h: crypto::Hash|
            queue.pushed(tx).transactions.dom().contains(h) ==> queue.transactions.dom().contains(
                h,
            ) || h == tx.hash(),
{
    let after = queue.pushed(tx);
    let h = tx.hash();
    let nothing = Seq::<crypto::Hash>::empty();
    assert(queue.order + nothing =~= queue.order);
    assert(after.order + nothing =~= after.order);
    if queue.transactions.dom().contains(h) {
        lemma_merged(queue.transactions[h].signatures, tx.signatures);
        assert(after.transactions.dom() =~= queue.transactions.dom());
    } else if queue.order.len() < queue.max_in_queue {
        assert(!queue.order.contains(h));
        assert forall|x: crypto::Hash|
            after.transactions.dom().contains(x) <==> after.order.contains(x) by {
            if after.order.contains(x) {
                let i = choose|i: int| 0 <= i < after.order.len() && after.order[i] == x;
                if i < queue.order.len() {
                    assert(queue.order.contains(queue.order[i]));
                }
            }
            if queue.order.contains(x) {
                let i = choose|i: int| 0 <= i < queue.order.len() && queue.order[i] == x;
                assert(after.order[i] == x);
            }
            if x == h {
                assert(after.order[queue.order.len() as int] == x);
            }
        }
        assert forall|i: int, j: int| 0 <= i < j < after.order.len() implies after.order[i]
            != after.order[j] by {
            if j == queue.order.len() {
                assert(queue.order.contains(queue.order[i]));
            }
        }
    }
}

/// Whatever is done to a well-formed queue leaves it well formed.
pub proof fn lemma_steps_keep_wf(queue: QueueView, steps: Seq<QueueStep>)
    requires
        queue.wf(),
        pushes_wf(steps),
    ensures
        after_steps(queue, steps).wf(),
    decreases steps.len(),
{
    if steps.len() > 0 {
        let before = after_steps(queue, steps.drop_last());
        assert forall|i: int| 0 <= i < steps.drop_last().len() implies ((
        #[trigger] steps.drop_last()[i]) matches QueueStep::Push(tx) ==> distinct_keys(
            tx.signatures,
        )) by {
            assert(steps.drop_last()[i] == steps[i]);
        }
        lemma_steps_keep_wf(queue, steps.drop_last());
        match steps.last() {
            QueueStep::Push(tx) => {
                assert(steps[steps.len() - 1] == steps.last());
                lemma_pushed(before, tx);
            },
            QueueStep::Pop { is_leader, wsv, now } => {
                lemma_handed_out_is_gone(before, is_leader, wsv, now);
            },
        }
    }
}

/// A hash that has no transaction in the queue has none after further
/// steps either, as long as no step pushes a transaction of that hash.
proof fn lemma_stays_out(
    queue: QueueView,
    steps: Seq<QueueStep>,
    from: int,
    to: int,
    h: crypto::Hash,
)
    requires
        queue.wf(),
        pushes_wf(steps),
        0 <= from <= to <= steps.len(),
        !after_steps(queue, steps.take(from)).transactions.dom().contains(h),
        forall|k: int|
            from <= k < to ==> ((#[trigger] steps[k]) matches QueueStep::Push(tx) ==> tx.hash()
                != h),
    ensures
        !after_steps(queue, steps.take(to)).transactions.dom().contains(h),
    decreases to - from,
{
    if from < to {
        lemma_stays_out(queue, steps, from, to - 1, h);
        let prefix = steps.take(to);
        assert(prefix.drop_last() =~= steps.take(to - 1));
        assert(prefix.last() == steps[to - 1]);
        let before = after_steps(queue, steps.take(to - 1));
        assert(pushes_wf(steps.take(to - 1))) by {
            assert forall|i: int| 0 <= i < steps.take(to - 1).len() implies ((
            #[trigger] steps.take(to - 1)[i]) matches QueueStep::Push(tx) ==> distinct_keys(
                tx.signatures,
            )) by {
                assert(steps.take(to - 1)[i] == steps[i]);
            }
        }
        lemma_steps_keep_wf(queue, steps.take(to - 1));
        match steps[to - 1] {
            QueueStep::Push(tx) => {
                lemma_pushed(before, tx);
            },
            QueueStep::Pop { is_leader, wsv, now } => {},
        }
    }
}

/// Every accepted transaction is handed out at most once. Whatever is
/// pushed to and popped from a well-formed queue: no pop hands a hash out
/// twice, and a hash that one pop handed out is handed out by no later pop,
/// unless a transaction of that hash was pushed again in between.
pub proof fn lemma_handed_out_at_most_once(
    queue: QueueView,
    steps: Seq<QueueStep>,
    first: int,
    second: int,
    h: crypto::Hash,
)
    requires
        queue.wf(),
        pushes_wf(steps),
        0 <= first < second < steps.len(),
        handed_out_at(queue, steps, first).contains(h),
        forall|k: int|
            first < k < second ==> ((#[trigger] steps[k]) matches QueueStep::Push(tx) ==> tx.hash()
                != h),
    ensures
        handed_out_at(queue, steps, first).no_duplicates(),
        handed_out_at(queue, steps, second).no_duplicates(),
        !handed_out_at(queue, steps, second).contains(h),
{
    lemma_hands_out_what_waits(queue, steps, first);
    lemma_hands_out_what_waits(queue, steps, second);
    match steps[first] {
        QueueStep::Push(_) => {},
        QueueStep::Pop { is_leader, wsv, now } => {
            let at = after_steps(queue, steps.take(first));
            assert(pushes_wf(steps.take(first))) by {
                assert forall|i: int| 0 <= i < steps.take(first).len() implies ((
                #[trigger] steps.take(first)[i]) matches QueueStep::Push(tx) ==> distinct_keys(
                    tx.signatures,
                )) by {
                    assert(steps.take(first)[i] == steps[i]);
                }
            }
            lemma_steps_keep_wf(queue, steps.take(first));
            lemma_handed_out_is_gone(at, is_leader, wsv, now);
            let next = steps.take(first + 1);
            assert(next.drop_last() =~= steps.take(first));
            assert(next.last() == steps[first]);
            assert(!after_steps(queue, next).transactions.dom().contains(h));
            lemma_stays_out(queue, steps, first + 1, second, h);
        },
    }
}

/// A pop hands out only hashes of transactions that wait, and none twice.
proof fn lemma_hands_out_what_waits(queue: QueueView, steps: Seq<QueueStep>, index: int)
    requires
        queue.wf(),
        pushes_wf(steps),
        0 <= index < steps.len(),
    ensures
        handed_out_at(queue, steps, index).no_duplicates(),
        forall|h: crypto::Hash|
            handed_out_at(queue, steps, index).contains(h) ==> after_steps(
                queue,
                steps.take(index),
            ).transactions.dom().contains(h),
{
    match steps[index] {
        QueueStep::Push(_) => {},
        QueueStep::Pop { is_leader, wsv, now } => {
            let at = after_steps(queue, steps.take(index));
            assert(pushes_wf(steps.take(index))) by {
                assert forall|i: int| 0 <= i < steps.take(index).len() implies ((
                #[trigger] steps.take(index)[i]) matches QueueStep::Push(tx) ==> distinct_keys(
                    tx.signatures,
                )) by {
                    assert(steps.take(index)[i] == steps[i]);
                }
            }
            lemma_steps_keep_wf(queue, steps.take(index));
            let cx = at.context(is_leader, wsv, now);
            let room = at.max_in_block as nat;
            let t = at.taken(is_leader, wsv, now);
            let all = t.yielded + t.dropped + t.deferred + t.rest;
            lemma_take_available(at.order, at.transactions, cx, room);
            lemma_taken_once(at.order, at.transactions, cx, room);
            assert(at.order + Seq::<crypto::Hash>::empty() =~= at.order);
            assert forall|i: int, j: int| 0 <= i < j < t.yielded.len() implies t.yielded[i]
                != t.yielded[j] by {
                assert(all[i] == t.yielded[i]);
                assert(all[j] == t.yielded[j]);
            }
            assert forall|h: crypto::Hash|
                t.yielded.contains(h) implies at.transactions.dom().contains(h) by {
                let i = choose|i: int| 0 <= i < t.yielded.len() && t.yielded[i] == h;
                assert(all[i] == h);
                assert(all.contains(h));
                vstd::seq_lib::to_multiset_contains(all, h);
                vstd::seq_lib::to_multiset_contains(at.order, h);
                assert(at.order.contains(h));
            }
        },
    }
}

/// The transactions of a map, under hashes in place of their bytes.
pub open spec fn by_hash(map: Map<[u8; 32], TransactionView>) -> Map<
    crypto::Hash,
    TransactionView,
> {
    Map::new(|h: crypto::Hash| map.dom().contains(h.0), |h: crypto::Hash| map[h.0])
}

/// What a `Queue` stands for in contracts.
pub struct QueueView {
    /// The hashes that wait, the one whose turn comes next first.
    pub order: Seq<crypto::Hash>,
    /// The transactions that wait, each under its hash.
    pub transactions: Map<crypto::Hash, TransactionView>,
    /// How many transactions a block may take.
    pub max_in_block: usize,
    /// How many transactions may wait.
    pub max_in_queue: usize,
    /// After how many milliseconds a waiting transaction is dropped.
    pub ttl_ms: u64,
}

impl QueueView {
    /// The invariant of a queue once `aside` is counted in: the hashes
    /// that wait and those put aside are all different, they are the hashes
    /// under which transactions are kept, they are no more than may wait,
    /// and no transaction is signed twice by one key.
    pub open spec fn consistent(self, aside: Seq<crypto::Hash>) -> bool {
        &&& (self.order + aside).no_duplicates()
        &&& forall|h: crypto::Hash|
            self.transactions.dom().contains(h) <==> (self.order + aside).contains(h)
        &&& self.order.len() + aside.len() <= self.max_in_queue
        &&& forall|h: crypto::Hash| #[trigger]
            self.transactions.dom().contains(h) ==> distinct_keys(self.transactions[h].signatures)
    }

    /// The invariant of a queue.
    pub open spec fn wf(self) -> bool {
        self.consistent(Seq::empty())
    }

    /// What decides the fate of the transactions of this queue at `now`.
    pub open spec fn context(self, is_leader: bool, wsv: WsvView, now: u64) -> PopContext {
        PopContext { is_leader, wsv, ttl_ms: self.ttl_ms, now }
    }

    /// The hashes that filling a block at `now` sorts into its four lots.
    pub open spec fn taken(self, is_leader: bool, wsv: WsvView, now: u64) -> Taken {
        take_available(
            self.order,
            self.transactions,
            self.context(is_leader, wsv, now),
            self.max_in_block as nat,
        )
    }

    /// The transactions that filling a block at `now` hands out, in their order.
    pub open spec fn handed_out(self, is_leader: bool, wsv: WsvView, now: u64) -> Seq<
        TransactionView,
    > {
        self.taken(is_leader, wsv, now).yielded.map_values(|h: crypto::Hash| self.transactions[h])
    }

    /// The queue that filling a block at `now` leaves: what never had its
    /// turn waits on, followed by what was put aside; what was handed out
    /// or dropped is gone.
    pub open spec fn left_behind(self, is_leader: bool, wsv: WsvView, now: u64) -> QueueView {
        let t = self.taken(is_leader, wsv, now);
        QueueView {
            order: t.rest + t.deferred,
            transactions: self.transactions.remove_keys((t.yielded + t.dropped).to_set()),
            ..self
        }
    }

    /// The queue after `tx` was pushed. A transaction whose hash waits
    /// already leaves its signatures with the one that waits. Else, when as
    /// many wait as may, nothing changes. Else `tx` waits at the end.
    pub open spec fn pushed(self, tx: TransactionView) -> QueueView {
        let h = tx.hash();
        if self.transactions.dom().contains(h) {
            let waiting = self.transactions[h];
            QueueView {
                transactions: self.transactions.insert(
                    h,
                    TransactionView {
                        signatures: merged(waiting.signatures, tx.signatures),
                        ..waiting
                    },
                ),
                ..self
            }
        } else if self.order.len() >= self.max_in_queue {
            self
        } else {
            QueueView {
                order: self.order.push(h),
                transactions: self.transactions.insert(h, tx),
                ..self
            }
        }
    }

    /// Whether `transactions` are what waits under the hashes of `hashes`,
    /// in the order of `hashes`, and `hashes` are the hashes of all that
    /// waits, each once.
    pub open spec fn listed_by(
        self,
        transactions: Seq<TransactionView>,
        hashes: Seq<crypto::Hash>,
    ) -> bool {
        &&& hashes.no_duplicates()
        &&& hashes.to_set() == self.transactions.dom()
        &&& transactions == hashes.map_values(|h: crypto::Hash| self.transactions[h])
    }

    /// Whether `transaction` waits in the queue.
    pub open spec fn waits(self, transaction: TransactionView) -> bool {
        exists|h: crypto::Hash|
            self.transactions.dom().contains(h) && #[trigger] self.transactions[h] == transaction
    }

    /// Whether each transaction is kept under its own hash.
    pub open spec fn keyed_by_hash(self) -> bool {
        forall|h: crypto::Hash| #[trigger]
            self.transactions.dom().contains(h) ==> self.transactions[h].hash() == h
    }
}

/// The queue of the transactions that wait for a block.
#[derive(Debug)]
pub struct Queue {
    queue: ArrayQueue<crypto::Hash>,
    txs: DashMap<[u8; 32], AcceptedTransaction, RandomState>,
    len: usize,
    txs_in_block: usize,
    txs_in_queue: usize,
    ttl_ms: u64,
}

impl View for Queue {
    type V = QueueView;

    closed spec fn view(&self) -> QueueView {
        QueueView {
            order: queued(&self.queue),
            transactions: by_hash(stored(&self.txs)),
            max_in_block: self.txs_in_block,
            max_in_queue: self.txs_in_queue,
            ttl_ms: self.ttl_ms,
        }
    }
}

impl Queue {
    /// The invariant of a queue while `aside` is put aside.
    pub closed spec fn consistent(&self, aside: Seq<crypto::Hash>) -> bool {
        &&& self@.consistent(aside)
        &&& self.len == queued(&self.queue).len() + aside.len()
        &&& queue_capacity(&self.queue) == self.txs_in_queue
    }

    /// The invariant of a queue.
    pub open spec fn wf(&self) -> bool {
        self.consistent(Seq::empty())
    }

    /// A well-formed queue stands for a well-formed view: the hashes that
    /// wait are all different, they are the hashes under which transactions
    /// are kept, and they are no more than may wait.
    pub proof fn lemma_wf(&self)
        requires
            self.wf(),
        ensures
            self@.wf(),
    {
    }

    /// An empty queue with the limits of `cfg`.
    pub fn from_configuration(cfg: &QueueConfiguration) -> (r: Queue)
        requires
            0 < cfg.maximum_transactions_in_queue <= usize::MAX / 128,
        ensures
            r.wf(),
            r@.wf(),
            r@.order == Seq::<crypto::Hash>::empty(),
            r@.transactions == Map::<crypto::Hash, TransactionView>::empty(),
            r@.max_in_block == cfg.maximum_transactions_in_block,
            r@.max_in_queue == cfg.maximum_transactions_in_queue,
            r@.ttl_ms == cfg.transaction_time_to_live_ms,
    {
        let r = Queue {
            queue: queue_new(cfg.maximum_transactions_in_queue as usize),
            txs: store_new(),
            txs_in_queue: cfg.maximum_transactions_in_queue as usize,
            txs_in_block: cfg.maximum_transactions_in_block as usize,
            ttl_ms: cfg.transaction_time_to_live_ms,
            len: 0,
        };
        proof {
            assert(r@.transactions =~= Map::<crypto::Hash, TransactionView>::empty());
            assert(r@.order + Seq::<crypto::Hash>::empty() =~= Seq::<crypto::Hash>::empty());
        }
        r
    }

    /// How many transactions wait.
    pub fn len(&self) -> (n: usize)
        ensures
            n == self@.order.len(),
    {
        queue_len(&self.queue)
    }

    /// A copy of the transaction that waits under `hash`, if there is one.
    pub fn get(&self, hash: &crypto::Hash) -> (r: Option<AcceptedTransaction>)
        ensures
            r is Some == self@.transactions.dom().contains(*hash),
            r is Some ==> r->Some_0@ == self@.transactions[*hash],
    {
        store_get(&self.txs, &hash.0)
    }

    /// Copies of all the transactions that wait, each once, in no
    /// particular order: what is handed out is what waits under the hashes
    /// of some list that holds each hash of a waiting transaction once. So
    /// each one handed out waits in the queue, each one that waits is handed
    /// out, and as many are handed out as wait.
    pub fn waiting(&self) -> (r: Vec<AcceptedTransaction>)
        ensures
            exists|hashes: Seq<crypto::Hash>| self@.listed_by(tx_views(r@), hashes),
            forall|i: int| 0 <= i < r@.len() ==> self@.waits(#[trigger] r@[i]@),
            forall|h: crypto::Hash| #[trigger]
                self@.transactions.dom().contains(h) ==> lists(r@, self@.transactions[h]),
            self@.transactions.dom().finite(),
            r@.len() == self@.transactions.dom().len(),
    {
        let r = store_values(&self.txs);
        proof {
            let map = stored(&self.txs);
            let keys = choose|keys: Seq<[u8; 32]>| listed_by(map, r@, keys);
            let hashes = keys.map_values(|k: [u8; 32]| crypto::Hash(k));
            assert forall|i: int, j: int| 0 <= i < j < hashes.len() implies hashes[i]
                != hashes[j] by {
                assert(keys[i] != keys[j]);
            }
            assert(hashes.to_set() =~= self@.transactions.dom()) by {
                assert forall|h: crypto::Hash|
                    hashes.to_set().contains(h) == self@.transactions.dom().contains(h) by {
                    if hashes.contains(h) {
                        let i = choose|i: int| 0 <= i < hashes.len() && hashes[i] == h;
                        assert(keys.contains(keys[i]));
                        assert(keys.to_set().contains(h.0));
                    }
                    if self@.transactions.dom().contains(h) {
                        assert(keys.to_set().contains(h.0));
                        let i = choose|i: int| 0 <= i < keys.len() && keys[i] == h.0;
                        assert(hashes[i] == h);
                    }
                }
            }
            assert(tx_views(r@) =~= hashes.map_values(|h: crypto::Hash| self@.transactions[h]));
            assert(self@.listed_by(tx_views(r@), hashes));
            hashes.unique_seq_to_set();
            assert forall|i: int| 0 <= i < r@.len() implies self@.waits(#[trigger] r@[i]@) by {
                assert(hashes.contains(hashes[i]));
                assert(self@.transactions.dom().contains(hashes[i]));
                assert(self@.transactions[hashes[i]] == r@[i]@);
            }
            assert forall|h: crypto::Hash| #[trigger]
                self@.transactions.dom().contains(h) implies lists(r@, self@.transactions[h]) by {
                assert(hashes.to_set().contains(h));
                let i = choose|i: int| 0 <= i < hashes.len() && hashes[i] == h;
                assert(r@[i]@ == self@.transactions[h]);
            }
        }
        r
    }

    /// Puts `tx` in the queue.
    ///
    /// A transaction whose hash waits already is not put in a second time:
    /// its signatures join those of the one that waits. Else, when as many
    /// transactions wait as may, the queue is left as it is and `tx` comes
    /// back as the error. Else `tx` waits at the end of the queue.
    pub fn push(&mut self, tx: AcceptedTransaction) -> (r: Result<(), AcceptedTransaction>)
        requires
            old(self).wf(),
            tx.wf(),
        ensures
            final(self).wf(),
            final(self)@.wf(),
            final(self)@ == old(self)@.pushed(tx@),
            final(self)@.max_in_block == old(self)@.max_in_block,
            final(self)@.max_in_queue == old(self)@.max_in_queue,
            final(self)@.ttl_ms == old(self)@.ttl_ms,
            old(self)@.transactions.dom().contains(tx@.hash()) ==> {
                let waiting = old(self)@.transactions[tx@.hash()];
                &&& r is Ok
                &&& final(self)@.order == old(self)@.order
                &&& final(self)@.transactions == old(self)@.transactions.insert(
                    tx@.hash(),
                    TransactionView {
                        signatures: merged(waiting.signatures, tx@.signatures),
                        ..waiting
                    },
                )
                &&& signers(final(self)@.transactions[tx@.hash()].signatures) == signers(
                    waiting.signatures,
                ).union(signers(tx@.signatures))
            },
            !old(self)@.transactions.dom().contains(tx@.hash()) && old(self)@.order.len() >= old(
                self,
            )@.max_in_queue ==> {
                &&& r is Err
                &&& r->Err_0@ == tx@
                &&& final(self)@ == old(self)@
            },
            !old(self)@.transactions.dom().contains(tx@.hash()) && old(self)@.order.len() < old(
                self,
            )@.max_in_queue ==> {
                &&& r is Ok
                &&& final(self)@.order == old(self)@.order.push(tx@.hash())
                &&& final(self)@.transactions == old(self)@.transactions.insert(tx@.hash(), tx@)
            },
            old(self)@.keyed_by_hash() ==> final(self)@.keyed_by_hash(),
    {
        let hash = tx.hash();
        let ghost before = self@;
        let ghost nothing = Seq::<crypto::Hash>::empty();
        proof {
            assert(before.order + nothing =~= before.order);
        }
        match store_remove(&mut self.txs, &hash.0) {
            Some(waiting) => {
                let ghost old_view = waiting@;
                let mut waiting = waiting;
                proof {
                    assert(before.transactions.dom().contains(hash));
                    lemma_merged(old_view.signatures, tx@.signatures);
                }
                waiting.merge_signatures(&tx.signatures);
                store_insert(&mut self.txs, hash.0, waiting);
                proof {
                    assert(self@.transactions =~= before.transactions.insert(hash, waiting@));
                    assert(self@.order + nothing =~= self@.order);
                    assert(waiting@.hash() == old_view.hash());
                }
                Ok(())
            },
            None => {
                proof {
                    assert(!before.transactions.dom().contains(hash));
                    assert(self@.transactions =~= before.transactions);
                }
                if self.len >= self.txs_in_queue {
                    return Err(tx);
                }
                let ghost view = tx@;
                let pushed = queue_push(&mut self.queue, hash);
                self.len = self.len + 1;
                store_insert(&mut self.txs, hash.0, tx);
                proof {
                    assert(self@.transactions =~= before.transactions.insert(hash, view));
                    assert(self@.order + nothing =~= self@.order);
                    assert(!before.order.contains(hash));
                    assert forall|h: crypto::Hash|
                        self@.transactions.dom().contains(h) <==> self@.order.contains(h) by {
                        if self@.order.contains(h) {
                            let i = choose|i: int|
                                0 <= i < self@.order.len() && self@.order[i] == h;
                            if i < before.order.len() {
                                assert(before.order.contains(before.order[i]));
                            }
                        }
                        if before.order.contains(h) {
                            let i = choose|i: int|
                                0 <= i < before.order.len() && before.order[i] == h;
                            assert(self@.order[i] == h);
                        }
                        if h == hash {
                            assert(self@.order[before.order.len() as int] == h);
                        }
                    }
                }
                Ok(())
            },
        }
    }

    /// What becomes of `transaction` when its turn comes.
    fn judge(
        &self,
        transaction: &AcceptedTransaction,
        is_leader: bool,
        wsv: &WorldStateView,
        now: u64,
    ) -> (r: Verdict)
        ensures
            r == verdict(transaction@, self@.context(is_leader, wsv@, now)),
    {
        if transaction.is_expired_at(self.ttl_ms, now) || transaction.is_in_blockchain(wsv) {
            return Verdict::Drop;
        }
        match transaction.check_signature_condition(wsv) {
            Err(_) => Verdict::Drop,
            Ok(met) => if !is_leader || met {
                Verdict::Yield
            } else {
                Verdict::Defer
            },
        }
    }

    /// Pops one transaction: the hashes that wait take their turn from the
    /// front until one is handed out or none is left. What is put aside on
    /// the way is added to `seen`.
    fn pop(
        &mut self,
        is_leader: bool,
        wsv: &WorldStateView,
        seen: &mut Vec<crypto::Hash>,
        now: u64,
    ) -> (r: Option<AcceptedTransaction>)
        requires
            old(self).consistent(old(seen)@),
        ensures
            ({
                let p = pop_from(
                    old(self)@.order,
                    old(self)@.transactions,
                    old(self)@.context(is_leader, wsv@, now),
                );
                let first = match p.yielded {
                    Some(h) => seq![h],
                    None => Seq::empty(),
                };
                &&& final(self).consistent(final(seen)@)
                &&& final(self)@.order == p.rest
                &&& final(seen)@ == old(seen)@ + p.deferred
                &&& final(self)@.transactions == old(self)@.transactions.remove_keys(
                    (p.dropped + first).to_set(),
                )
                &&& p.yielded is Some ==> r is Some && r->Some_0@ == old(
                    self,
                )@.transactions[p.yielded->Some_0] && r->Some_0.wf()
                &&& p.yielded is None ==> r is None
                &&& final(self)@.max_in_block == old(self)@.max_in_block
                &&& final(self)@.max_in_queue == old(self)@.max_in_queue
                &&& final(self)@.ttl_ms == old(self)@.ttl_ms
            }),
    {
        let ghost start = self@;
        let ghost cx = self@.context(is_leader, wsv@, now);
        let ghost seen0 = seen@;
        let ghost dropped = Seq::<crypto::Hash>::empty();
        let ghost deferred = Seq::<crypto::Hash>::empty();
        proof {
            assert(seen0 + deferred =~= seen0);
            assert(start.transactions.remove_keys(dropped.to_set()) =~= start.transactions);
        }
        loop
            invariant
                self.consistent(seen@),
                start == old(self)@,
                seen0 == old(seen)@,
                cx == start.context(is_leader, wsv@, now),
                cx == self@.context(is_leader, wsv@, now),
                start.consistent(seen0),
                seen@ == seen0 + deferred,
                self@.transactions == start.transactions.remove_keys(dropped.to_set()),
                self@.max_in_block == start.max_in_block,
                self@.max_in_queue == start.max_in_queue,
                self@.ttl_ms == start.ttl_ms,
                forall|i: int|
                    0 <= i < dropped.len() ==> !(self@.order + seen@).contains(dropped[i]),
                ({
                    let whole = pop_from(start.order, start.transactions, cx);
                    let here = pop_from(self@.order, start.transactions, cx);
                    &&& whole.yielded == here.yielded
                    &&& whole.dropped == dropped + here.dropped
                    &&& whole.deferred == deferred + here.deferred
                    &&& whole.rest == here.rest
                }),
            decreases self@.order.len(),
        {
            let ghost before = self@;
            let ghost order = self@.order;
            let ghost here = pop_from(order, start.transactions, cx);
            let ghost whole = pop_from(start.order, start.transactions, cx);
            assert(before.consistent(seen@));
            let hash = match queue_pop(&mut self.queue) {
                Some(hash) => hash,
                None => {
                    proof {
                        assert(order.len() == 0);
                        assert(here.dropped =~= Seq::<crypto::Hash>::empty());
                        assert(whole.dropped =~= dropped);
                        assert(whole.deferred =~= deferred);
                        assert(whole.dropped + Seq::<crypto::Hash>::empty() =~= dropped);
                        assert(self@ == before);
                        assert(whole.yielded is None);
                        assert(self.consistent(seen@));
                        assert(self@.order =~= whole.rest);
                        assert(seen@ == seen0 + whole.deferred);
                        assert(self@.transactions == start.transactions.remove_keys(
                            (whole.dropped + Seq::<crypto::Hash>::empty()).to_set(),
                        ));
                    }
                    return None;
                },
            };
            proof {
                assert(self@.transactions == before.transactions);
                assert(hash == order[0]);
                assert((order + seen@)[0] == hash);
                assert((order + seen@).contains(hash));
                assert(before.transactions.dom().contains(hash));
                assert(start.transactions.dom().contains(hash));
                assert(self@.transactions[hash] == start.transactions[hash]);
            }
            let transaction = match store_get(&self.txs, &hash.0) {
                Some(transaction) => transaction,
                None => {
                    assert(false);
                    return None;
                },
            };
            let ghost tail = order.drop_first();
            let ghost later = pop_from(tail, start.transactions, cx);
            match self.judge(&transaction, is_leader, wsv, now) {
                Verdict::Drop => {
                    self.len = self.len - 1;
                    let _ = store_remove(&mut self.txs, &hash.0);
                    proof {
                        let more = dropped.push(hash);
                        assert(forall|h: crypto::Hash| (h.0 == hash.0) == (h == hash));
                        assert(self@.transactions =~= before.transactions.remove(hash));
                        crate::seqs::lemma_remove_one_more(start.transactions, dropped, hash);
                        assert(more + later.dropped =~= dropped + (seq![hash] + later.dropped));
                        lemma_shorter(order, seen@, self@.transactions, start.max_in_queue);
                        assert forall|i: int| 0 <= i < more.len() implies !(tail + seen@).contains(
                            more[i],
                        ) by {
                            lemma_tail_lacks(order, seen@, more[i]);
                        }
                        dropped = more;
                    }
                },
                Verdict::Yield => {
                    self.len = self.len - 1;
                    let taken = store_remove(&mut self.txs, &hash.0);
                    proof {
                        let gone = dropped + seq![hash];
                        assert(here.dropped =~= Seq::<crypto::Hash>::empty());
                        assert(dropped + here.dropped =~= dropped);
                        assert(deferred + here.deferred =~= deferred);
                        assert(forall|h: crypto::Hash| (h.0 == hash.0) == (h == hash));
                        assert(self@.transactions =~= before.transactions.remove(hash));
                        assert(gone =~= dropped.push(hash));
                        crate::seqs::lemma_remove_one_more(start.transactions, dropped, hash);
                        lemma_shorter(order, seen@, self@.transactions, start.max_in_queue);
                    }
                    return Some(transaction);
                },
                Verdict::Defer => {
                    let ghost aside = seen@;
                    seen.push(hash);
                    proof {
                        let more = deferred.push(hash);
                        assert(seen@ =~= seen0 + more);
                        assert(more + later.deferred =~= deferred + (seq![hash] + later.deferred));
                        lemma_moved(order, aside, self@.transactions, start.max_in_queue);
                        assert forall|i: int| 0 <= i < dropped.len() implies !(tail
                            + seen@).contains(dropped[i]) by {
                            lemma_moved_lacks(order, aside, dropped[i]);
                        }
                        deferred = more;
                    }
                },
            }
        }
    }
}

/// Taking the first hash out of the queue, and its transaction out of the
/// map, keeps the queue consistent.
proof fn lemma_shorter(
    order: Seq<crypto::Hash>,
    aside: Seq<crypto::Hash>,
    transactions: Map<crypto::Hash, TransactionView>,
    max_in_queue: usize,
)
    requires
        order.len() > 0,
        (order + aside).no_duplicates(),
        forall|h: crypto::Hash|
            transactions.dom().contains(h) <==> ((order + aside).contains(h) && h != order[0]),
    ensures
        (order.drop_first() + aside).no_duplicates(),
        forall|h: crypto::Hash|
            transactions.dom().contains(h) <==> (order.drop_first() + aside).contains(h),
{
    let whole = order + aside;
    let less = order.drop_first() + aside;
    assert(less =~= whole.drop_first());
    assert(whole[0] == order[0]);
    assert forall|h: crypto::Hash| less.contains(h) <==> (whole.contains(h) && h != order[0]) by {
        if less.contains(h) {
            let i = choose|i: int| 0 <= i < less.len() && less[i] == h;
            assert(whole[i + 1] == h);
            assert(whole[i + 1] != whole[0]);
        }
        if whole.contains(h) && h != order[0] {
            let i = choose|i: int| 0 <= i < whole.len() && whole[i] == h;
            assert(less[i - 1] == h);
        }
    }
    assert forall|i: int, j: int| 0 <= i < j < less.len() implies less[i] != less[j] by {
        assert(less[i] == whole[i + 1]);
        assert(less[j] == whole[j + 1]);
    }
}

/// What stands neither in the queue nor aside does not stand there once
/// the first hash is taken out.
proof fn lemma_tail_lacks(order: Seq<crypto::Hash>, aside: Seq<crypto::Hash>, h: crypto::Hash)
    requires
        order.len() > 0,
        (order + aside).no_duplicates(),
        !(order + aside).contains(h) || h == order[0],
    ensures
        !(order.drop_first() + aside).contains(h),
{
    let whole = order + aside;
    let less = order.drop_first() + aside;
    assert(less =~= whole.drop_first());
    assert(whole[0] == order[0]);
    if less.contains(h) {
        let i = choose|i: int| 0 <= i < less.len() && less[i] == h;
        assert(whole[i + 1] == h);
        assert(whole.contains(h));
        assert(whole[i + 1] != whole[0]);
    }
}

/// Moving the first hash of the queue to the end of those put aside keeps
/// the queue consistent.
proof fn lemma_moved(
    order: Seq<crypto::Hash>,
    aside: Seq<crypto::Hash>,
    transactions: Map<crypto::Hash, TransactionView>,
    max_in_queue: usize,
)
    requires
        order.len() > 0,
        (order + aside).no_duplicates(),
        forall|h: crypto::Hash| transactions.dom().contains(h) <==> (order + aside).contains(h),
    ensures
        (order.drop_first() + aside.push(order[0])).no_duplicates(),
        forall|h: crypto::Hash|
            transactions.dom().contains(h) <==> (order.drop_first() + aside.push(
                order[0],
            )).contains(h),
{
    let whole = order + aside;
    let turned = order.drop_first() + aside.push(order[0]);
    assert(turned =~= whole.drop_first().push(whole[0]));
    assert forall|i: int, j: int| 0 <= i < j < turned.len() implies turned[i] != turned[j] by {
        if j == turned.len() - 1 {
            assert(turned[i] == whole[i + 1]);
        } else {
            assert(turned[i] == whole[i + 1]);
            assert(turned[j] == whole[j + 1]);
        }
    }
    assert forall|h: crypto::Hash| turned.contains(h) <==> whole.contains(h) by {
        if turned.contains(h) {
            let i = choose|i: int| 0 <= i < turned.len() && turned[i] == h;
            if i == turned.len() - 1 {
                assert(whole[0] == h);
            } else {
                assert(whole[i + 1] == h);
            }
        }
        if whole.contains(h) {
            let i = choose|i: int| 0 <= i < whole.len() && whole[i] == h;
            if i == 0 {
                assert(turned[turned.len() - 1] == h);
            } else {
                assert(turned[i - 1] == h);
            }
        }
    }
}

/// What stands neither in the queue nor aside does not stand there once
/// the first hash is moved aside.
proof fn lemma_moved_lacks(order: Seq<crypto::Hash>, aside: Seq<crypto::Hash>, h: crypto::Hash)
    requires
        order.len() > 0,
        !(order + aside).contains(h),
    ensures
        !(order.drop_first() + aside.push(order[0])).contains(h),
{
    let whole = order + aside;
    let turned = order.drop_first() + aside.push(order[0]);
    assert(turned =~= whole.drop_first().push(whole[0]));
    if turned.contains(h) {
        let i = choose|i: int| 0 <= i < turned.len() && turned[i] == h;
        if i == turned.len() - 1 {
            assert(whole[0] == h);
        } else {
            assert(whole[i + 1] == h);
        }
        assert(whole.contains(h));
    }
}

/// One pop looks only at the transactions whose hashes wait.
proof fn lemma_pop_from_agrees(
    order: Seq<crypto::Hash>,
    a: Map<crypto::Hash, TransactionView>,
    b: Map<crypto::Hash, TransactionView>,
    cx: PopContext,
)
    requires
        forall|i: int| 0 <= i < order.len() ==> a[#[trigger] order[i]] == b[order[i]],
    ensures
        pop_from(order, a, cx) == pop_from(order, b, cx),
    decreases order.len(),
{
    if order.len() > 0 {
        let tail = order.drop_first();
        assert forall|i: int| 0 <= i < tail.len() implies a[#[trigger] tail[i]] == b[tail[i]] by {
            assert(tail[i] == order[i + 1]);
        }
        lemma_pop_from_agrees(tail, a, b, cx);
        assert(a[order[0]] == b[order[0]]);
    }
}

/// What a list of accepted transactions stands for in contracts.
pub open spec fn tx_views(transactions: Seq<AcceptedTransaction>) -> Seq<TransactionView> {
    transactions.map_values(|t: AcceptedTransaction| t@)
}

impl Queue {
    /// Fills a block at the time `now`: pops transactions until the block
    /// is full or nothing is handed out any more, then lets what was put
    /// aside wait again at the end of the queue.
    ///
    /// Must not run at the same time as another pop on the same queue.
    pub fn pop_avaliable_at(&mut self, is_leader: bool, wsv: &WorldStateView, now: u64) -> (r: Vec<
        AcceptedTransaction,
    >)
        requires
            old(self).wf(),
        ensures
            final(self).wf(),
            final(self)@.wf(),
            final(self)@ == old(self)@.left_behind(is_leader, wsv@, now),
            tx_views(r@) == old(self)@.handed_out(is_leader, wsv@, now),
            r@.len() <= old(self)@.max_in_block,
            forall|i: int| 0 <= i < r@.len() ==> (#[trigger] r@[i]).wf(),
    {
        let ghost start = self@;
        let ghost cx = self@.context(is_leader, wsv@, now);
        let ghost whole = take_available(
            start.order,
            start.transactions,
            cx,
            start.max_in_block as nat,
        );
        let mut seen: Vec<crypto::Hash> = Vec::new();
        let mut out: Vec<AcceptedTransaction> = Vec::new();
        let mut done = false;
        let ghost yielded = Seq::<crypto::Hash>::empty();
        let ghost dropped = Seq::<crypto::Hash>::empty();
        proof {
            assert(seen@ =~= Seq::<crypto::Hash>::empty());
            assert((yielded + dropped).to_set() =~= Set::<crypto::Hash>::empty());
            assert(start.transactions.remove_keys((yielded + dropped).to_set())
                =~= start.transactions);
            assert(tx_views(out@) =~= yielded.map_values(|h: crypto::Hash| start.transactions[h]));
            let here = take_available(
                self@.order,
                start.transactions,
                cx,
                start.max_in_block as nat,
            );
            assert(yielded + here.yielded =~= here.yielded);
            assert(dropped + here.dropped =~= here.dropped);
            assert(seen@ + here.deferred =~= here.deferred);
        }
        while !done && out.len() < self.txs_in_block
            invariant
                self.consistent(seen@),
                start == old(self)@,
                start.wf(),
                cx == start.context(is_leader, wsv@, now),
                cx == self@.context(is_leader, wsv@, now),
                whole == take_available(
                    start.order,
                    start.transactions,
                    cx,
                    start.max_in_block as nat,
                ),
                self@.max_in_block == start.max_in_block,
                self@.max_in_queue == start.max_in_queue,
                self@.ttl_ms == start.ttl_ms,
                self.txs_in_block == start.max_in_block,
                out@.len() == yielded.len(),
                out@.len() <= self.txs_in_block,
                tx_views(out@) == yielded.map_values(|h: crypto::Hash| start.transactions[h]),
                forall|i: int| 0 <= i < out@.len() ==> (#[trigger] out@[i]).wf(),
                self@.transactions == start.transactions.remove_keys((yielded + dropped).to_set()),
                ({
                    let room = if done {
                        0nat
                    } else {
                        (self.txs_in_block - out@.len()) as nat
                    };
                    let here = take_available(self@.order, start.transactions, cx, room);
                    &&& whole.yielded == yielded + here.yielded
                    &&& whole.dropped == dropped + here.dropped
                    &&& whole.deferred == seen@ + here.deferred
                    &&& whole.rest == here.rest
                }),
            decreases (if done { 0int } else { 1int }), self.txs_in_block - out@.len(),
        {
            let ghost before = self@;
            let ghost aside = seen@;
            let ghost room = (self.txs_in_block - out@.len()) as nat;
            let ghost here = take_available(before.order, start.transactions, cx, room);
            let ghost p = pop_from(before.order, before.transactions, cx);
            proof {
                assert(before.consistent(aside));
                assert forall|i: int| 0 <= i < before.order.len() implies before.transactions[
                #[trigger] before.order[i]] == start.transactions[before.order[i]] by {
                    assert((before.order + aside)[i] == before.order[i]);
                    assert((before.order + aside).contains(before.order[i]));
                    assert(before.transactions.dom().contains(before.order[i]));
                }
                lemma_pop_from_agrees(before.order, before.transactions, start.transactions, cx);
            }
            match self.pop(is_leader, wsv, &mut seen, now) {
                None => {
                    done = true;
                    proof {
                        let more = dropped + p.dropped;
                        assert(p.dropped + Seq::<crypto::Hash>::empty() =~= p.dropped);
                        assert(dropped + here.dropped =~= more);
                        assert((yielded + more) =~= (yielded + dropped) + p.dropped);
                        crate::seqs::lemma_concat_to_set(yielded + dropped, p.dropped);
                        assert(self@.transactions =~= start.transactions.remove_keys(
                            (yielded + more).to_set(),
                        ));
                        lemma_pop_from(before.order, before.transactions, cx);
                        assert(self@.order =~= Seq::<crypto::Hash>::empty());
                        let next = take_available(self@.order, start.transactions, cx, 0);
                        assert(yielded + next.yielded =~= yielded);
                        assert(more + next.dropped =~= more);
                        assert(seen@ + next.deferred =~= seen@);
                        assert(aside + here.deferred =~= seen@);
                        dropped = more;
                    }
                },
                Some(transaction) => {
                    let ghost h = p.yielded->Some_0;
                    let ghost view = transaction@;
                    let ghost before_out = tx_views(out@);
                    out.push(transaction);
                    proof {
                        let later = take_available(
                            p.rest,
                            start.transactions,
                            cx,
                            (room - 1) as nat,
                        );
                        let more_y = yielded.push(h);
                        let more_d = dropped + p.dropped;
                        lemma_pop_from(before.order, before.transactions, cx);
                        assert(before.order.contains(h)) by {
                            let parts = p.dropped + p.deferred + seq![h] + p.rest;
                            assert(parts[(p.dropped.len() + p.deferred.len()) as int] == h);
                            assert(parts.contains(h));
                            vstd::seq_lib::to_multiset_contains(parts, h);
                            vstd::seq_lib::to_multiset_contains(before.order, h);
                        }
                        let at = choose|i: int| 0 <= i < before.order.len() && before.order[i] == h;
                        assert(before.transactions[before.order[at]] == start.transactions[h]);
                        assert(view == start.transactions[h]);
                        assert(tx_views(out@) =~= before_out.push(view));
                        assert(tx_views(out@) =~= more_y.map_values(
                            |h: crypto::Hash| start.transactions[h],
                        ));
                        assert(more_y + later.yielded =~= yielded + (seq![h] + later.yielded));
                        assert(more_d + later.dropped =~= dropped + (p.dropped + later.dropped));
                        assert(seen@ + later.deferred =~= aside + (p.deferred + later.deferred));
                        assert((more_y + more_d).to_set() =~= (yielded + dropped).to_set().union(
                            (p.dropped + seq![h]).to_set(),
                        )) by {
                            crate::seqs::lemma_concat_to_set(more_y, more_d);
                            crate::seqs::lemma_concat_to_set(yielded, dropped);
                            crate::seqs::lemma_concat_to_set(p.dropped, seq![h]);
                            crate::seqs::lemma_concat_to_set(dropped, p.dropped);
                            crate::seqs::lemma_concat_to_set(yielded, seq![h]);
                            assert(more_y =~= yielded + seq![h]);
                        }
                        assert(self@.transactions =~= start.transactions.remove_keys(
                            (more_y + more_d).to_set(),
                        ));
                        yielded = more_y;
                        dropped = more_d;
                    }
                },
            }
        }
        let ghost rest = self@.order;
        proof {
            let here = take_available(self@.order, start.transactions, cx, 0);
            assert(yielded + here.yielded =~= yielded);
            assert(dropped + here.dropped =~= dropped);
            assert(seen@ + here.deferred =~= seen@);
            assert(whole.yielded == yielded);
            assert(whole.dropped == dropped);
            assert(whole.deferred == seen@);
            assert(whole.rest == rest);
        }
        let mut i: usize = 0;
        proof {
            assert(rest + seen@.take(0) =~= rest);
            assert(seen@.skip(0) =~= seen@);
        }
        while i < seen.len()
            invariant
                i <= seen.len(),
                self@.consistent(seen@.skip(i as int)),
                self@.order == rest + seen@.take(i as int),
                self.len == rest.len() + seen@.len(),
                queue_capacity(&self.queue) == self.txs_in_queue,
                self@.transactions == start.transactions.remove_keys((yielded + dropped).to_set()),
                self@.max_in_block == start.max_in_block,
                self@.max_in_queue == start.max_in_queue,
                self@.ttl_ms == start.ttl_ms,
            decreases seen.len() - i,
        {
            let ghost before = self@;
            let _ = queue_push(&mut self.queue, seen[i]);
            proof {
                let aside = seen@.skip(i as int);
                let next = seen@.skip(i as int + 1);
                assert(aside[0] == seen@[i as int]);
                assert(next =~= aside.drop_first());
                assert(seen@.take(i as int + 1) =~= seen@.take(i as int).push(seen@[i as int]));
                assert(self@.order =~= rest + seen@.take(i as int + 1));
                assert(self@.order + next =~= before.order + aside);
            }
            i += 1;
        }
        proof {
            assert(seen@.take(seen@.len() as int) =~= seen@);
            assert(seen@.skip(seen@.len() as int) =~= Seq::<crypto::Hash>::empty());
        }
        out
    }

    /// Fills a block by the clock of this machine; see `pop_avaliable_at`.
    ///
    /// Must not run at the same time as another pop on the same queue.
    pub fn pop_avaliable(&mut self, is_leader: bool, wsv: &WorldStateView) -> (r: Vec<
        AcceptedTransaction,
    >)
        requires
            old(self).wf(),
        ensures
            final(self).wf(),
            final(self)@.wf(),
            r@.len() <= old(self)@.max_in_block,
            exists|now: u64|
                final(self)@ == #[trigger] old(self)@.left_behind(is_leader, wsv@, now) && tx_views(
                    r@,
                ) == old(self)@.handed_out(is_leader, wsv@, now),
    {
        let now = saturated(current_time_ms());
        self.pop_avaliable_at(is_leader, wsv, now)
    }
}

} // verus!
