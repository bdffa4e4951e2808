//! What holds of a channel whose operations run one after another.
use vstd::prelude::*;

use crate::channel::channel;
use crate::channel::channel::{ChannelView, Wait};
use crate::channel::protocol;
use crate::channel::region::{QueueView, SlotView};
use crate::channel::{ChannelRole, TesseraChannelError};

verus! {

/// The slot of position `p` in a queue of `n` slots.
pub open spec fn slot(q: QueueView, p: int, n: int) -> SlotView {
    q.slots[p % n]
}

/// Two positions less than `n` apart have different slots.
pub proof fn lemma_distinct_slots(p: int, r: int, n: int)
    requires
        n > 0,
        p != r,
        -n < p - r < n,
    ensures
        p % n != r % n,
{
    if p % n == r % n {
        let a = p / n;
        let b = r / n;
        vstd::arithmetic::div_mod::lemma_fundamental_div_mod(p, n);
        vstd::arithmetic::div_mod::lemma_fundamental_div_mod(r, n);
        assert(p - r == n * (a - b)) by (nonlinear_arith)
            requires
                p == n * a + p % n,
                r == n * b + r % n,
                p % n == r % n,
        ;
        assert(a == b) by (nonlinear_arith)
            requires
                p - r == n * (a - b),
                -n < p - r < n,
                n > 0,
        ;
        assert(p == r) by (nonlinear_arith)
            requires
                a == b,
                p - r == n * (a - b),
        ;
    }
}

/// A slot index is below the slot count.
pub proof fn lemma_slot_in_range(p: int, n: int)
    requires
        n > 0,
        p >= 0,
    ensures
        0 <= p % n < n,
{
    vstd::arithmetic::div_mod::lemma_mod_bound(p, n);
}

/// Between operations: the taken positions are the ones from head to tail,
/// at most one per slot, each published in its slot.
pub open spec fn settled(q: QueueView, n: int, size: int) -> bool {
    &&& 0 < n <= u32::MAX
    &&& q.slots.len() == n
    &&& q.head <= q.tail <= q.head + n
    &&& forall|i: int| 0 <= i < n ==> (#[trigger] q.slots[i]).payload.len() == size
    &&& forall|p: int|
        q.head <= p < q.tail ==> (#[trigger] slot(q, p, n)).ready != 0 && slot(q, p, n).sequence
            == p
}

/// The messages that wait in a queue, the next one to leave first.
pub open spec fn waiting(q: QueueView, n: int) -> Seq<Seq<u8>> {
    Seq::new((q.tail - q.head) as nat, |k: int| slot(q, q.head + k, n).message())
}

/// An empty queue is settled and holds nothing.
pub proof fn law_empty_queue(q: QueueView, n: int, size: int)
    requires
        0 < n <= u32::MAX,
        q.slots.len() == n,
        q.head == q.tail,
        forall|i: int| 0 <= i < n ==> (#[trigger] q.slots[i]).payload.len() == size,
    ensures
        settled(q, n, size),
        waiting(q, n) == Seq::<Seq<u8>>::empty(),
{
    assert(waiting(q, n) =~= Seq::<Seq<u8>>::empty());
}

/// A send to a queue with room appends its message and changes nothing that
/// waits. There is room while fewer messages wait than there are slots.
pub proof fn law_send_appends(q: QueueView, n: u32, size: int, message: Seq<u8>, timestamp: u64)
    requires
        settled(q, n as int, size),
        message.len() <= size <= u32::MAX,
        q.tail < u64::MAX,
    ensures
        channel::queue_is_full(q, n) <==> waiting(q, n as int).len() == n,
        !channel::queue_is_full(q, n) ==> settled(
            channel::after_send(q, n, message, timestamp),
            n as int,
            size,
        ) && waiting(channel::after_send(q, n, message, timestamp), n as int) == waiting(
            q,
            n as int,
        ).push(message),
{
    if !channel::queue_is_full(q, n) {
        let m = n as int;
        let t = q.tail as int;
        let after = channel::after_send(q, n, message, timestamp);
        lemma_slot_in_range(t, m);
        let i = t % m;
        assert(protocol::slot_of(q.tail, n) == i);
        let s = after.slots[i];
        assert(s.message() =~= message);
        assert forall|p: int| q.head <= p < after.tail implies (#[trigger] slot(after, p, m)).ready
            != 0 && slot(after, p, m).sequence == p by {
            lemma_slot_in_range(p, m);
            if p < t {
                lemma_distinct_slots(p, t, m);
                assert(slot(after, p, m) == slot(q, p, m));
            }
        }
        assert forall|k: int| 0 <= k < waiting(after, m).len() implies waiting(after, m)[k]
            == waiting(q, m).push(message)[k] by {
            let p = q.head + k;
            lemma_slot_in_range(p, m);
            if p < t {
                lemma_distinct_slots(p, t, m);
            }
        }
        assert(waiting(after, m) =~= waiting(q, m).push(message));
    }
}

/// A receive from a queue with messages takes the one that was sent first
/// and leaves the others in order.
pub proof fn law_recv_takes_the_first(q: QueueView, n: u32, size: int)
    requires
        settled(q, n as int, size),
        q.head < q.tail,
    ensures
        slot(q, q.head as int, n as int).ready != 0,
        slot(q, q.head as int, n as int).sequence == q.head,
        slot(q, q.head as int, n as int).message() == waiting(q, n as int)[0],
        settled(channel::after_recv(q, n), n as int, size),
        waiting(channel::after_recv(q, n), n as int) == waiting(q, n as int).drop_first(),
{
    let m = n as int;
    let h = q.head as int;
    let after = channel::after_recv(q, n);
    lemma_slot_in_range(h, m);
    assert(protocol::slot_of(q.head, n) == h % m);
    assert(slot(q, h, m).sequence == h);
    assert forall|p: int| after.head <= p < after.tail implies (#[trigger] slot(after, p, m)).ready
        != 0 && slot(after, p, m).sequence == p by {
        lemma_slot_in_range(p, m);
        lemma_distinct_slots(p, h, m);
        assert(slot(after, p, m) == slot(q, p, m));
    }
    assert forall|k: int| 0 <= k < waiting(after, m).len() implies waiting(after, m)[k] == waiting(
        q,
        m,
    ).drop_first()[k] by {
        let p = after.head + k;
        lemma_slot_in_range(p, m);
        lemma_distinct_slots(p, h, m);
    }
    assert(waiting(after, m) =~= waiting(q, m).drop_first());
}

/// The message of position `p` is in its slot, ready to be received.
pub open spec fn is_ready(q: QueueView, p: int, n: int) -> bool {
    slot(q, p, n).ready != 0 && slot(q, p, n).sequence == p
}

/// Receiving is one dequeue at a time: of two receives that take turns, by
/// one receiver or by two that share the segment, with two messages ready,
/// one gives the first message and the other the second, each exactly once,
/// and the head has moved on by two.
pub proof fn law_receives_in_turn_take_one_message_each(
    a: ChannelView,
    b: ChannelView,
    q: QueueView,
    wait_a: Wait,
    wait_b: Wait,
    late_a: bool,
    late_b: bool,
    first: core::result::Result<Option<Vec<u8>>, TesseraChannelError>,
    between: QueueView,
    second: core::result::Result<Option<Vec<u8>>, TesseraChannelError>,
    after: QueueView,
)
    requires
        a.role == ChannelRole::Receiver,
        b.role == ChannelRole::Receiver,
        a.region.slot_count > 0,
        b.region.slot_count == a.region.slot_count,
        q.slots.len() == a.region.slot_count,
        q.head + 2 <= q.tail,
        is_ready(q, q.head as int, a.region.slot_count as int),
        is_ready(q, q.head + 1, a.region.slot_count as int),
        channel::recv_contract(a, q, wait_a, late_a, first, between),
        channel::recv_contract(b, between, wait_b, late_b, second, after),
    ensures
        ({
            let n = a.region.slot_count as int;
            &&& first matches Ok(Some(m)) && m@ == slot(q, q.head as int, n).message()
            &&& second matches Ok(Some(m)) && m@ == slot(q, q.head + 1, n).message()
            &&& after.head == q.head + 2
            &&& after.tail == q.tail
            &&& slot(after, q.head as int, n).ready == 0
            &&& slot(after, q.head + 1, n).ready == 0
        }),
{
    let n = a.region.slot_count as int;
    let h = q.head as int;
    lemma_slot_in_range(h, n);
    lemma_slot_in_range(h + 1, n);
    if h % n == (h + 1) % n {
        assert(slot(q, h, n).sequence == slot(q, h + 1, n).sequence);
    }
    assert(protocol::slot_of(q.head, a.region.slot_count) == h % n);
    assert(between.head == h + 1);
    assert(protocol::slot_of(between.head, b.region.slot_count) == (h + 1) % n);
    assert(slot(between, h + 1, n) == slot(q, h + 1, n));
}

} // verus!
