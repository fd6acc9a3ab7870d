//! What holds of receiver selection, of health and of message ids.

use crate::producer::view::{
    distinct, first_available, following_id, is_available, ProducerView, ReceiverView,
};
use crate::producer::ReceiverStatus;
use vstd::prelude::*;

verus! {

/// Skipping subscribers that are not available does not change who is first.
pub proof fn lemma_first_available_skip(
    subscribers: Seq<usize>,
    receivers: Map<usize, ReceiverView>,
    n: int,
)
    requires
        0 <= n <= subscribers.len(),
        forall|j: int| 0 <= j < n ==> !is_available(receivers, #[trigger] subscribers[j]),
    ensures
        first_available(subscribers, receivers) == first_available(
            subscribers.subrange(n, subscribers.len() as int),
            receivers,
        ),
    decreases n,
{
    if n == 0 {
        assert(subscribers.subrange(0, subscribers.len() as int) =~= subscribers);
    } else {
        let rest = subscribers.drop_first();
        assert forall|j: int| 0 <= j < n - 1 implies !is_available(
            receivers,
            #[trigger] rest[j],
        ) by {
            assert(rest[j] == subscribers[j + 1]);
        }
        lemma_first_available_skip(rest, receivers, n - 1);
        assert(rest.subrange(n - 1, rest.len() as int) =~= subscribers.subrange(
            n,
            subscribers.len() as int,
        ));
    }
}

/// Who is selected is the first subscriber that is available, and nobody is
/// selected exactly when no subscriber is available.
pub proof fn lemma_first_available(subscribers: Seq<usize>, receivers: Map<usize, ReceiverView>)
    ensures
        match first_available(subscribers, receivers) {
            Some(id) => exists|i: int|
                {
                    &&& 0 <= i < subscribers.len()
                    &&& #[trigger] subscribers[i] == id
                    &&& is_available(receivers, id)
                    &&& forall|j: int| 0 <= j < i ==> !is_available(receivers, #[trigger] subscribers[j])
                },
            None => forall|j: int|
                0 <= j < subscribers.len() ==> !is_available(receivers, #[trigger] subscribers[j]),
        },
    decreases subscribers.len(),
{
    if subscribers.len() > 0 && !is_available(receivers, subscribers[0]) {
        let rest = subscribers.drop_first();
        lemma_first_available(rest, receivers);
        match first_available(rest, receivers) {
            Some(id) => {
                let i = choose|i: int|
                    {
                        &&& 0 <= i < rest.len()
                        &&& #[trigger] rest[i] == id
                        &&& is_available(receivers, id)
                        &&& forall|j: int| 0 <= j < i ==> !is_available(receivers, #[trigger] rest[j])
                    };
                assert(subscribers[i + 1] == id);
                assert forall|j: int| 0 <= j < i + 1 implies !is_available(
                    receivers,
                    #[trigger] subscribers[j],
                ) by {
                    if j > 0 {
                        assert(subscribers[j] == rest[j - 1]);
                    }
                }
            },
            None => {
                assert forall|j: int| 0 <= j < subscribers.len() implies !is_available(
                    receivers,
                    #[trigger] subscribers[j],
                ) by {
                    if j > 0 {
                        assert(subscribers[j] == rest[j - 1]);
                    }
                }
            },
        }
    } else if subscribers.len() > 0 {
        assert(subscribers[0] == subscribers[0]);
    }
}

/// Nobody is selected for a topic that is not declared, or that none of the
/// available receivers subscribed to.
pub proof fn lemma_no_receiver_available(state: ProducerView, topic: Seq<char>)
    ensures
        state.select(topic) is None <==> (state.declares(topic) ==> forall|k: int|
            0 <= k < state.topics[state.position(topic)].subscribers.len() ==> !is_available(
                state.receivers,
                #[trigger] state.topics[state.position(topic)].subscribers[k],
            )),
{
    if state.declares(topic) {
        lemma_first_available(state.topics[state.position(topic)].subscribers, state.receivers);
    }
}

/// Health failover: once the receiver that a topic's messages went to is
/// marked down, they go to the next subscriber that is available.
pub proof fn lemma_failover(state: ProducerView, topic: Seq<char>, first: usize, second: usize, at: int)
    requires
        state.declares(topic),
        state.select(topic) == Some(first),
        second != first,
        is_available(state.receivers, second),
        0 <= at < state.topics[state.position(topic)].subscribers.len(),
        state.topics[state.position(topic)].subscribers[at] == second,
        forall|j: int|
            0 <= j < at ==> {
                let id = #[trigger] state.topics[state.position(topic)].subscribers[j];
                id == first || !is_available(state.receivers, id)
            },
    ensures
        state.marked_down(first).receivers[first].status == ReceiverStatus::Down,
        state.marked_down(first).select(topic) == Some(second),
{
    let after = state.marked_down(first);
    let subscribers = state.topics[state.position(topic)].subscribers;
    assert(after.topics == state.topics);
    assert(after.declares(topic) && after.position(topic) == state.position(topic));
    assert forall|j: int| 0 <= j < at implies !is_available(
        after.receivers,
        #[trigger] subscribers[j],
    ) by {}
    lemma_first_available_skip(subscribers, after.receivers, at);
    let rest = subscribers.subrange(at, subscribers.len() as int);
    assert(rest.len() > 0 && rest[0] == second);
    assert(is_available(after.receivers, second));
}

/// A receiver that is marked down is selected for no topic.
pub proof fn lemma_down_is_not_selected(state: ProducerView, topic: Seq<char>, id: usize)
    ensures
        state.marked_down(id).select(topic) != Some(id),
{
    let after = state.marked_down(id);
    if after.declares(topic) {
        lemma_first_available(after.topics[after.position(topic)].subscribers, after.receivers);
    }
}

/// Health only goes down: a receiver that is down stays down while ids are
/// handed out, frames are recorded and validated, and receivers are marked
/// down. Only registering it anew makes it available again.
pub proof fn lemma_down_stays_down(
    state: ProducerView,
    id: usize,
    other: usize,
    position: int,
    message_id: usize,
    frame: Seq<u8>,
)
    requires
        state.receivers.contains_key(id),
        state.receivers[id].status == ReceiverStatus::Down,
    ensures
        state.advanced().receivers[id].status == ReceiverStatus::Down,
        state.marked_down(other).receivers[id].status == ReceiverStatus::Down,
        state.recorded(position, message_id, frame).receivers[id].status == ReceiverStatus::Down,
        state.validated(position, message_id).receivers[id].status == ReceiverStatus::Down,
{
}

/// The `n`th id handed out by a counter that stands at `start`.
pub open spec fn nth_message_id(start: usize, n: nat) -> usize
    decreases n,
{
    if n == 0 {
        start
    } else {
        following_id(nth_message_id(start, (n - 1) as nat))
    }
}

/// The `n`th id is `n` steps behind the counter, counted modulo the number
/// of values of `usize`.
pub proof fn lemma_nth_message_id(start: usize, n: nat)
    ensures
        nth_message_id(start, n) == (start + n) % (usize::MAX + 1),
    decreases n,
{
    if n > 0 {
        lemma_nth_message_id(start, (n - 1) as nat);
        let span = usize::MAX + 1;
        let before = (start + n - 1) % span;
        assert((start + n) % span == if before == usize::MAX {
            0
        } else {
            before + 1
        }) by (nonlinear_arith)
            requires
                span > 0,
                before == (start + n - 1) % span,
                span == usize::MAX + 1,
        ;
    } else {
        assert(start as int % (usize::MAX + 1) == start) by (nonlinear_arith)
            requires
                0 <= start <= usize::MAX,
        ;
    }
}

/// Monotonic ids: of the ids that a manager hands out one after another, a
/// later one is larger than an earlier one as long as the counter has not
/// started again at zero, and no two are the same unless the counter went
/// round in between.
pub proof fn lemma_message_ids_distinct(start: usize, i: nat, j: nat)
    requires
        i < j,
    ensures
        start + j <= usize::MAX ==> nth_message_id(start, i) < nth_message_id(start, j),
        j - i <= usize::MAX ==> nth_message_id(start, i) != nth_message_id(start, j),
{
    lemma_nth_message_id(start, i);
    lemma_nth_message_id(start, j);
    let span = usize::MAX + 1;
    if j - i <= usize::MAX && (start + i) % span == (start + j) % span {
        assert(false) by (nonlinear_arith)
            requires
                span > 0,
                0 < j - i < span,
                (start + i) % span == (start + j) % span,
        ;
    }
    if start + j <= usize::MAX {
        assert((start + i) % span == start + i && (start + j) % span == start + j)
            by (nonlinear_arith)
            requires
                0 <= start + i < start + j < span,
        ;
    }
}

/// A name is among the distinct names exactly when it is among the names.
pub proof fn lemma_distinct_contains(names: Seq<Seq<char>>, name: Seq<char>)
    ensures
        distinct(names).contains(name) <==> names.contains(name),
    decreases names.len(),
{
    if names.len() > 0 {
        let front = names.drop_last();
        lemma_distinct_contains(front, name);
        if names.contains(name) {
            let i = choose|i: int| 0 <= i < names.len() && names[i] == name;
            if i < front.len() {
                assert(front[i] == name);
            }
        }
        if front.contains(name) {
            let i = choose|i: int| 0 <= i < front.len() && front[i] == name;
            assert(names[i] == name);
        }
        if distinct(front).contains(names.last()) {
        } else {
            let d = distinct(front);
            if d.push(names.last()).contains(name) {
                let i = choose|i: int| 0 <= i < d.len() + 1 && d.push(names.last())[i] == name;
                if i < d.len() {
                    assert(d[i] == name);
                } else {
                    assert(names[names.len() - 1] == name);
                }
            }
            if d.contains(name) {
                let i = choose|i: int| 0 <= i < d.len() && d[i] == name;
                assert(d.push(names.last())[i] == name);
            }
            if names.last() == name {
                assert(d.push(names.last())[d.len() as int] == name);
            }
        }
    }
}

} // verus!
