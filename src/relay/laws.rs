//! What holds of every chain, whatever its length and capacity.
use vstd::prelude::*;
use super::lemmas::{
    lemma_closed_upstream, lemma_flow_empty, lemma_flow_frame, lemma_flow_pop_tail,
    lemma_flow_push_head, lemma_head_has_room, lemma_quiescent_delivers, lemma_send_into_empty,
};
use super::model::{valid_bound, ChainState};

verus! {

/// A fresh chain is well formed, carries nothing and takes a message.
pub proof fn lemma_fresh(hops: nat, bound: Option<nat>)
    requires
        valid_bound(bound),
    ensures
        ChainState::fresh(hops, bound).wf(),
        ChainState::fresh(hops, bound).in_flight().len() == 0,
        ChainState::fresh(hops, bound).can_accept(),
        ChainState::fresh(hops, bound).tail_open(),
{
    let s = ChainState::fresh(hops, bound);
    lemma_flow_empty(s.channels, s.channels.len());
}


/// Round trip: whatever state a fresh chain of any length and capacity
/// settles to after one message `m` is sent into it, a receive at its tail
/// returns exactly `m`.
pub proof fn lemma_round_trip(hops: nat, bound: Option<nat>, m: Seq<u8>, settled: ChainState)
    requires
        valid_bound(bound),
        ChainState::fresh(hops, bound).after_send(m).settles_to(settled),
    ensures
        ChainState::fresh(hops, bound).can_accept(),
        settled.next_message() == Some(m),
        settled.in_flight() == seq![m],
{
    let s = ChainState::fresh(hops, bound);
    lemma_fresh(hops, bound);
    lemma_send_into_empty(s, m);
    lemma_quiescent_delivers(settled);
}

/// Order: on a fresh chain, sending `m1`, waiting for it to arrive and
/// receiving it, then sending `m2` and waiting again, delivers `m1` first and
/// then `m2`; the second send is accepted.
pub proof fn lemma_round_trips_in_order(
    hops: nat,
    bound: Option<nat>,
    m1: Seq<u8>,
    m2: Seq<u8>,
    first: ChainState,
    second: ChainState,
)
    requires
        valid_bound(bound),
        ChainState::fresh(hops, bound).after_send(m1).settles_to(first),
        first.after_receive().after_send(m2).settles_to(second),
    ensures
        first.next_message() == Some(m1),
        first.after_receive().can_accept(),
        second.next_message() == Some(m2),
{
    lemma_round_trip(hops, bound, m1, first);
    let u = first.after_receive();
    lemma_flow_pop_tail(first.channels, u.channels);
    assert(u.in_flight().len() == 0);
    lemma_flow_empty(u.channels, u.channels.len());
    assert(u.channels[0].queue.len() == 0);
    assert(first.channels[0].receiver_open);
    assert(u.wf()) by {
        assert forall|j: int| 0 <= j < u.channels.len() && !#[trigger] u.channels[j].receiver_open implies u.channels[j].queue.len() == 0 by {
            assert(!first.channels[j].receiver_open);
        }
    }
    lemma_send_into_empty(u, m2);
    lemma_quiescent_delivers(second);
}

/// Zero hops: the head sender feeds the tail channel directly, so a message
/// sent into a fresh chain without hops can be received at once, and there
/// is no hop to run.
pub proof fn lemma_zero_hops_identity(bound: Option<nat>, m: Seq<u8>)
    requires
        valid_bound(bound),
    ensures
        ChainState::fresh(0, bound).can_accept(),
        ChainState::fresh(0, bound).after_send(m).next_message() == Some(m),
        ChainState::fresh(0, bound).after_send(m).quiescent(),
{
    lemma_fresh(0, bound);
}

/// Closing: once the head sender is dropped and the chain has settled,
/// every hop whose inbound channel and all channels before it are empty has
/// seen the closure and exited; when nothing was in flight (and the tail
/// receiver is held), every hop has exited and a receive at the tail reports
/// the chain as closed.
pub proof fn lemma_close_head_stops_hops(s: ChainState, settled: ChainState)
    requires
        s.wf(),
        s.after_close_head().settles_to(settled),
    ensures
        forall|i: int|
            0 <= i < settled.hops() && (forall|k: int| 0 <= k <= i ==> #[trigger] settled.channels[k].queue.len() == 0)
                ==> !#[trigger] settled.hop_alive(i),
        s.tail_open() && s.in_flight().len() == 0 ==> {
            &&& forall|i: int| 0 <= i < settled.hops() ==> !#[trigger] settled.hop_alive(i)
            &&& settled.tail_closed()
        },
{
    assert forall|i: int|
        0 <= i < settled.hops() && (forall|k: int| 0 <= k <= i ==> #[trigger] settled.channels[k].queue.len() == 0)
            implies !#[trigger] settled.hop_alive(i) by {
        lemma_closed_upstream(settled, i + 1);
    }
    if s.tail_open() && s.in_flight().len() == 0 {
        let c = s.after_close_head();
        lemma_flow_frame(s.channels, c.channels, 0, s.channels.len());
        lemma_flow_empty(settled.channels, settled.channels.len());
        lemma_closed_upstream(settled, settled.hops() as int);
        assert(settled.channels[settled.hops() as int].queue.len() == 0);
    }
}

/// Back-pressure: on a fresh chain of capacity-one channels with at least one
/// hop, a second message sent before the first has moved on is refused (and
/// handed back by `RelayChain::send`); once the chain has settled, the head
/// has room again and the second send keeps both messages, in order.
pub proof fn lemma_backpressure(hops: nat, m1: Seq<u8>, m2: Seq<u8>, settled: ChainState)
    requires
        hops >= 1,
        ChainState::fresh(hops, Some(1)).after_send(m1).settles_to(settled),
    ensures
        !ChainState::fresh(hops, Some(1)).after_send(m1).can_accept(),
        settled.can_accept(),
        settled.after_send(m2).in_flight() == seq![m1, m2],
{
    let s = ChainState::fresh(hops, Some(1));
    lemma_fresh(hops, Some(1));
    lemma_send_into_empty(s, m1);
    assert(settled.in_flight() == seq![m1]);
    lemma_head_has_room(settled);
    assert(settled.channels[0].receiver_open);
    lemma_flow_push_head(settled.channels, settled.after_send(m2).channels, m2, settled.channels.len());
    assert(settled.after_send(m2).in_flight() =~= seq![m1, m2]);
}

} // verus!
