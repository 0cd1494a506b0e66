//! Facts about channel contents and hop moves that the chain and its
//! laws are proved from.
use vstd::prelude::*;
use super::model::{flow, rank, weight, ChainState, ChannelState};

verus! {

pub(crate) proof fn lemma_flow_frame(a: Seq<ChannelState>, b: Seq<ChannelState>, k0: nat, k: nat)
    requires
        k0 <= k <= a.len(),
        k <= b.len(),
        flow(a, k0) == flow(b, k0),
        forall|j: int| k0 <= j < k ==> #[trigger] a[j].queue == b[j].queue,
    ensures
        flow(a, k) == flow(b, k),
    decreases k,
{
    if k > k0 {
        lemma_flow_frame(a, b, k0, (k - 1) as nat);
    }
}

pub(crate) proof fn lemma_flow_push_head(a: Seq<ChannelState>, b: Seq<ChannelState>, m: Seq<u8>, k: nat)
    requires
        1 <= k <= a.len(),
        k <= b.len(),
        b[0].queue == a[0].queue.push(m),
        forall|j: int| 1 <= j < k ==> #[trigger] a[j].queue == b[j].queue,
    ensures
        flow(b, k) == flow(a, k).push(m),
    decreases k,
{
    if k == 1 {
        assert(flow(a, 0) =~= Seq::empty());
        assert(flow(b, 0) =~= Seq::empty());
        assert(flow(b, 1) =~= flow(a, 1).push(m));
    } else {
        lemma_flow_push_head(a, b, m, (k - 1) as nat);
        assert(flow(b, k) =~= flow(a, k).push(m));
    }
}

pub(crate) proof fn lemma_flow_forward(a: Seq<ChannelState>, b: Seq<ChannelState>, i: int)
    requires
        0 <= i,
        i + 1 < a.len(),
        a.len() == b.len(),
        a[i].queue.len() > 0,
        b[i].queue == a[i].queue.drop_first(),
        b[i + 1].queue == a[i + 1].queue.push(a[i].queue[0]),
        forall|j: int| 0 <= j < a.len() && j != i && j != i + 1 ==> #[trigger] a[j].queue == b[j].queue,
    ensures
        flow(a, a.len()) == flow(b, b.len()),
{
    lemma_flow_frame(a, b, 0, i as nat);
    let f = flow(a, i as nat);
    assert(flow(a, (i + 1) as nat) == a[i].queue + f);
    assert(flow(b, (i + 1) as nat) == b[i].queue + f);
    assert(flow(a, (i + 2) as nat) == a[i + 1].queue + (a[i].queue + f));
    assert(flow(b, (i + 2) as nat) == b[i + 1].queue + (b[i].queue + f));
    assert(a[i].queue =~= seq![a[i].queue[0]] + a[i].queue.drop_first());
    assert(flow(a, (i + 2) as nat) =~= flow(b, (i + 2) as nat));
    lemma_flow_frame(a, b, (i + 2) as nat, a.len());
}

pub(crate) proof fn lemma_flow_pop_tail(a: Seq<ChannelState>, b: Seq<ChannelState>)
    requires
        a.len() >= 1,
        a.len() == b.len(),
        a[a.len() - 1].queue.len() > 0,
        b[a.len() - 1].queue == a[a.len() - 1].queue.drop_first(),
        forall|j: int| 0 <= j < a.len() - 1 ==> #[trigger] a[j].queue == b[j].queue,
    ensures
        flow(a, a.len()).len() > 0,
        flow(a, a.len())[0] == a[a.len() - 1].queue[0],
        flow(b, b.len()) == flow(a, a.len()).drop_first(),
{
    let n = (a.len() - 1) as nat;
    lemma_flow_frame(a, b, 0, n);
    assert(flow(b, b.len()) =~= flow(a, a.len()).drop_first());
}

/// `flow` is empty exactly when every channel it covers is empty.
pub(crate) proof fn lemma_flow_empty(a: Seq<ChannelState>, k: nat)
    requires
        k <= a.len(),
    ensures
        flow(a, k).len() == 0 <==> forall|j: int| 0 <= j < k ==> #[trigger] a[j].queue.len() == 0,
    decreases k,
{
    if k > 0 {
        lemma_flow_empty(a, (k - 1) as nat);
    }
}

/// When the first `k` channels all hold a message, `flow` holds at least `k`.
pub(crate) proof fn lemma_flow_len_at_least(a: Seq<ChannelState>, k: nat)
    requires
        k <= a.len(),
        forall|j: int| 0 <= j < k ==> #[trigger] a[j].queue.len() > 0,
    ensures
        flow(a, k).len() >= k,
    decreases k,
{
    if k > 0 {
        lemma_flow_len_at_least(a, (k - 1) as nat);
    }
}

pub(crate) proof fn lemma_weight_frame(a: Seq<ChannelState>, b: Seq<ChannelState>, k0: nat, k: nat)
    requires
        k0 <= k <= a.len(),
        a.len() == b.len(),
        forall|j: int| k0 <= j < k ==> #[trigger] rank(a, j) == rank(b, j),
    ensures
        weight(b, k) - weight(a, k) == weight(b, k0) - weight(a, k0),
    decreases k,
{
    if k > k0 {
        lemma_weight_frame(a, b, k0, (k - 1) as nat);
    }
}

pub(crate) proof fn lemma_reaches_refl(s: ChainState)
    requires
        s.wf(),
    ensures
        s.reaches(s),
{
}

pub(crate) proof fn lemma_reaches_trans(a: ChainState, b: ChainState, c: ChainState)
    requires
        a.reaches(b),
        b.reaches(c),
    ensures
        a.reaches(c),
{
    assert forall|i: int| 0 <= i < a.hops() && #[trigger] c.hop_alive(i) implies a.hop_alive(i) by {
        assert(b.hop_alive(i));
    }
}

/// One hop move keeps the chain well formed, loses no message while the tail
/// receiver is held, and lowers the progress measure.
pub(crate) proof fn lemma_hop_step(s: ChainState, i: int)
    requires
        s.wf(),
        0 <= i < s.hops(),
    ensures
        s.reaches(s.hop_step(i)),
        s.hop_can_act(i) ==> s.hop_step(i).weight() < s.weight(),
{
    let t = s.hop_step(i);
    let a = s.channels;
    let b = t.channels;
    let n = a.len();
    if !s.hop_can_act(i) {
        lemma_reaches_refl(s);
    } else if a[i].queue.len() > 0 && a[i + 1].receiver_open {
        assert(b[i].queue == a[i].queue.drop_first());
        lemma_flow_forward(a, b, i);
        lemma_weight_frame(a, b, 0, i as nat);
        lemma_weight_frame(a, b, (i + 2) as nat, n);
        let q = a[i].queue.len();
        let r = a[i + 1].queue.len();
        let d = n - i;
        assert(rank(b, i) + 1 == rank(a, i) - d + 1) by {
            assert((q - 1) * d == q * d - d) by (nonlinear_arith);
        }
        assert(rank(b, i + 1) == rank(a, i + 1) + d - 1) by {
            assert((r + 1) * (d - 1) == r * (d - 1) + d - 1) by (nonlinear_arith);
        }
        assert(weight(a, (i + 1) as nat) == weight(a, i as nat) + rank(a, i));
        assert(weight(a, (i + 2) as nat) == weight(a, i as nat) + rank(a, i) + rank(a, i + 1));
        assert(weight(b, (i + 1) as nat) == weight(b, i as nat) + rank(b, i));
        assert(weight(b, (i + 2) as nat) == weight(b, i as nat) + rank(b, i) + rank(b, i + 1));
        assert forall|j: int| 0 <= j < n && !#[trigger] b[j].receiver_open implies b[j].queue.len() == 0 by {
            assert(a[j].receiver_open == b[j].receiver_open);
        }
    } else {
        if s.tail_open() {
            // A hop whose downstream receiver is gone has itself stopped,
            // so it exits here only on a closed, empty inbound channel.
            assert(a[i].queue.len() == 0);
            assert forall|j: int| 0 <= j < n implies #[trigger] a[j].queue == b[j].queue by {}
            lemma_flow_frame(a, b, 0, n);
        }
        lemma_weight_frame(a, b, 0, i as nat);
        lemma_weight_frame(a, b, (i + 2) as nat, n);
        assert(rank(a, i) >= 1);
        assert(rank(b, i) == 0);
        assert(rank(b, i + 1) == rank(a, i + 1));
        assert(weight(a, (i + 1) as nat) == weight(a, i as nat) + rank(a, i));
        assert(weight(a, (i + 2) as nat) == weight(a, i as nat) + rank(a, i) + rank(a, i + 1));
        assert(weight(b, (i + 1) as nat) == weight(b, i as nat) + rank(b, i));
        assert(weight(b, (i + 2) as nat) == weight(b, i as nat) + rank(b, i) + rank(b, i + 1));
    }
}

pub(crate) proof fn lemma_flow_front(a: Seq<ChannelState>)
    requires
        a.len() >= 1,
        a[a.len() - 1].queue.len() > 0,
    ensures
        flow(a, a.len()).len() > 0,
        flow(a, a.len())[0] == a[a.len() - 1].queue[0],
{
}

pub(crate) proof fn lemma_empty_downstream(s: ChainState, j: int)
    requires
        s.wf(),
        s.quiescent(),
        s.tail_open(),
        s.tail().queue.len() == 0,
        0 <= j <= s.hops(),
    ensures
        forall|k: int| j <= k <= s.hops() ==> #[trigger] s.channels[k].queue.len() == 0,
    decreases s.hops() - j,
{
    if j < s.hops() {
        lemma_empty_downstream(s, j + 1);
        assert(s.channels[j + 1].queue.len() == 0);
        if s.channels[j].queue.len() > 0 {
            assert(s.hop_can_act(j));
        }
    }
}

/// In a settled chain whose tail receiver is held, the oldest message in
/// flight waits at the tail.
pub(crate) proof fn lemma_quiescent_delivers(s: ChainState)
    requires
        s.wf(),
        s.quiescent(),
        s.tail_open(),
        s.in_flight().len() > 0,
    ensures
        s.next_message() == Some(s.in_flight()[0]),
{
    if s.tail().queue.len() == 0 {
        lemma_empty_downstream(s, 0);
        lemma_flow_empty(s.channels, s.channels.len());
    }
    lemma_flow_front(s.channels);
}

pub(crate) proof fn lemma_full_upstream(s: ChainState, j: int)
    requires
        s.wf(),
        s.quiescent(),
        s.tail_open(),
        !s.has_room(0),
        0 <= j <= s.hops(),
    ensures
        forall|k: int| 0 <= k <= j ==> !#[trigger] s.has_room(k),
    decreases j,
{
    if j > 0 {
        lemma_full_upstream(s, j - 1);
        assert(!s.has_room(j - 1));
        assert(!s.hop_can_act(j - 1));
    }
}

/// In a settled chain whose tail receiver is held and that carries no more
/// messages than it has hops, the head channel has room.
pub(crate) proof fn lemma_head_has_room(s: ChainState)
    requires
        s.wf(),
        s.quiescent(),
        s.tail_open(),
        s.in_flight().len() <= s.hops(),
    ensures
        s.has_room(0),
{
    if !s.has_room(0) {
        lemma_full_upstream(s, s.hops() as int);
        assert forall|k: int| 0 <= k < s.channels.len() implies #[trigger] s.channels[k].queue.len() > 0 by {
            assert(!s.has_room(k));
        }
        lemma_flow_len_at_least(s.channels, s.channels.len());
    }
}

/// Sending `m` into a well-formed chain that carries nothing puts exactly
/// `m` in flight.
pub(crate) proof fn lemma_send_into_empty(s: ChainState, m: Seq<u8>)
    requires
        s.wf(),
        s.in_flight().len() == 0,
    ensures
        s.after_send(m).in_flight() == seq![m],
{
    let t = s.after_send(m);
    lemma_flow_push_head(s.channels, t.channels, m, s.channels.len());
    assert(s.in_flight() =~= Seq::<Seq<u8>>::empty());
    assert(t.in_flight() =~= seq![m]);
}

pub(crate) proof fn lemma_closed_upstream(s: ChainState, j: int)
    requires
        s.wf(),
        s.quiescent(),
        !s.head_open(),
        0 <= j <= s.hops(),
        forall|k: int| 0 <= k < j ==> #[trigger] s.channels[k].queue.len() == 0,
    ensures
        forall|k: int| 0 <= k <= j ==> !#[trigger] s.channels[k].sender_open,
        forall|k: int| 0 <= k < j ==> !#[trigger] s.hop_alive(k),
    decreases j,
{
    if j > 0 {
        lemma_closed_upstream(s, j - 1);
        assert(!s.channels[j - 1].sender_open);
        assert(s.channels[j - 1].queue.len() == 0);
        assert(!s.hop_can_act(j - 1));
    }
}

} // verus!
