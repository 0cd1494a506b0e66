//! The abstract state of a relay chain and the moves that change it.
use vstd::prelude::*;

verus! {

/// What one channel holds: its buffered messages, oldest first, and whether
/// its sending and receiving ends are still held.
pub struct ChannelState {
    pub queue: Seq<Seq<u8>>,
    pub sender_open: bool,
    pub receiver_open: bool,
}

/// The abstract state of a chain: channel `0` is fed by the head sender,
/// hop `i` reads channel `i` and writes channel `i + 1`, and the tail
/// receiver reads the last channel. `bound` is the capacity of every channel
/// (`None` for unbounded channels).
pub struct ChainState {
    pub channels: Seq<ChannelState>,
    pub bound: Option<nat>,
}

/// The messages buffered in channels `0..k`, oldest first: channel `k - 1`
/// holds the oldest ones, channel `0` the newest.
pub open spec fn flow(chs: Seq<ChannelState>, k: nat) -> Seq<Seq<u8>>
    decreases k,
{
    if k == 0 {
        Seq::empty()
    } else {
        chs[k - 1].queue + flow(chs, (k - 1) as nat)
    }
}

/// Progress measure of channel `j`: each buffered message counts for the
/// number of channels it still has to pass, and an unreleased receiver for one.
pub open spec fn rank(chs: Seq<ChannelState>, j: int) -> nat {
    chs[j].queue.len() * ((chs.len() - j) as nat) + (if chs[j].receiver_open {
        1nat
    } else {
        0nat
    })
}

/// Sum of `rank` over channels `0..k`.
pub open spec fn weight(chs: Seq<ChannelState>, k: nat) -> nat
    decreases k,
{
    if k == 0 {
        0
    } else {
        weight(chs, (k - 1) as nat) + rank(chs, k - 1)
    }
}

/// A channel capacity is either unbounded or at least one message.
pub open spec fn valid_bound(bound: Option<nat>) -> bool {
    bound matches Some(c) ==> c >= 1
}

impl ChainState {
    /// A chain of `hops` hops whose channels are all empty and open.
    pub open spec fn fresh(hops: nat, bound: Option<nat>) -> ChainState {
        ChainState {
            channels: Seq::new(
                hops + 1,
                |j: int| ChannelState { queue: Seq::empty(), sender_open: true, receiver_open: true },
            ),
            bound,
        }
    }

    pub open spec fn hops(self) -> nat {
        (self.channels.len() - 1) as nat
    }

    /// The channel read by the tail receiver.
    pub open spec fn tail(self) -> ChannelState {
        self.channels[self.hops() as int]
    }

    /// The head sender has not been dropped.
    pub open spec fn head_open(self) -> bool {
        self.channels[0].sender_open
    }

    /// The tail receiver has not been dropped.
    pub open spec fn tail_open(self) -> bool {
        self.tail().receiver_open
    }

    /// Hop `i` still runs (it holds the receiver of its inbound channel).
    pub open spec fn hop_alive(self, i: int) -> bool {
        self.channels[i].receiver_open
    }

    /// Channel `j` can take one more message.
    pub open spec fn has_room(self, j: int) -> bool {
        match self.bound {
            Some(c) => self.channels[j].queue.len() < c,
            None => true,
        }
    }

    pub open spec fn wf(self) -> bool {
        &&& self.channels.len() >= 1
        &&& valid_bound(self.bound)
        &&& forall|j: int|
            0 <= j < self.channels.len() ==> (self.bound matches Some(c) ==> #[trigger] self.channels[j].queue.len() <= c)
        &&& forall|j: int|
            0 <= j < self.channels.len() && !#[trigger] self.channels[j].receiver_open
                ==> self.channels[j].queue.len() == 0
        &&& forall|i: int|
            0 <= i < self.hops() ==> #[trigger] self.channels[i].receiver_open
                == self.channels[i + 1].sender_open
        &&& self.tail_open() ==> forall|j: int|
            0 <= j < self.channels.len() && !#[trigger] self.channels[j].receiver_open
                ==> !self.channels[j].sender_open
    }

    /// Every message sent and not yet received, oldest first.
    pub open spec fn in_flight(self) -> Seq<Seq<u8>> {
        flow(self.channels, self.channels.len())
    }

    pub open spec fn weight(self) -> nat {
        weight(self.channels, self.channels.len())
    }

    /// Hop `i` can make a move: forward its oldest message, or exit.
    pub open spec fn hop_can_act(self, i: int) -> bool {
        &&& self.hop_alive(i)
        &&& if self.channels[i].queue.len() > 0 {
            !self.channels[i + 1].receiver_open || self.has_room(i + 1)
        } else {
            !self.channels[i].sender_open
        }
    }

    /// No hop can make a move.
    pub open spec fn quiescent(self) -> bool {
        forall|i: int| 0 <= i < self.hops() ==> !#[trigger] self.hop_can_act(i)
    }

    /// The state after hop `i` makes its move, if it can make one.
    pub open spec fn hop_step(self, i: int) -> ChainState {
        let src = self.channels[i];
        let dst = self.channels[i + 1];
        if !self.hop_can_act(i) {
            self
        } else if src.queue.len() > 0 && dst.receiver_open {
            ChainState {
                channels: self.channels.update(
                    i,
                    ChannelState { queue: src.queue.drop_first(), ..src },
                ).update(i + 1, ChannelState { queue: dst.queue.push(src.queue[0]), ..dst }),
                ..self
            }
        } else {
            ChainState {
                channels: self.channels.update(
                    i,
                    ChannelState { queue: Seq::empty(), receiver_open: false, ..src },
                ).update(i + 1, ChannelState { sender_open: false, ..dst }),
                ..self
            }
        }
    }

    /// A send at the head would be accepted now.
    pub open spec fn can_accept(self) -> bool {
        self.head_open() && self.channels[0].receiver_open && self.has_room(0)
    }

    pub open spec fn after_send(self, m: Seq<u8>) -> ChainState {
        let head = self.channels[0];
        ChainState {
            channels: self.channels.update(0, ChannelState { queue: head.queue.push(m), ..head }),
            ..self
        }
    }

    /// The message that a receive at the tail would return now.
    pub open spec fn next_message(self) -> Option<Seq<u8>> {
        if self.tail_open() && self.tail().queue.len() > 0 {
            Some(self.tail().queue[0])
        } else {
            None
        }
    }

    /// A receive at the tail would report the chain as closed.
    pub open spec fn tail_closed(self) -> bool {
        !self.tail_open() || (self.tail().queue.len() == 0 && !self.tail().sender_open)
    }

    pub open spec fn after_receive(self) -> ChainState {
        let t = self.tail();
        ChainState {
            channels: self.channels.update(
                self.hops() as int,
                ChannelState { queue: t.queue.drop_first(), ..t },
            ),
            ..self
        }
    }

    pub open spec fn after_close_head(self) -> ChainState {
        let head = self.channels[0];
        ChainState {
            channels: self.channels.update(0, ChannelState { sender_open: false, ..head }),
            ..self
        }
    }

    pub open spec fn after_close_tail(self) -> ChainState {
        let t = self.tail();
        ChainState {
            channels: self.channels.update(
                self.hops() as int,
                ChannelState { queue: Seq::empty(), receiver_open: false, ..t },
            ),
            ..self
        }
    }

    /// `post` is a state that running the hops of `self` can reach and
    /// in which no hop can move any more.
    pub open spec fn settles_to(self, post: ChainState) -> bool {
        &&& self.reaches(post)
        &&& post.quiescent()
    }

    /// `post` is a state that hop moves can lead to from `self`: the ends held
    /// by the caller are as they were, no hop has come back to life, and while
    /// the tail receiver is held no message is lost, added or reordered.
    pub open spec fn reaches(self, post: ChainState) -> bool {
        &&& post.wf()
        &&& post.channels.len() == self.channels.len()
        &&& post.bound == self.bound
        &&& post.head_open() == self.head_open()
        &&& post.channels[0].receiver_open ==> self.channels[0].receiver_open
        &&& post.tail_open() == self.tail_open()
        &&& self.tail_open() ==> post.in_flight() == self.in_flight()
        &&& forall|i: int| 0 <= i < self.hops() && #[trigger] post.hop_alive(i) ==> self.hop_alive(i)
    }
}

} // verus!
