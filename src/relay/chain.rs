//! The executable chain, run as cooperatively scheduled tasks, and the
//! decisions a hop makes.
use vstd::prelude::*;
use super::lemmas::{
    lemma_flow_pop_tail, lemma_flow_push_head, lemma_hop_step, lemma_quiescent_delivers,
    lemma_reaches_refl, lemma_reaches_trans,
};
use super::model::{valid_bound, ChainState, ChannelState};
use std::collections::VecDeque;

verus! {

/// Hop count used when the machine's parallelism is unknown.
pub const DEFAULT_HOPS: usize = 8;

/// Channel capacity of the task-based chain.
pub const TASK_CHANNEL_CAPACITY: usize = 1;

/// The number of hops of a chain: the machine's available parallelism when
/// known, else `DEFAULT_HOPS`.
pub fn hop_count(available: Option<usize>) -> (n: usize)
    ensures
        n == match available {
            Some(k) => k,
            None => DEFAULT_HOPS,
        },
{
    match available {
        Some(k) => k,
        None => DEFAULT_HOPS,
    }
}

/// What a hop does next.
#[derive(Debug, PartialEq)]
pub enum HopAction {
    /// Hand this message, unmodified, to the outbound channel.
    Forward(Vec<u8>),
    /// Stop, releasing both channel ends.
    Exit,
}

/// The decision of a hop on the outcome of a receive on its inbound channel:
/// a message (`Some`) is forwarded as it is; a closed channel (`None`) ends
/// the hop.
pub fn hop_action(inbound: Option<Vec<u8>>) -> (a: HopAction)
    ensures
        match inbound {
            Some(m) => a == HopAction::Forward(m),
            None => a == HopAction::Exit,
        },
{
    match inbound {
        Some(m) => HopAction::Forward(m),
        None => HopAction::Exit,
    }
}

/// The outcome of a send at the head of a chain.
#[derive(Debug, PartialEq)]
pub enum SendOutcome {
    /// The message entered the head channel.
    Sent,
    /// The head channel is full; the message is handed back.
    Full(Vec<u8>),
    /// The chain takes no more messages; the message is handed back.
    Closed(Vec<u8>),
}

/// The outcome of a receive at the tail of a chain.
#[derive(Debug, PartialEq)]
pub enum RecvOutcome {
    /// The oldest message in flight.
    Message(Vec<u8>),
    /// Nothing has arrived yet.
    Empty,
    /// Nothing will arrive any more.
    Closed,
}

struct Channel {
    queue: VecDeque<Vec<u8>>,
    sender_open: bool,
    receiver_open: bool,
}

impl Channel {
    spec fn state(&self) -> ChannelState {
        ChannelState {
            queue: self.queue@.map_values(|m: Vec<u8>| m@),
            sender_open: self.sender_open,
            receiver_open: self.receiver_open,
        }
    }

    fn open() -> (c: Channel)
        ensures
            c.state() == (ChannelState { queue: Seq::empty(), sender_open: true, receiver_open: true }),
    {
        let c = Channel { queue: VecDeque::new(), sender_open: true, receiver_open: true };
        assert(c.state().queue =~= Seq::empty());
        c
    }
}

/// The capacity of a channel as a bound on its length.
pub open spec fn bound_view(bound: Option<usize>) -> Option<nat> {
    match bound {
        Some(c) => Some(c as nat),
        None => None,
    }
}

spec fn chain_state(links: Seq<Channel>, bound: Option<usize>) -> ChainState {
    ChainState { channels: links.map_values(|c: Channel| c.state()), bound: bound_view(bound) }
}

/// Hop `i` makes its move on `links`, if it can make one.
fn hop_move(links: &mut Vec<Channel>, bound: Option<usize>, i: usize) -> (acted: bool)
    requires
        chain_state(old(links)@, bound).wf(),
        i < usize::MAX,
        i + 1 < old(links)@.len(),
    ensures
        acted == chain_state(old(links)@, bound).hop_can_act(i as int),
        chain_state(final(links)@, bound) == chain_state(old(links)@, bound).hop_step(i as int),
{
    let ghost pre = chain_state(links@, bound);
    let ghost want = pre.hop_step(i as int);
    let next: usize = i + 1;
    if !links[i].receiver_open {
        return false;
    }
    if links[i].queue.len() > 0 && links[next].receiver_open {
        let room = match bound {
            Some(c) => links[next].queue.len() < c,
            None => true,
        };
        if !room {
            return false;
        }
        let head = links[i].queue.pop_front();
        match head {
            Some(m) => links[next].queue.push_back(m),
            None => {},
        }
        proof {
            let post = chain_state(links@, bound);
            assert(post.channels[i as int].queue =~= want.channels[i as int].queue);
            assert(post.channels[i + 1].queue =~= want.channels[i + 1].queue);
            assert(post.channels =~= want.channels);
        }
        true
    } else if links[i].queue.len() > 0 || !links[i].sender_open {
        links[i].queue.clear();
        links[i].receiver_open = false;
        links[next].sender_open = false;
        proof {
            let post = chain_state(links@, bound);
            assert(post.channels[i as int].queue =~= want.channels[i as int].queue);
            assert(post.channels =~= want.channels);
        }
        true
    } else {
        false
    }
}

/// A chain of hops run as cooperatively scheduled tasks.
pub struct RelayChain {
    links: Vec<Channel>,
    bound: Option<usize>,
}

impl View for RelayChain {
    type V = ChainState;

    closed spec fn view(&self) -> ChainState {
        chain_state(self.links@, self.bound)
    }
}

proof fn lemma_single_open_wf(links: Seq<Channel>, bound: Option<usize>)
    requires
        links.len() == 1,
        links[0].state() == (ChannelState { queue: Seq::empty(), sender_open: true, receiver_open: true }),
        valid_bound(bound_view(bound)),
    ensures
        chain_state(links, bound).wf(),
{
}

impl RelayChain {
    #[verifier::type_invariant]
    spec fn inv(self) -> bool {
        chain_state(self.links@, self.bound).wf()
    }

    /// A chain of `hops` hops whose channels hold at most `bound` messages
    /// each (`None`: unbounded), all empty and open.
    pub fn new(hops: usize, bound: Option<usize>) -> (r: RelayChain)
        requires
            hops < usize::MAX,
            valid_bound(bound_view(bound)),
        ensures
            r@ == ChainState::fresh(hops as nat, bound_view(bound)),
    {
        let mut links: Vec<Channel> = Vec::new();
        let mut k: usize = 0;
        while k <= hops
            invariant
                k <= hops + 1,
                hops < usize::MAX,
                links@.len() == k,
                forall|j: int|
                    0 <= j < k ==> #[trigger] links@[j].state() == (ChannelState {
                        queue: Seq::empty(),
                        sender_open: true,
                        receiver_open: true,
                    }),
            decreases hops + 1 - k,
        {
            links.push(Channel::open());
            k = k + 1;
        }
        let r = RelayChain { links, bound };
        assert(r@.channels =~= ChainState::fresh(hops as nat, bound_view(bound)).channels);
        r
    }

    /// Number of hops between the head sender and the tail receiver.
    pub fn hops(&self) -> (n: usize)
        ensures
            n == self@.hops(),
    {
        proof {
            use_type_invariant(self);
        }
        self.links.len() - 1
    }

    /// Takes the channels out, leaving a single open channel in their place.
    fn take_links(&mut self) -> (links: Vec<Channel>)
        ensures
            chain_state(links@, old(self).bound) == old(self)@,
            final(self).bound == old(self).bound,
    {
        proof {
            use_type_invariant(&*self);
        }
        let mut spare: Vec<Channel> = Vec::new();
        spare.push(Channel::open());
        proof {
            lemma_single_open_wf(spare@, self.bound);
        }
        std::mem::swap(&mut self.links, &mut spare);
        spare
    }

    /// Sends `msg` into the head channel. A full head channel holds the
    /// sender back and a closed chain refuses it; either way the message is
    /// handed back and nothing changes.
    pub fn send(&mut self, msg: Vec<u8>) -> (r: SendOutcome)
        ensures
            final(self)@.wf(),
            old(self)@.can_accept() ==> r == SendOutcome::Sent && final(self)@ == old(self)@.after_send(msg@),
            !old(self)@.can_accept() ==> final(self)@ == old(self)@,
            (!old(self)@.head_open() || !old(self)@.channels[0].receiver_open) ==> r == SendOutcome::Closed(msg),
            (old(self)@.head_open() && old(self)@.channels[0].receiver_open && !old(self)@.has_room(0)) ==> r == SendOutcome::Full(msg),
    {
        proof {
            use_type_invariant(&*self);
        }
        let ghost pre = self@;
        if !self.links[0].sender_open || !self.links[0].receiver_open {
            return SendOutcome::Closed(msg);
        }
        let room = match self.bound {
            Some(c) => self.links[0].queue.len() < c,
            None => true,
        };
        if !room {
            return SendOutcome::Full(msg);
        }
        let bound = self.bound;
        let mut links = self.take_links();
        let ghost m = msg@;
        links[0].queue.push_back(msg);
        proof {
            let post = chain_state(links@, bound);
            let want = pre.after_send(m);
            assert(post.channels[0].queue =~= want.channels[0].queue);
            assert(post.channels =~= want.channels);
            assert(post == want);
        }
        self.links = links;
        SendOutcome::Sent
    }

    /// Receives the oldest message that has reached the tail channel.
    pub fn receive(&mut self) -> (r: RecvOutcome)
        ensures
            final(self)@.wf(),
            match old(self)@.next_message() {
                Some(m) => {
                    &&& r matches RecvOutcome::Message(v) && v@ == m
                    &&& final(self)@ == old(self)@.after_receive()
                    &&& m == old(self)@.in_flight()[0]
                    &&& final(self)@.in_flight() == old(self)@.in_flight().drop_first()
                },
                None => {
                    &&& final(self)@ == old(self)@
                    &&& old(self)@.tail_closed() ==> r == RecvOutcome::Closed
                    &&& !old(self)@.tail_closed() ==> r == RecvOutcome::Empty
                },
            },
    {
        proof {
            use_type_invariant(&*self);
        }
        let ghost pre = self@;
        let last = self.links.len() - 1;
        if !self.links[last].receiver_open {
            return RecvOutcome::Closed;
        }
        if self.links[last].queue.len() == 0 {
            if self.links[last].sender_open {
                return RecvOutcome::Empty;
            } else {
                return RecvOutcome::Closed;
            }
        }
        let bound = self.bound;
        let mut links = self.take_links();
        let head = links[last].queue.pop_front();
        proof {
            let post = chain_state(links@, bound);
            let want = pre.after_receive();
            assert(post.channels[last as int].queue =~= want.channels[last as int].queue);
            assert(post.channels =~= want.channels);
            assert(post == want);
            lemma_flow_pop_tail(pre.channels, post.channels);
        }
        self.links = links;
        match head {
            Some(m) => RecvOutcome::Message(m),
            None => RecvOutcome::Empty,
        }
    }

    /// Runs the hops until none of them can make a move.
    pub fn drive(&mut self)
        ensures
            old(self)@.settles_to(final(self)@),
    {
        proof {
            use_type_invariant(&*self);
        }
        let bound = self.bound;
        let mut links = self.take_links();
        let ghost start = chain_state(links@, bound);
        proof {
            lemma_reaches_refl(start);
        }
        let hops = links.len() - 1;
        let mut progress = true;
        while progress
            invariant
                links@.len() == hops + 1,
                start.reaches(chain_state(links@, bound)),
                !progress ==> chain_state(links@, bound).quiescent(),
            decreases chain_state(links@, bound).weight(), (if progress { 1int } else { 0int }),
        {
            let ghost pass_start = chain_state(links@, bound);
            progress = false;
            let mut i: usize = 0;
            while i < hops
                invariant
                    i <= hops,
                    links@.len() == hops + 1,
                    start.reaches(chain_state(links@, bound)),
                    progress ==> chain_state(links@, bound).weight() < pass_start.weight(),
                    !progress ==> chain_state(links@, bound) == pass_start,
                    !progress ==> forall|j: int| 0 <= j < i ==> !#[trigger] pass_start.hop_can_act(j),
                decreases hops - i,
            {
                let ghost before = chain_state(links@, bound);
                let acted = hop_move(&mut links, bound, i);
                proof {
                    lemma_hop_step(before, i as int);
                    lemma_reaches_trans(start, before, chain_state(links@, bound));
                }
                if acted {
                    progress = true;
                }
                i = i + 1;
            }
        }
        self.links = links;
    }

    /// One round trip: sends `msg`, runs the hops until they settle and
    /// receives at the tail. What comes back is the oldest message in flight,
    /// which is `msg` itself when nothing else was in flight; `None` when the
    /// send is refused or the tail receiver has been dropped.
    pub fn round_trip(&mut self, msg: Vec<u8>) -> (r: Option<Vec<u8>>)
        ensures
            final(self)@.wf(),
            old(self)@.can_accept() && old(self)@.tail_open() ==> (r matches Some(v) && v@
                == old(self)@.in_flight().push(msg@)[0]),
            !(old(self)@.can_accept() && old(self)@.tail_open()) ==> r is None,
            !old(self)@.can_accept() ==> final(self)@ == old(self)@,
    {
        proof {
            use_type_invariant(&*self);
        }
        let ghost pre = self@;
        let ghost m = msg@;
        match self.send(msg) {
            SendOutcome::Sent => {},
            _ => {
                return None;
            },
        }
        proof {
            lemma_flow_push_head(pre.channels, self@.channels, m, pre.channels.len());
        }
        self.drive();
        proof {
            use_type_invariant(&*self);
            if pre.tail_open() {
                lemma_quiescent_delivers(self@);
            }
        }
        match self.receive() {
            RecvOutcome::Message(v) => Some(v),
            _ => None,
        }
    }

    /// Drops the head sender: once the hops have drained what is in flight,
    /// each of them sees its inbound channel closed and exits.
    pub fn close_head(&mut self)
        ensures
            final(self)@.wf(),
            final(self)@ == old(self)@.after_close_head(),
    {
        proof {
            use_type_invariant(&*self);
        }
        let ghost pre = self@;
        let bound = self.bound;
        let mut links = self.take_links();
        links[0].sender_open = false;
        proof {
            let post = chain_state(links@, bound);
            assert(post.channels =~= pre.after_close_head().channels);
        }
        self.links = links;
    }

    /// Drops the tail receiver, and with it what the tail channel holds: the
    /// chain is torn down, and sends fail once the hops have noticed.
    pub fn close_tail(&mut self)
        ensures
            final(self)@.wf(),
            final(self)@ == old(self)@.after_close_tail(),
    {
        proof {
            use_type_invariant(&*self);
        }
        let ghost pre = self@;
        let bound = self.bound;
        let mut links = self.take_links();
        let last = links.len() - 1;
        links[last].queue.clear();
        links[last].receiver_open = false;
        proof {
            let post = chain_state(links@, bound);
            assert(post.channels[last as int].queue =~= pre.after_close_tail().channels[last as int].queue);
            assert(post.channels =~= pre.after_close_tail().channels);
        }
        self.links = links;
    }
}

} // verus!
