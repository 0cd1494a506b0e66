//! A relay chain: a head sender, `n` hops and a tail receiver, joined by
//! `n + 1` FIFO channels. Each hop takes the oldest message of its inbound
//! channel and hands it, unmodified, to its outbound channel; when its
//! inbound channel is closed and empty, or its outbound channel has lost its
//! receiver, the hop exits and releases both of its channel ends.
//!
//! `RelayChain` runs the hops as cooperatively scheduled tasks: `drive` runs
//! them until none of them can make progress. A channel is either unbounded
//! or bounded; a full bounded channel holds a sender back until the hop
//! downstream has taken a message from it.
pub mod chain;
pub mod laws;
mod lemmas;
pub mod model;

pub use chain::{
    hop_action, hop_count, HopAction, RecvOutcome, RelayChain, SendOutcome, DEFAULT_HOPS,
    TASK_CHANNEL_CAPACITY,
};
pub use model::{ChainState, ChannelState};
