//! Record generators for serialization benchmarks, and a relay chain that
//! forwards opaque byte buffers through a fixed number of hops.
pub mod data;
pub mod relay;
pub mod report;
pub mod text;
pub mod vector_data;

pub use data::{BigData, SmallData};
pub use relay::{RecvOutcome, RelayChain, SendOutcome};
pub use vector_data::{LogEvent, Metadata};
