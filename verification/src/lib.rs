//! Core synchronization engine of a file-mirroring utility: a rolling-checksum
//! delta algorithm, a length-prefixed message codec, and the sender-side
//! protocol state machine.

use vstd::prelude::*;

pub mod cli;
pub mod codec;
pub mod decimal;
pub mod delta;
pub mod index_table;
pub mod messages;
pub mod paths;
pub mod pipeline;
pub mod signatures;

pub use cli::Cli;
pub use delta::Block;
pub use delta::Delta;
pub use delta::OutputBlock;
pub use delta::DeltaError;
pub use delta::Ops;
pub use index_table::IndexTable;
pub use messages::ClientServerOpts;
pub use messages::DataMessage;
pub use messages::FlistEntry;
pub use messages::Message;
pub use messages::SSHMessageError;
pub use pipeline::Pipeline;
pub use pipeline::PipelineState;
pub use pipeline::Server;
pub use pipeline::ServerAction;
pub use pipeline::SSHCommand;
pub use index_table::IndexTableChunk;
pub use signatures::compute_strong_signature;
pub use signatures::MODULUS;
pub use signatures::WeakSignature;
pub use signatures::WeakSignatureBlock;

verus! {

} // verus!
