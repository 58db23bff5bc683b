//! A signing key that can be shared freely between concurrently scheduled
//! workers, and the pure steps of a transaction pipeline built on it:
//! message assembly, partial signing, completeness checks and the wire
//! encoding used for simulation requests.

pub mod error;
pub mod keypair;
pub mod txn;

pub use error::PipelineError;
pub use keypair::Keypair;
pub use txn::Txn;
pub use txn::build_txn;
pub use txn::simulation_payload;
pub use txn::message_fits;
pub use txn::AccountMeta;
pub use txn::Instruction;
