//! OracleGuard: policy-governed treasury disbursement decisions, their
//! canonical evidence encoding, and the offline evidence verifier.
pub mod math;
pub mod reason;
pub mod intent;
pub mod evaluate;
pub mod wire;
pub mod codec;
pub mod evidence;
pub mod framing;
pub mod encoding;
pub mod report;
pub mod integrity;
pub mod replay;
pub mod bundle;
pub mod adapter;
pub mod keysort;
pub mod json;
pub mod policy;
pub mod reread;
