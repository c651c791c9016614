//! A structured fuzzing harness for a remote versioned-filesystem service.
//!
//! The harness keeps a local shadow model of the hierarchy it believes exists
//! on the remote side (repositories owning branches owning files), decodes raw
//! fuzz bytes into a closed catalog of operations, validates whole operation
//! sequences against the model before anything runs, plans the remote calls
//! for accepted sequences, classifies remote status codes into tolerable and
//! fatal, and checks extract/wipe/restore round trips with masked snapshots.

pub mod classify;
pub mod name;
pub mod ops;
pub mod oracle;
pub mod plan;
pub mod state;
pub mod validate;
