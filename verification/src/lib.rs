//! A verified implementation of the BaNaNaS content-distribution protocol:
//! a schema-driven binary wire codec (little-endian integers, booleans,
//! nul-terminated UTF-8 strings, count-prefixed sequences and a trailing
//! optional), the concrete client/server packet catalogue with its
//! cross-field validation, and the per-connection packet engine expressed
//! as a state machine whose I/O is performed by an unverified host.

pub mod engine;
pub mod props;
pub mod protocol;
pub mod wire;
