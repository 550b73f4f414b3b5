//! Synthesized operating-system identities: a bidirectional, range-bounded
//! mapping between numeric user/group ids and names, with passwd- and
//! group-style records derived on demand from an immutable configuration.

pub mod config;
pub mod decimal;
pub mod records;

pub use config::Config;
pub use records::Group;
pub use records::Passwd;
