//! The record types a resolver hands back: one per user (a passwd-style
//! entry) and one per group. Both are ephemeral values, fully derived from
//! the configuration and a requested id.

use vstd::prelude::*;

verus! {

/// A synthesized user entry, in the shape of a passwd record.
#[derive(Clone, Debug, PartialEq, Eq)]
pub struct Passwd {
    /// The synthesized user name.
    pub name: String,
    /// Placeholder password marker, always `"x"`.
    pub passwd: String,
    /// Numeric user id.
    pub uid: u32,
    /// Numeric primary group id.
    pub gid: u32,
    /// Comment field, always empty.
    pub gecos: String,
    /// Home directory, a fixed placeholder path.
    pub dir: String,
    /// Login shell, reported verbatim from the configuration.
    pub shell: String,
}

/// A synthesized group entry.
#[derive(Clone, Debug, PartialEq, Eq)]
pub struct Group {
    /// The synthesized group name.
    pub name: String,
    /// Placeholder password marker, always `"x"`.
    pub passwd: String,
    /// Numeric group id.
    pub gid: u32,
    /// Member list, always empty: membership is not synthesized.
    pub members: Vec<String>,
}

} // verus!
