//! Rotation of a pool of PPPoE identities by usage quota.
//!
//! The decision engine decides, from the usage of the active identity and of
//! the other identities of the pool, whether to keep the connection as it is,
//! switch to another identity, or disable the connection. The caller performs
//! the probes, the router changes and the notifications that it asks for.
use vstd::prelude::*;

pub mod identity;
pub mod policy;
pub mod engine;
pub mod text;
pub mod pool;
pub mod usage;

verus! {

} // verus!
