//! The core of a sampling heap profiler.
//!
//! The profiler stands in front of an allocator. Every block that goes
//! through it carries a header ([`block`]) with the size that was asked for
//! and the stack it was sampled under ([`stack`]). The entry points
//! ([`hook`]) frame the blocks and tell the profiler ([`profiler`]), which
//! samples one allocation in every period of bytes into a table
//! ([`collector`]). A session ends in a report ([`report`]), which can be
//! had as a pprof profile ([`profile`]) or as a flamegraph ([`flamegraph`]).
//! What holds of a whole session is shown in [`history`].

use vstd::prelude::*;

pub mod block;
pub mod collector;
pub mod flamegraph;
pub mod history;
pub mod hook;
pub mod profile;
pub mod profiler;
pub mod report;
pub mod stack;

verus! {

/// Does nothing. A program that refers to this function keeps the library
/// in its link, and with it the allocator entry points built on top of it.
pub fn dummy_force_link() {
    hook::dummy_force_link();
}

} // verus!
