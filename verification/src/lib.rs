//! Wire encoding of the multicast DNS query that looks for peers on the
//! local network.
//!
//! The crate builds one packet shape: a DNS header announcing a single
//! question, the question's name as length-prefixed labels, and the
//! question's type and class. Every function states, over plain byte
//! sequences, exactly which bytes it writes.

pub mod name;
pub mod query;
pub mod wire;
