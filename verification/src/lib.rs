//! A minimal TCP load balancer's core: a rotating round-robin pool of
//! backend addresses, and the per-connection decision logic that turns the
//! pool's answer and the forwarding outcome into the exact bytes the client
//! receives.
//!
//! Socket handling (listening, accepting, connecting out, reading and
//! writing) lives outside this crate; the pool and the handler logic here
//! work on plain values and carry full contracts.

pub mod handler;
pub mod pool;
