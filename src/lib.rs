//! The engine of a transparent TCP relay: per-connection forwarding state,
//! the bounded session registry and the decisions taken on each readiness
//! event. Sockets are opaque values of a type parameter; reading, writing and
//! readiness registration happen outside this crate, which only decides.
pub mod peer;
pub mod session;
pub mod token;
pub mod manager;

