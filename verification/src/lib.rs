//! Verified core of the vacs voice communication system: identifiers,
//! coverage networks, call bookkeeping and client state.
pub mod calls;
pub mod clients;
pub mod coverage;
pub mod facility;
pub mod ice;
pub mod ids;
pub mod login;
pub mod keyed;
pub mod metrics;
pub mod profile;
pub mod protocol;
pub mod ratelimit;
pub mod release;
pub mod sets;
pub mod signaling;
pub mod text;
pub mod webrtc;
