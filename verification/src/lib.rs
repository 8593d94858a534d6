//! In-place editor for the reserved ("evil", RFC 3514) flag bit of outbound
//! IPv4 headers.
//!
//! The library works on a plain byte buffer holding a packet from the start
//! of its network-layer header. [`hook::handle`] is the per-packet entry
//! point: it sets the reserved bit in the flags word, recomputes the RFC 791
//! header checksum when the word changed, and always answers
//! [`hook::Disposition::Accept`] — a deliberate fail-open policy, so that the
//! filter can never cause packet loss. Buffers that are too short or not
//! IPv4 are left untouched.
//!
//! Registration with a packet-filtering framework, which hands each packet's
//! bytes to the hook, is outside the library.

pub mod checksum;
pub mod editor;
pub mod hook;
