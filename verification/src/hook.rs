//! The per-packet hook: delegates to the header editor and always accepts.

use crate::editor::{edit_spec, set_evil_bit};
use vstd::prelude::*;

verus! {

/// What the filter tells the packet-filtering framework to do with the
/// packet it was handed.
#[derive(Clone, Copy, Debug, PartialEq, Eq, Structural)]
pub enum Disposition {
    Accept,
    Drop,
}

/// Handles one outbound packet: edits the IPv4 header in place and always
/// accepts. An edit failure is deliberately discarded — the fail-open
/// policy is that this filter must never cause packet loss, so mutation
/// failure still forwards the packet, then unmodified.
pub fn handle(buf: &mut Vec<u8>) -> (d: Disposition)
    ensures
        d == Disposition::Accept,
        final(buf)@ == edit_spec(old(buf)@),
{
    match set_evil_bit(buf) {
        Ok(()) => Disposition::Accept,
        Err(_) => Disposition::Accept,
    }
}

} // verus!
