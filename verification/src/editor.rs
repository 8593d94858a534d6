//! The in-place IPv4 header editor: sets the reserved ("evil", RFC 3514)
//! bit in the flags word and recomputes the checksum when the word changed.

use crate::checksum::{
    be_word_at, checksum_valid, hi_byte, lemma_recompute_checksum_valid, lo_byte,
    recalculate_ip_checksum, recompute_spec,
};
use vstd::prelude::*;

verus! {

/// Failure of one edit. The buffer is never modified when an edit fails.
#[derive(Clone, Copy, Debug, PartialEq, Eq, Structural)]
pub enum EditError {
    /// The IHL field claims more header bytes than the buffer holds, so
    /// the checksum cannot be recomputed within bounds.
    TruncatedHeader,
}

/// The IP version nibble: the high half of byte 0.
pub open spec fn version_of(b: Seq<u8>) -> int {
    b[0] as int / 16
}

/// The header length the IHL nibble declares: the low half of byte 0,
/// counted in 32-bit words.
pub open spec fn header_len_of(b: Seq<u8>) -> int {
    (b[0] as int % 16) * 4
}

/// Whether bit 15 — the reserved ("evil") bit of the flags word — is set
/// in a 16-bit value: exactly the values of `0x8000` and above.
pub open spec fn reserved_bit_set(w: int) -> bool {
    w >= 0x8000
}

/// The one condition under which the editor gives up: the buffer looks
/// like IPv4, but its declared header length runs past the buffer's end,
/// so the checksum could not be recomputed within bounds.
pub open spec fn edit_faults(b: Seq<u8>) -> bool {
    b.len() >= 20 && version_of(b) == 4 && header_len_of(b) > b.len()
}

/// The buffer after one edit. Too-short and non-IPv4 buffers, buffers
/// whose declared header length exceeds the buffer, and headers whose
/// reserved bit is already set come back unchanged; otherwise the flags
/// word at bytes 6 and 7 gains bit 15 and the checksum field is
/// recomputed over the declared header length.
pub open spec fn edit_spec(b: Seq<u8>) -> Seq<u8> {
    if b.len() < 20 {
        b
    } else if version_of(b) != 4 {
        b
    } else if header_len_of(b) > b.len() {
        b
    } else if reserved_bit_set(be_word_at(b, 6)) {
        b
    } else {
        let w = be_word_at(b, 6) + 0x8000;
        recompute_spec(b.update(6, hi_byte(w)).update(7, lo_byte(w)), header_len_of(b))
    }
}

/// Sets the reserved bit of an IPv4 packet's flags word in place and, when
/// that changed the word, recomputes the header checksum.
///
/// Buffers shorter than 20 bytes or with a version nibble other than 4 are
/// legitimate no-ops, not errors. The only failure is a header whose IHL
/// claims more bytes than the buffer holds; the buffer is then returned
/// untouched.
pub fn set_evil_bit(buf: &mut Vec<u8>) -> (r: Result<(), EditError>)
    ensures
        final(buf)@ == edit_spec(old(buf)@),
        r is Err <==> edit_faults(old(buf)@),
{
    if buf.len() < 20 {
        return Ok(());
    }
    let b0 = buf[0];
    if b0 / 16 != 4 {
        return Ok(());
    }
    let header_len: usize = (b0 % 16) as usize * 4;
    if header_len > buf.len() {
        return Err(EditError::TruncatedHeader);
    }
    let old_word: u16 = (buf[6] as u16) * 256 + (buf[7] as u16);
    if old_word >= 0x8000 {
        return Ok(());
    }
    let new_word: u16 = old_word + 0x8000;
    buf.set(6, (new_word / 256) as u8);
    buf.set(7, (new_word % 256) as u8);
    recalculate_ip_checksum(buf, header_len);
    Ok(())
}

/// A buffer whose version nibble is not 4 is left entirely unchanged.
pub proof fn lemma_noop_non_ipv4(b: Seq<u8>)
    requires
        b.len() >= 1,
        version_of(b) != 4,
    ensures
        edit_spec(b) == b,
{
}

/// A buffer shorter than a minimal IPv4 header is left entirely unchanged.
pub proof fn lemma_noop_short_buffer(b: Seq<u8>)
    requires
        b.len() < 20,
    ensures
        edit_spec(b) == b,
{
}

/// After editing any plausible IPv4 buffer — at least 20 bytes, version 4,
/// declared header length within the buffer — the reserved bit of the
/// flags word is set.
pub proof fn lemma_reserved_bit_set_after_edit(b: Seq<u8>)
    requires
        b.len() >= 20,
        version_of(b) == 4,
        header_len_of(b) <= b.len(),
    ensures
        reserved_bit_set(be_word_at(edit_spec(b), 6)),
{
    if !reserved_bit_set(be_word_at(b, 6)) {
        let w = be_word_at(b, 6) + 0x8000;
        vstd::arithmetic::div_mod::lemma_fundamental_div_mod(w, 256);
        assert(be_word_at(edit_spec(b), 6) == w);
    }
}

/// Editing is idempotent: a second edit of any buffer returns the first
/// edit's result byte for byte, with no further checksum churn.
pub proof fn lemma_edit_idempotent(b: Seq<u8>)
    ensures
        edit_spec(edit_spec(b)) == edit_spec(b),
{
    let e = edit_spec(b);
    if b.len() >= 20 && version_of(b) == 4 && header_len_of(b) <= b.len()
        && !reserved_bit_set(be_word_at(b, 6)) {
        let w = be_word_at(b, 6) + 0x8000;
        vstd::arithmetic::div_mod::lemma_fundamental_div_mod(w, 256);
        assert(e[0] == b[0]);
        assert(be_word_at(e, 6) == w);
    }
}

/// An edit never changes the buffer's length, and never changes any byte
/// other than the flags word (bytes 6 and 7) and the checksum field
/// (bytes 10 and 11).
pub proof fn lemma_edit_touches_only_flags_and_checksum(b: Seq<u8>)
    ensures
        edit_spec(b).len() == b.len(),
        forall|i: int|
            0 <= i < b.len() && i != 6 && i != 7 && i != 10 && i != 11 ==> edit_spec(b)[i] == b[i],
{
}

/// If the reserved bit was already set, the edit changes nothing — in
/// particular, the checksum bytes stay exactly as they were.
pub proof fn lemma_noop_when_bit_already_set(b: Seq<u8>)
    requires
        b.len() >= 8,
        reserved_bit_set(be_word_at(b, 6)),
    ensures
        edit_spec(b) == b,
{
}

/// After an edit that changed the flags word, the header is internally
/// consistent per RFC 791: the folded ones'-complement sum of all its
/// words, the checksum included, is `0xFFFF`.
pub proof fn lemma_checksum_valid_after_edit(b: Seq<u8>)
    requires
        b.len() >= 20,
        version_of(b) == 4,
        12 <= header_len_of(b) <= b.len(),
        !reserved_bit_set(be_word_at(b, 6)),
    ensures
        checksum_valid(edit_spec(b), header_len_of(b)),
{
    let w = be_word_at(b, 6) + 0x8000;
    let b1 = b.update(6, hi_byte(w)).update(7, lo_byte(w));
    lemma_recompute_checksum_valid(b1, header_len_of(b));
}

} // verus!
