use evilbit::checksum::recalculate_ip_checksum;
use evilbit::editor::{set_evil_bit, EditError};
use evilbit::hook::{handle, Disposition};

/// The classic sample header: IHL=5 (20 bytes), version 4, flags word zero.
fn example_header() -> Vec<u8> {
    vec![
        0x45, 0x00, 0x00, 0x3C, 0x1C, 0x46, 0x00, 0x00, 0x40, 0x06, 0xB1, 0xE6, 0xAC, 0x10,
        0x0A, 0x63, 0xAC, 0x10, 0x0A, 0x0C,
    ]
}

/// Folded ones'-complement sum of the first `len` bytes, per RFC 791: all
/// big-endian 16-bit words, an odd trailing byte as the high byte of a
/// padding word, carries folded back in.
fn folded_sum(bytes: &[u8], len: usize) -> u32 {
    let mut sum: u32 = 0;
    let mut i: usize = 0;
    while i + 1 < len {
        sum += (bytes[i] as u32) * 256 + bytes[i + 1] as u32;
        i += 2;
    }
    if len % 2 == 1 {
        sum += (bytes[len - 1] as u32) * 256;
    }
    while sum > 0xFFFF {
        sum = (sum & 0xFFFF) + (sum >> 16);
    }
    sum
}

#[test]
fn noop_non_ipv4() {
    let mut buf = example_header();
    buf[0] = 0x65; // version nibble 6
    let before = buf.clone();
    let r = set_evil_bit(&mut buf);
    assert!(r.is_ok());
    assert_eq!(buf, before);
}

#[test]
fn noop_short_buffer() {
    let mut buf = example_header();
    buf.truncate(19);
    let before = buf.clone();
    let r = set_evil_bit(&mut buf);
    assert!(r.is_ok());
    assert_eq!(buf, before);
}

#[test]
fn evil_bit_set_on_valid_header() {
    let mut buf = example_header();
    let r = set_evil_bit(&mut buf);
    assert!(r.is_ok());
    assert_eq!(buf[6], 0x80);
    assert_eq!(buf[7], 0x00);
}

#[test]
fn evil_bit_ored_into_existing_flags() {
    let mut buf = example_header();
    // don't-fragment set, nonzero fragment offset: 0x4123
    buf[6] = 0x41;
    buf[7] = 0x23;
    let r = set_evil_bit(&mut buf);
    assert!(r.is_ok());
    assert_eq!(buf[6], 0xC1);
    assert_eq!(buf[7], 0x23);
}

#[test]
fn edit_is_idempotent() {
    let mut buf = example_header();
    set_evil_bit(&mut buf).unwrap();
    let once = buf.clone();
    let r = set_evil_bit(&mut buf);
    assert!(r.is_ok());
    assert_eq!(buf, once);
}

#[test]
fn checksum_sums_to_all_ones_after_edit() {
    let mut buf = example_header();
    set_evil_bit(&mut buf).unwrap();
    assert_eq!(folded_sum(&buf, 20), 0xFFFF);
}

#[test]
fn checksum_untouched_when_bit_already_set() {
    let mut buf = example_header();
    buf[6] = 0x80; // reserved bit already set; stale checksum left as is
    let before = buf.clone();
    let r = set_evil_bit(&mut buf);
    assert!(r.is_ok());
    assert_eq!(buf[10], before[10]);
    assert_eq!(buf[11], before[11]);
    assert_eq!(buf, before);
}

#[test]
fn odd_header_length_folds_last_byte_high() {
    let bytes = vec![
        0x45, 0x00, 0x00, 0x1C, 0x00, 0x00, 0x00, 0x00, 0x40, 0x11, 0x00, 0x00, 0x01, 0x02,
        0x03, 0x04, 0x05, 0x06, 0x07, 0x08, 0xAB,
    ];
    // Over 21 bytes the trailing 0xAB contributes 0xAB00.
    let mut odd = bytes.clone();
    recalculate_ip_checksum(&mut odd, 21);
    assert_eq!(odd[10], 0xBF);
    assert_eq!(odd[11], 0xBD);
    assert_eq!(folded_sum(&odd, 21), 0xFFFF);
    // Over the first 20 bytes the same buffer ignores the trailing byte.
    let mut even = bytes;
    recalculate_ip_checksum(&mut even, 20);
    assert_eq!(even[10], 0x6A);
    assert_eq!(even[11], 0xBE);
}

#[test]
fn example_header_full_edit() {
    let mut buf = example_header();
    let r = set_evil_bit(&mut buf);
    assert!(r.is_ok());
    assert_eq!(buf[6], 0x80);
    assert_eq!(buf[7], 0x00);
    assert_eq!(buf[10], 0x71);
    assert_eq!(buf[11], 0xE6);
    // The ten words, checksum included, fold to all ones.
    assert_eq!(folded_sum(&buf, 20), 0xFFFF);
    // Nothing else moved.
    let orig = example_header();
    for i in 0..20 {
        if i != 6 && i != 7 && i != 10 && i != 11 {
            assert_eq!(buf[i], orig[i]);
        }
    }
}

#[test]
fn truncated_header_is_an_error_and_untouched() {
    let mut buf = example_header();
    buf[0] = 0x4F; // IHL 15 claims 60 header bytes in a 20-byte buffer
    let before = buf.clone();
    let r = set_evil_bit(&mut buf);
    assert!(matches!(r, Err(EditError::TruncatedHeader)));
    assert_eq!(buf, before);
}

#[test]
fn handle_accepts_and_edits_valid_packet() {
    let mut buf = example_header();
    let d = handle(&mut buf);
    assert_eq!(d, Disposition::Accept);
    assert_eq!(buf[6], 0x80);
    assert_eq!(buf[10], 0x71);
    assert_eq!(buf[11], 0xE6);
}

#[test]
fn handle_accepts_even_when_edit_fails() {
    let mut buf = example_header();
    buf[0] = 0x4F;
    let before = buf.clone();
    let d = handle(&mut buf);
    assert_eq!(d, Disposition::Accept);
    assert_eq!(buf, before);
}

#[test]
fn handle_accepts_short_and_foreign_buffers() {
    let mut short = vec![0x45, 0x00, 0x00];
    assert_eq!(handle(&mut short), Disposition::Accept);
    assert_eq!(short, vec![0x45, 0x00, 0x00]);
    let mut v6 = example_header();
    v6[0] = 0x60;
    let before = v6.clone();
    assert_eq!(handle(&mut v6), Disposition::Accept);
    assert_eq!(v6, before);
}
