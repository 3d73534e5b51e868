use bitfield::checks::{CheckError, TotalSize, True};
use bitfield::codec::{get_bits, native_width, set_bits};
use bitfield::layout::Layout;
use bitfield::record::PackedRecord;

fn layout(widths: Vec<usize>, strict: bool) -> Layout {
    match Layout::new(widths, strict) {
        Ok(l) => l,
        Err(_) => panic!("layout was rejected"),
    }
}

#[test]
fn byte_length_of_aligned_widths() {
    let l = layout(vec![3, 1, 4], true);
    assert_eq!(l.size.bits, 8);
    assert_eq!(l.size.bytes, 1);
}

#[test]
fn byte_length_rounds_up() {
    let l = layout(vec![3, 1, 5], false);
    assert_eq!(l.size.bits, 9);
    assert_eq!(l.size.bytes, 2);
}

#[test]
fn strict_mode_rejects_unaligned_total() {
    assert!(matches!(
        Layout::new(vec![3, 1, 5], true),
        Err(CheckError::TotalSizeNotByteAligned)
    ));
}

#[test]
fn lax_mode_accepts_unaligned_total() {
    assert!(Layout::new(vec![3, 1, 5], false).is_ok());
}

#[test]
fn zero_width_is_rejected() {
    assert!(matches!(
        Layout::new(vec![3, 0, 5], true),
        Err(CheckError::WidthOutOfRange)
    ));
}

#[test]
fn overwide_field_is_rejected() {
    assert!(matches!(
        Layout::new(vec![65], true),
        Err(CheckError::WidthOutOfRange)
    ));
}

#[test]
fn offsets_are_running_sums() {
    let l = layout(vec![3, 1, 4, 8], true);
    assert_eq!(l.offsets, vec![0, 3, 4, 8]);
    assert_eq!(l.size.bytes, 2);
}

#[test]
fn a_record_without_fields_is_empty() {
    let l = layout(vec![], true);
    assert_eq!(l.size.bits, 0);
    assert_eq!(l.size.bytes, 0);
    let r = PackedRecord::new(l);
    assert_eq!(r.num_fields(), 0);
    assert!(r.data.is_empty());
}

#[test]
fn new_record_is_all_zero() {
    let r = PackedRecord::new(layout(vec![1, 6, 9, 16, 32], true));
    assert_eq!(r.data, vec![0u8; 8]);
    for i in 0..r.num_fields() {
        assert_eq!(r.get(i), 0);
    }
}

#[test]
fn round_trip_every_field_leaves_neighbors_untouched() {
    let values: [u64; 5] = [1, 0b10_1101, 0b1_0110_1001, 0xBEEF, 0xDEAD_BEEF];
    let mut r = PackedRecord::new(layout(vec![1, 6, 9, 16, 32], true));
    for i in 0..5 {
        r.set(i, values[i]);
    }
    for i in 0..5 {
        assert_eq!(r.get(i), values[i]);
    }
    // Rewrite each field in turn and check all the others keep their values.
    for i in 0..5 {
        let before: Vec<u64> = (0..5).map(|j| r.get(j)).collect();
        r.set(i, values[i] ^ 1);
        for j in 0..5 {
            if j == i {
                assert_eq!(r.get(j), values[i] ^ 1);
            } else {
                assert_eq!(r.get(j), before[j]);
            }
        }
        r.set(i, values[i]);
    }
}

#[test]
fn set_stores_only_the_low_width_bits() {
    let mut r = PackedRecord::new(layout(vec![3, 5], true));
    r.set(0, 0b101_101);
    assert_eq!(r.get(0), 0b101);
    assert_eq!(r.get(1), 0);
}

#[test]
fn unaligned_split_preserves_partial_bytes() {
    // Field 1 starts at bit offset 5 with width 6: it spans bytes 0 and 1.
    let mut r = PackedRecord::new(layout(vec![5, 6, 5], true));
    r.set(0, 0b10101);
    r.set(2, 0b01101);
    let byte0_before = r.data[0];
    let byte1_before = r.data[1];
    r.set(1, 0b110011);
    // Bits 0 to 4 of byte 0 (the high five) and bits 3 to 7 of byte 1 (the
    // low five) belong to the neighbors and must be exactly as before.
    assert_eq!(r.data[0] & 0b1111_1000, byte0_before & 0b1111_1000);
    assert_eq!(r.data[1] & 0b0001_1111, byte1_before & 0b0001_1111);
    assert_eq!(r.data[0], 0b1010_1110);
    assert_eq!(r.data[1], 0b0110_1101);
    assert_eq!(r.get(0), 0b10101);
    assert_eq!(r.get(1), 0b110011);
    assert_eq!(r.get(2), 0b01101);
}

#[test]
fn get_is_idempotent() {
    let mut r = PackedRecord::new(layout(vec![5, 6, 5], true));
    r.set(1, 42);
    let first = r.get(1);
    let second = r.get(1);
    assert_eq!(first, second);
    assert_eq!(first, 42);
}

#[test]
fn one_bit_then_sixty_three_bits() {
    let l = layout(vec![1, 63], true);
    assert_eq!(l.size.bytes, 8);
    let max63: u64 = (1u64 << 63) - 1;
    let mut r = PackedRecord::new(l);
    r.set(0, 1);
    r.set(1, max63);
    assert_eq!(r.get(0), 1);
    assert_eq!(r.get(1), max63);
    assert_eq!(r.data, vec![0xFFu8; 8]);
    r.set(0, 0);
    assert_eq!(r.get(0), 0);
    assert_eq!(r.get(1), max63);
}

#[test]
fn full_width_field_takes_every_value_bit() {
    let mut r = PackedRecord::new(layout(vec![64], true));
    r.set(0, u64::MAX);
    assert_eq!(r.get(0), u64::MAX);
    assert_eq!(r.data, vec![0xFFu8; 8]);
    r.set(0, 0x0123_4567_89AB_CDEF);
    assert_eq!(r.get(0), 0x0123_4567_89AB_CDEF);
    assert_eq!(r.data, vec![0x01, 0x23, 0x45, 0x67, 0x89, 0xAB, 0xCD, 0xEF]);
}

#[test]
fn raw_codec_clears_a_straddling_field() {
    let mut bytes = vec![0xFFu8, 0xFF];
    set_bits(&mut bytes, 5, 6, 0);
    assert_eq!(bytes, vec![0xF8, 0x1F]);
    assert_eq!(get_bits(&bytes, 5, 6), 0);
    assert_eq!(get_bits(&bytes, 0, 5), 0b11111);
    assert_eq!(get_bits(&bytes, 11, 5), 0b11111);
}

#[test]
fn raw_codec_reads_across_three_bytes() {
    let mut bytes = vec![0u8; 3];
    set_bits(&mut bytes, 3, 17, 0b1_0110_1001_1100_0011);
    assert_eq!(get_bits(&bytes, 3, 17), 0b1_0110_1001_1100_0011);
    assert_eq!(get_bits(&bytes, 0, 3), 0);
    assert_eq!(get_bits(&bytes, 20, 4), 0);
}

#[test]
fn native_width_picks_the_smallest_container() {
    assert_eq!(native_width(1), 8);
    assert_eq!(native_width(8), 8);
    assert_eq!(native_width(9), 16);
    assert_eq!(native_width(16), 16);
    assert_eq!(native_width(17), 32);
    assert_eq!(native_width(32), 32);
    assert_eq!(native_width(33), 64);
    assert_eq!(native_width(64), 64);
}

#[test]
fn total_size_check_computes_ceil() {
    match TotalSize::check(9, false) {
        Ok(t) => {
            assert_eq!(t.bits, 9);
            assert_eq!(t.bytes, 2);
        }
        Err(_) => panic!("nine bits fit in two bytes"),
    }
    match TotalSize::check(16, true) {
        Ok(t) => assert_eq!(t.bytes, 2),
        Err(_) => panic!("sixteen bits are byte aligned"),
    }
    assert!(matches!(
        TotalSize::check(9, true),
        Err(CheckError::TotalSizeNotByteAligned)
    ));
    assert!(matches!(
        TotalSize::check(usize::MAX, false),
        Err(CheckError::TotalSizeOverflow)
    ));
}

#[test]
fn boolean_check_yields_evidence_or_the_error() {
    assert!(True::check(true, CheckError::WidthOutOfRange).is_ok());
    assert!(matches!(
        True::check(false, CheckError::WidthOutOfRange),
        Err(CheckError::WidthOutOfRange)
    ));
}
