use smos::bitfield::{bf_clr_bit, bf_first_free, bf_get_bit, bf_set_bit, BIT, BITFIELD_SIZE, BIT_INDEX, WORD_INDEX};
use smos::rs_bitfield;
use smos::self_test::{test_bf, test_bf_bit, test_heap, NSLOTS_MIN};

#[test]
fn bitfield_self_test_passes() {
    test_bf();
}

#[test]
fn bitfield_single_bits() {
    for b in [0usize, 1, 63, 64, 65, 127] {
        test_bf_bit(b);
    }
}

#[test]
fn heap_self_test_passes() {
    test_heap();
}

#[test]
fn nslots_min_is_bounded_by_bottom_level_nodes() {
    assert_eq!(NSLOTS_MIN(), 24833);
}

#[test]
fn bit_index_helpers() {
    assert_eq!(BIT(0), 1);
    assert_eq!(BIT(5), 32);
    assert_eq!(WORD_INDEX(130), 2);
    assert_eq!(BIT_INDEX(130), 2);
    assert_eq!(BITFIELD_SIZE(128), 2);
    assert_eq!(BITFIELD_SIZE(130), 2);
}

#[test]
fn set_get_clear_round_trip() {
    let mut bf = [0u64; 2];
    assert_eq!(bf_first_free(&bf), Ok(0));
    bf_set_bit(&mut bf, 70);
    assert_eq!(bf, [0, 1 << 6]);
    assert!(bf_get_bit(&mut bf, 70));
    assert!(!bf_get_bit(&mut bf, 69));
    bf_clr_bit(&mut bf, 70);
    assert_eq!(bf, [0, 0]);
    // Clearing a clear bit changes nothing.
    bf_clr_bit(&mut bf, 3);
    assert_eq!(bf, [0, 0]);
}

#[test]
fn first_free_skips_full_words() {
    let bf = [u64::MAX, 0b1011];
    assert_eq!(bf_first_free(&bf), Ok(66));
    let full = [u64::MAX, u64::MAX];
    assert_eq!(bf_first_free(&full), Err(()));
}

#[test]
fn root_server_bitfield_reports_bit_count_when_full() {
    let mut bf = [u64::MAX, u64::MAX];
    assert_eq!(rs_bitfield::bf_first_free(&bf), 128);
    rs_bitfield::bf_clr_bit(&mut bf, 100);
    assert_eq!(rs_bitfield::bf_first_free(&bf), 100);
    rs_bitfield::bf_set_bit(&mut bf, 100);
    assert_eq!(bf, [u64::MAX, u64::MAX]);
    assert_eq!(rs_bitfield::WORD_INDEX(64), 1);
    assert_eq!(rs_bitfield::BIT_INDEX(64), 0);
    assert_eq!(rs_bitfield::BITFIELD_SIZE(256), 4);
}
