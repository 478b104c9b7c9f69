use sketches_rust::encoding::MAX_COUNT;
use sketches_rust::error::Error;
use sketches_rust::flag::FlagType;
use sketches_rust::input::Input;
use sketches_rust::output::Output;
use sketches_rust::store::DenseStore;
use sketches_rust::store_codec::BinEncodingMode;

fn block_of(store: &DenseStore, flag_type: FlagType) -> Vec<u8> {
    let mut output = Output::with_capacity(64);
    store.encode(&mut output, flag_type).unwrap();
    output.trim()
}

#[test]
fn empty_store() {
    let store = DenseStore::unbounded();
    assert!(store.is_empty());
    assert_eq!(store.get_total_count(), 0);
    assert_eq!(store.get_count(0), 0);
    assert_eq!(store.get_min_index(), i32::MAX);
    assert_eq!(store.get_max_index(), i32::MIN);
    assert!(store.get_ascending_bins().is_empty());
    assert!(store.get_descending_bins().is_empty());
}

#[test]
fn unbounded_store_add_and_query() {
    let mut store = DenseStore::unbounded();
    store.add(5, 3);
    store.add(-2, 1);
    store.add(5, 2);
    store.add(9, 4);
    assert!(!store.is_empty());
    assert_eq!(store.get_total_count(), 10);
    assert_eq!(store.get_count(5), 5);
    assert_eq!(store.get_count(-2), 1);
    assert_eq!(store.get_count(9), 4);
    assert_eq!(store.get_count(0), 0);
    assert_eq!(store.get_count(100), 0);
    assert_eq!(store.get_min_index(), -2);
    assert_eq!(store.get_max_index(), 9);
    assert_eq!(store.get_ascending_bins(), vec![(-2, 1), (5, 5), (9, 4)]);
    assert_eq!(store.get_descending_bins(), vec![(9, 4), (5, 5), (-2, 1)]);
}

#[test]
fn adding_nothing_changes_nothing() {
    let mut store = DenseStore::unbounded();
    store.add(7, 0);
    assert!(store.is_empty());
    store.add(3, 2);
    store.add(100, 0);
    store.add(-100, 0);
    assert_eq!(store.get_min_index(), 3);
    assert_eq!(store.get_max_index(), 3);
    assert_eq!(store.get_total_count(), 2);
}

#[test]
fn store_holds_extreme_indices() {
    let mut store = DenseStore::collapsing_lowest(4).unwrap();
    store.add(i32::MIN, 1);
    store.add(i32::MAX, 2);
    assert_eq!(store.get_total_count(), 3);
    assert_eq!(store.get_max_index(), i32::MAX);
    assert_eq!(store.get_min_index(), i32::MAX - 3);
    assert_eq!(store.get_count(i32::MAX - 3), 1);
    let mut store = DenseStore::collapsing_highest(4).unwrap();
    store.add(i32::MAX, 1);
    store.add(i32::MIN, 2);
    assert_eq!(store.get_min_index(), i32::MIN);
    assert_eq!(store.get_max_index(), i32::MIN + 3);
    assert_eq!(store.get_count(i32::MIN + 3), 1);
    assert_eq!(store.get_count(i32::MIN), 2);
}

#[test]
fn store_holds_the_largest_count() {
    let mut store = DenseStore::unbounded();
    store.add(1, MAX_COUNT - 1);
    store.add(2, 1);
    assert_eq!(store.get_total_count(), MAX_COUNT);
    assert_eq!(store.get_count(1), MAX_COUNT - 1);
}

#[test]
fn collapsing_capacity_must_be_positive() {
    assert!(matches!(DenseStore::collapsing_lowest(0), Err(Error::InvalidArgument(_))));
    assert!(matches!(DenseStore::collapsing_highest(0), Err(Error::InvalidArgument(_))));
    assert!(DenseStore::collapsing_lowest(1).is_ok());
    assert!(DenseStore::collapsing_highest(1).is_ok());
}

#[test]
fn collapsing_lowest_merges_the_low_tail() {
    let mut store = DenseStore::collapsing_lowest(2).unwrap();
    store.add(5, 3);
    store.add(7, 1);
    assert_eq!(store.get_min_index(), 6);
    assert_eq!(store.get_max_index(), 7);
    assert_eq!(store.get_count(5), 0);
    assert_eq!(store.get_count(6), 3);
    assert_eq!(store.get_count(7), 1);
    store.add(6, 2);
    assert_eq!(store.get_count(6), 5);
    store.add(-100, 4);
    assert_eq!(store.get_count(6), 9);
    assert_eq!(store.get_count(-100), 0);
    assert_eq!(store.get_min_index(), 6);
    store.add(10, 1);
    assert_eq!(store.get_min_index(), 9);
    assert_eq!(store.get_max_index(), 10);
    assert_eq!(store.get_count(9), 10);
    assert_eq!(store.get_count(10), 1);
    assert_eq!(store.get_total_count(), 11);
}

#[test]
fn collapsing_lowest_keeps_low_bins_that_fit() {
    let mut store = DenseStore::collapsing_lowest(4).unwrap();
    store.add(10, 1);
    store.add(8, 2);
    assert_eq!(store.get_min_index(), 8);
    assert_eq!(store.get_count(8), 2);
    store.add(5, 3);
    assert_eq!(store.get_min_index(), 7);
    assert_eq!(store.get_count(7), 3);
    assert_eq!(store.get_count(8), 2);
    assert_eq!(store.get_ascending_bins(), vec![(7, 3), (8, 2), (10, 1)]);
}

#[test]
fn collapsing_highest_merges_the_high_tail() {
    let mut store = DenseStore::collapsing_highest(2).unwrap();
    store.add(7, 3);
    store.add(5, 1);
    assert_eq!(store.get_min_index(), 5);
    assert_eq!(store.get_max_index(), 6);
    assert_eq!(store.get_count(7), 0);
    assert_eq!(store.get_count(6), 3);
    assert_eq!(store.get_count(5), 1);
    store.add(100, 4);
    assert_eq!(store.get_count(6), 7);
    store.add(2, 1);
    assert_eq!(store.get_min_index(), 2);
    assert_eq!(store.get_max_index(), 3);
    assert_eq!(store.get_count(3), 8);
    assert_eq!(store.get_count(2), 1);
    assert_eq!(store.get_total_count(), 9);
    assert_eq!(store.get_descending_bins(), vec![(3, 8), (2, 1)]);
}

#[test]
fn collapsing_store_of_one_bin() {
    let mut store = DenseStore::collapsing_lowest(1).unwrap();
    store.add(1, 1);
    store.add(3, 1);
    store.add(2, 1);
    assert_eq!(store.get_ascending_bins(), vec![(3, 3)]);
}

#[test]
fn store_clear_empties_and_keeps_the_limit() {
    let mut store = DenseStore::collapsing_lowest(2).unwrap();
    store.add(1, 1);
    store.add(9, 1);
    store.clear();
    assert!(store.is_empty());
    assert_eq!(store.get_total_count(), 0);
    store.add(1, 1);
    store.add(2, 1);
    store.add(3, 1);
    assert_eq!(store.get_ascending_bins(), vec![(2, 2), (3, 1)]);
}

#[test]
fn store_merge_adds_bin_by_bin() {
    let mut left = DenseStore::unbounded();
    left.add(1, 1);
    left.add(4, 2);
    let mut right = DenseStore::collapsing_highest(8).unwrap();
    right.add(4, 5);
    right.add(-3, 7);
    left.merge_with(&right);
    assert_eq!(left.get_ascending_bins(), vec![(-3, 7), (1, 1), (4, 7)]);
    assert_eq!(left.get_total_count(), 15);
    assert_eq!(right.get_total_count(), 12);
}

#[test]
fn store_merge_is_commutative_on_counts() {
    let mut a = DenseStore::unbounded();
    a.add(1, 1);
    a.add(4, 2);
    let mut b = DenseStore::unbounded();
    b.add(4, 5);
    b.add(-3, 7);
    let mut ab = DenseStore::unbounded();
    ab.merge_with(&a);
    ab.merge_with(&b);
    let mut ba = DenseStore::unbounded();
    ba.merge_with(&b);
    ba.merge_with(&a);
    assert_eq!(ab.get_ascending_bins(), ba.get_ascending_bins());
}

#[test]
fn store_merge_into_collapsing_store_collapses() {
    let mut small = DenseStore::collapsing_lowest(2).unwrap();
    small.add(10, 1);
    let mut other = DenseStore::unbounded();
    other.add(1, 1);
    other.add(2, 1);
    other.add(11, 1);
    small.merge_with(&other);
    assert_eq!(small.get_ascending_bins(), vec![(10, 3), (11, 1)]);
}

#[test]
fn store_block_exact_bytes() {
    let mut store = DenseStore::unbounded();
    store.add(-1, 1);
    store.add(1, 2);
    assert_eq!(
        block_of(&store, FlagType::PositiveStore),
        vec![0x0d, 0x01, 0x03, 0x02, 0x00, 0x03]
    );
    assert_eq!(
        block_of(&store, FlagType::NegativeStore),
        vec![0x0f, 0x01, 0x03, 0x02, 0x00, 0x03]
    );
    let empty = DenseStore::unbounded();
    assert_eq!(block_of(&empty, FlagType::PositiveStore), vec![0x0d, 0x00, 0x00]);
}

#[test]
fn store_block_round_trip() {
    let mut store = DenseStore::collapsing_lowest(16).unwrap();
    store.add(-7, 3);
    store.add(-5, 1);
    store.add(2, 1000);
    let bytes = block_of(&store, FlagType::PositiveStore);
    let mut input = Input::wrap(&bytes);
    let marker = input.read_byte().unwrap();
    let mode = BinEncodingMode::of_flag(marker).unwrap();
    assert_eq!(mode, BinEncodingMode::ContiguousCounts);
    let mut read = DenseStore::unbounded();
    read.decode_and_merge_with(&mut input, mode).unwrap();
    assert!(!input.has_remaining());
    assert_eq!(read.get_ascending_bins(), store.get_ascending_bins());
    assert_eq!(read.get_total_count(), store.get_total_count());
}

#[test]
fn store_decodes_index_deltas_and_counts() {
    // Three bins: at 5 (count 1), at 5 + 3 = 8 (count 2), at 8 - 10 = -2 (count 3).
    let bytes = vec![0x03, 0x0a, 0x02, 0x06, 0x03, 0x13, 0x04];
    let mut input = Input::wrap(&bytes);
    let mut store = DenseStore::unbounded();
    store.decode_and_merge_with(&mut input, BinEncodingMode::IndexDeltasAndCounts).unwrap();
    assert!(!input.has_remaining());
    assert_eq!(store.get_ascending_bins(), vec![(-2, 3), (5, 1), (8, 2)]);
}

#[test]
fn store_decode_merges_into_what_is_there() {
    let mut store = DenseStore::unbounded();
    store.add(0, 10);
    let bytes = vec![0x00, 0x02, 0x02, 0x03];
    let mut input = Input::wrap(&bytes);
    store.decode_and_merge_with(&mut input, BinEncodingMode::ContiguousCounts).unwrap();
    assert_eq!(store.get_ascending_bins(), vec![(0, 11), (1, 2)]);
}

#[test]
fn store_decode_truncated_block_fails() {
    let bytes = vec![0x00, 0x02, 0x02];
    let mut input = Input::wrap(&bytes);
    let mut store = DenseStore::unbounded();
    assert!(matches!(
        store.decode_and_merge_with(&mut input, BinEncodingMode::ContiguousCounts),
        Err(Error::InvalidArgument(_))
    ));
    let bytes = vec![0x02, 0x0a, 0x02, 0x06];
    let mut input = Input::wrap(&bytes);
    let mut store = DenseStore::unbounded();
    assert!(store
        .decode_and_merge_with(&mut input, BinEncodingMode::IndexDeltasAndCounts)
        .is_err());
}

#[test]
fn store_decode_fractional_count_fails() {
    // One bin at index 0 whose count is the double 0.5.
    let raw = (1.5f64).to_bits() - (1.0f64).to_bits();
    let mut output = Output::with_capacity(16);
    sketches_rust::encoding::encode_signed_var_long(&mut output, 0).unwrap();
    sketches_rust::encoding::encode_unsigned_var_long(&mut output, 1).unwrap();
    sketches_rust::encoding::encode_var_double(&mut output, raw).unwrap();
    let bytes = output.trim();
    let mut input = Input::wrap(&bytes);
    let mut store = DenseStore::unbounded();
    assert!(store.decode_and_merge_with(&mut input, BinEncodingMode::ContiguousCounts).is_err());
}

#[test]
fn store_decode_index_out_of_range_fails() {
    let mut output = Output::with_capacity(16);
    sketches_rust::encoding::encode_signed_var_long(&mut output, i32::MAX as i64).unwrap();
    sketches_rust::encoding::encode_unsigned_var_long(&mut output, 2).unwrap();
    sketches_rust::encoding::encode_var_double(&mut output, 0x0010_0000_0000_0000).unwrap();
    sketches_rust::encoding::encode_var_double(&mut output, 0x0010_0000_0000_0000).unwrap();
    let bytes = output.trim();
    let mut input = Input::wrap(&bytes);
    let mut store = DenseStore::unbounded();
    assert!(store.decode_and_merge_with(&mut input, BinEncodingMode::ContiguousCounts).is_err());

    let mut output = Output::with_capacity(16);
    sketches_rust::encoding::encode_signed_var_long(&mut output, i32::MAX as i64 + 1).unwrap();
    sketches_rust::encoding::encode_unsigned_var_long(&mut output, 0).unwrap();
    let bytes = output.trim();
    let mut input = Input::wrap(&bytes);
    let mut store = DenseStore::unbounded();
    assert!(store.decode_and_merge_with(&mut input, BinEncodingMode::ContiguousCounts).is_err());
}

#[test]
fn store_decode_total_too_large_fails() {
    let mut store = DenseStore::unbounded();
    store.add(0, MAX_COUNT);
    let bytes = vec![0x00, 0x01, 0x02];
    let mut input = Input::wrap(&bytes);
    assert!(store.decode_and_merge_with(&mut input, BinEncodingMode::ContiguousCounts).is_err());
    assert_eq!(store.get_total_count(), MAX_COUNT);
}

#[test]
fn bin_encoding_mode_of_flag() {
    assert_eq!(
        BinEncodingMode::of_flag(0x05).unwrap(),
        BinEncodingMode::IndexDeltasAndCounts
    );
    assert_eq!(BinEncodingMode::of_flag(0x0d).unwrap(), BinEncodingMode::ContiguousCounts);
    assert_eq!(BinEncodingMode::of_flag(0x0f).unwrap(), BinEncodingMode::ContiguousCounts);
    assert!(matches!(BinEncodingMode::of_flag(0x01), Err(Error::InvalidArgument(_))));
    assert!(BinEncodingMode::of_flag(0x09).is_err());
    assert!(BinEncodingMode::of_flag(0xff).is_err());
    assert_eq!(
        BinEncodingMode::IndexDeltasAndCounts.to_flag(FlagType::NegativeStore).get_marker(),
        0x07
    );
}
