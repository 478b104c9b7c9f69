use protobuf::{CodedInputStream, CodedOutputStream};
use sketches_rust::error::Error;
use sketches_rust::index_mapping::{IndexMapping, IndexMappingLayout};
use sketches_rust::records::{
    IndexMappingRecord, SketchRecord, StoreRecord, INTERPOLATION_CUBIC, INTERPOLATION_NONE,
};
use sketches_rust::sketch::Bucket;
use sketches_rust::store::DenseStore;
use sketches_rust::DDSketch;

const A: f64 = 6.0 / 35.0;
const B: f64 = -3.0 / 5.0;
const C: f64 = 10.0 / 7.0;

fn cubic_gamma(relative_accuracy: f64) -> f64 {
    let correcting_factor = 7.0 / (10.0 * std::f64::consts::LN_2);
    ((1.0 + relative_accuracy) / (1.0 - relative_accuracy)).powf(1.0 / correcting_factor)
}

fn cubic_index(gamma: f64, value: f64) -> i32 {
    let bits = value.to_bits();
    let exponent = ((bits >> 52) & 0x7ff) as i64 - 1023;
    let s = f64::from_bits((bits & 0x000f_ffff_ffff_ffff) | 0x3ff0_0000_0000_0000) - 1.0;
    let log = ((A * s + B) * s + C) * s + exponent as f64;
    (log * std::f64::consts::LN_2 / gamma.ln()).floor() as i32
}

fn bucket_of(gamma: f64, value: f64) -> Bucket {
    if value > 0.0 {
        Bucket::Positive(cubic_index(gamma, value))
    } else if value < 0.0 {
        Bucket::Negative(cubic_index(gamma, -value))
    } else {
        Bucket::Zero
    }
}

fn mapping_bytes(record: &IndexMappingRecord) -> Vec<u8> {
    let mut bytes: Vec<u8> = Vec::new();
    {
        let mut out = CodedOutputStream::vec(&mut bytes);
        out.write_double(1, f64::from_bits(record.gamma)).unwrap();
        out.write_double(2, f64::from_bits(record.index_offset)).unwrap();
        out.write_enum(3, record.interpolation).unwrap();
        out.flush().unwrap();
    }
    bytes
}

fn store_bytes(record: &StoreRecord) -> Vec<u8> {
    let mut bytes: Vec<u8> = Vec::new();
    {
        let mut out = CodedOutputStream::vec(&mut bytes);
        for (index, count) in &record.bin_counts {
            let mut entry: Vec<u8> = Vec::new();
            {
                let mut inner = CodedOutputStream::vec(&mut entry);
                inner.write_sint32(1, *index).unwrap();
                inner.write_double(2, *count as f64).unwrap();
                inner.flush().unwrap();
            }
            out.write_bytes(1, &entry).unwrap();
        }
        let counts: Vec<f64> = record.contiguous_bin_counts.iter().map(|c| *c as f64).collect();
        out.write_repeated_packed_double(2, &counts).unwrap();
        out.write_sint32(3, record.contiguous_bin_index_offset).unwrap();
        out.flush().unwrap();
    }
    bytes
}

fn sketch_bytes(record: &SketchRecord) -> Vec<u8> {
    let mut bytes: Vec<u8> = Vec::new();
    {
        let mut out = CodedOutputStream::vec(&mut bytes);
        if let Some(mapping) = &record.mapping {
            out.write_bytes(1, &mapping_bytes(mapping)).unwrap();
        }
        if let Some(store) = &record.positive_values {
            out.write_bytes(2, &store_bytes(store)).unwrap();
        }
        if let Some(store) = &record.negative_values {
            out.write_bytes(3, &store_bytes(store)).unwrap();
        }
        out.write_double(4, record.zero_count as f64).unwrap();
        out.flush().unwrap();
    }
    bytes
}

fn whole(count: f64) -> u64 {
    assert!(count >= 0.0 && count.fract() == 0.0);
    count as u64
}

fn parse_mapping(bytes: &[u8]) -> IndexMappingRecord {
    let mut input = CodedInputStream::from_bytes(bytes);
    let mut record = IndexMappingRecord { gamma: 0, index_offset: 0, interpolation: 0 };
    while let Some(tag) = input.read_raw_tag_or_eof().unwrap() {
        match tag >> 3 {
            1 => record.gamma = input.read_double().unwrap().to_bits(),
            2 => record.index_offset = input.read_double().unwrap().to_bits(),
            3 => record.interpolation = input.read_int32().unwrap(),
            field => panic!("unexpected field {} in a mapping", field),
        }
    }
    record
}

fn parse_store(bytes: &[u8]) -> StoreRecord {
    let mut input = CodedInputStream::from_bytes(bytes);
    let mut record = StoreRecord {
        bin_counts: Vec::new(),
        contiguous_bin_counts: Vec::new(),
        contiguous_bin_index_offset: 0,
    };
    while let Some(tag) = input.read_raw_tag_or_eof().unwrap() {
        match tag >> 3 {
            1 => {
                let entry = input.read_bytes().unwrap();
                let mut inner = CodedInputStream::from_bytes(&entry);
                let mut index = 0;
                let mut count = 0.0;
                while let Some(tag) = inner.read_raw_tag_or_eof().unwrap() {
                    match tag >> 3 {
                        1 => index = inner.read_sint32().unwrap(),
                        2 => count = inner.read_double().unwrap(),
                        field => panic!("unexpected field {} in a bin", field),
                    }
                }
                record.bin_counts.push((index, whole(count)));
            }
            2 => {
                let mut counts: Vec<f64> = Vec::new();
                input.read_repeated_packed_double_into(&mut counts).unwrap();
                for count in counts {
                    record.contiguous_bin_counts.push(whole(count));
                }
            }
            3 => record.contiguous_bin_index_offset = input.read_sint32().unwrap(),
            field => panic!("unexpected field {} in a store", field),
        }
    }
    record
}

fn parse_sketch(bytes: &[u8]) -> SketchRecord {
    let mut input = CodedInputStream::from_bytes(bytes);
    let mut record =
        SketchRecord { mapping: None, positive_values: None, negative_values: None, zero_count: 0 };
    while let Some(tag) = input.read_raw_tag_or_eof().unwrap() {
        match tag >> 3 {
            1 => record.mapping = Some(parse_mapping(&input.read_bytes().unwrap())),
            2 => record.positive_values = Some(parse_store(&input.read_bytes().unwrap())),
            3 => record.negative_values = Some(parse_store(&input.read_bytes().unwrap())),
            4 => record.zero_count = whole(input.read_double().unwrap()),
            field => panic!("unexpected field {} in a sketch", field),
        }
    }
    record
}

#[test]
pub fn test_proto() {
    let gamma = cubic_gamma(0.01);
    let mut initial_sketch = DDSketch::unbounded_dense(gamma.to_bits()).unwrap();
    let test_data = vec![0.1, 0.5, 0.7, 0.9, 1.4, 3.1, 0.6, 2.5, 0.55, 1.34, 5.34, 0.4, -1.4];

    for val in test_data {
        initial_sketch.accept(bucket_of(gamma, val));
    }

    let min = initial_sketch.get_min().unwrap();
    let max = initial_sketch.get_max().unwrap();
    let median = initial_sketch.get_value_at_quantile(1, 2).unwrap();

    let sketch_proto = initial_sketch.to_record();
    let bytes = sketch_bytes(&sketch_proto);

    println!("Bytes count: {:?}", bytes.len());
    println!("Bytes: {:?}", bytes);

    let restored_sketch = DDSketch::from_record(&parse_sketch(&bytes)).unwrap();

    assert_eq!(min, restored_sketch.get_min().unwrap());
    assert_eq!(max, restored_sketch.get_max().unwrap());
    assert_eq!(median, restored_sketch.get_value_at_quantile(1, 2).unwrap());
}

#[test]
fn record_round_trip_keeps_everything() {
    let gamma = cubic_gamma(0.01);
    let mut sketch = DDSketch::collapsing_lowest_dense(gamma.to_bits(), 16).unwrap();
    for (index, count) in [(-3, 2u64), (0, 1), (4, 7)] {
        sketch.accept_with_count(Bucket::Positive(index), count);
        sketch.accept_with_count(Bucket::Negative(index + 1), count + 1);
    }
    sketch.accept_with_count(Bucket::Zero, 9);
    let restored = DDSketch::from_record(&parse_sketch(&sketch_bytes(&sketch.to_record()))).unwrap();
    assert_eq!(restored.get_index_mapping(), sketch.get_index_mapping());
    assert_eq!(restored.get_count(), sketch.get_count());
    assert_eq!(restored.get_zero_count(), 9);
    assert_eq!(
        restored.get_positive_value_store().get_ascending_bins(),
        vec![(-3, 2), (0, 1), (4, 7)]
    );
    assert_eq!(
        restored.get_negative_value_store().get_ascending_bins(),
        vec![(-2, 3), (1, 2), (5, 8)]
    );
}

#[test]
fn store_to_record_is_one_run_from_the_smallest_index() {
    let mut store = DenseStore::unbounded();
    store.add(3, 1);
    store.add(6, 4);
    let record = store.to_record();
    assert!(record.bin_counts.is_empty());
    assert_eq!(record.contiguous_bin_index_offset, 3);
    assert_eq!(record.contiguous_bin_counts, vec![1, 0, 0, 4]);
    let empty = DenseStore::unbounded().to_record();
    assert!(empty.bin_counts.is_empty());
    assert!(empty.contiguous_bin_counts.is_empty());
    assert_eq!(empty.contiguous_bin_index_offset, 0);
}

#[test]
fn store_from_record_adds_single_bins_and_the_run() {
    let record = StoreRecord {
        bin_counts: vec![(10, 2), (-4, 1), (10, 3)],
        contiguous_bin_counts: vec![1, 0, 5],
        contiguous_bin_index_offset: 9,
    };
    let store = DenseStore::from_record(&record).unwrap();
    assert_eq!(store.get_ascending_bins(), vec![(-4, 1), (9, 1), (10, 5), (11, 5)]);
    assert_eq!(store.get_total_count(), 12);
}

#[test]
fn store_from_record_refuses_what_does_not_fit() {
    let beyond = StoreRecord {
        bin_counts: Vec::new(),
        contiguous_bin_counts: vec![1, 1],
        contiguous_bin_index_offset: i32::MAX,
    };
    assert!(matches!(DenseStore::from_record(&beyond), Err(Error::InvalidArgument(_))));
    let at_the_end = StoreRecord {
        bin_counts: Vec::new(),
        contiguous_bin_counts: vec![1],
        contiguous_bin_index_offset: i32::MAX,
    };
    assert_eq!(DenseStore::from_record(&at_the_end).unwrap().get_max_index(), i32::MAX);
    let too_many = StoreRecord {
        bin_counts: vec![(0, sketches_rust::encoding::MAX_COUNT)],
        contiguous_bin_counts: vec![1],
        contiguous_bin_index_offset: 0,
    };
    assert!(DenseStore::from_record(&too_many).is_err());
    let too_large = StoreRecord {
        bin_counts: vec![(0, u64::MAX)],
        contiguous_bin_counts: Vec::new(),
        contiguous_bin_index_offset: 0,
    };
    assert!(DenseStore::from_record(&too_large).is_err());
}

#[test]
fn mapping_record_interpolation() {
    let log = IndexMapping::with_gamma_offset(IndexMappingLayout::LOG, 1.5f64.to_bits(), 3).unwrap();
    let record = log.to_record();
    assert_eq!(record.interpolation, INTERPOLATION_NONE);
    assert_eq!(record.gamma, 1.5f64.to_bits());
    assert_eq!(record.index_offset, 3);
    assert_eq!(IndexMapping::from_record(&record).unwrap(), log);
    let cubic =
        IndexMapping::with_gamma_offset(IndexMappingLayout::LogCubic, 1.5f64.to_bits(), 0).unwrap();
    assert_eq!(cubic.to_record().interpolation, INTERPOLATION_CUBIC);
    assert_eq!(IndexMapping::from_record(&cubic.to_record()).unwrap(), cubic);
    assert_eq!(IndexMapping::from_record(&parse_mapping(&mapping_bytes(&record))).unwrap(), log);
}

#[test]
fn mapping_record_with_unknown_interpolation_fails() {
    for interpolation in [1, 2, 4, -1] {
        let record = IndexMappingRecord {
            gamma: 1.5f64.to_bits(),
            index_offset: 0,
            interpolation,
        };
        assert!(matches!(
            IndexMapping::from_record(&record),
            Err(Error::InvalidArgument(_))
        ));
    }
    let bad_gamma = IndexMappingRecord { gamma: 1.0f64.to_bits(), index_offset: 0, interpolation: 0 };
    assert!(IndexMapping::from_record(&bad_gamma).is_err());
}

#[test]
fn sketch_record_without_mapping_fails() {
    let record =
        SketchRecord { mapping: None, positive_values: None, negative_values: None, zero_count: 0 };
    assert!(matches!(DDSketch::from_record(&record), Err(Error::InvalidArgument(_))));
}

#[test]
fn sketch_record_without_stores_is_empty() {
    let record = SketchRecord {
        mapping: Some(IndexMappingRecord {
            gamma: 1.5f64.to_bits(),
            index_offset: 0,
            interpolation: INTERPOLATION_CUBIC,
        }),
        positive_values: None,
        negative_values: None,
        zero_count: 4,
    };
    let sketch = DDSketch::from_record(&record).unwrap();
    assert_eq!(sketch.get_count(), 4);
    assert_eq!(sketch.get_min(), Some(Bucket::Zero));
    let too_many = SketchRecord { zero_count: u64::MAX, ..record };
    assert!(DDSketch::from_record(&too_many).is_err());
}
