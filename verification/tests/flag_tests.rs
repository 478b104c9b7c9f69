use sketches_rust::error::Error;
use sketches_rust::flag::{Flag, FlagType, COUNT, MAX, MIN, SUM, ZERO_COUNT};
use sketches_rust::input::Input;
use sketches_rust::output::Output;

#[test]
fn flag_type_value_of_known_codes() {
    assert_eq!(FlagType::value_of(0).unwrap(), FlagType::SketchFeatures);
    assert_eq!(FlagType::value_of(1).unwrap(), FlagType::PositiveStore);
    assert_eq!(FlagType::value_of(2).unwrap(), FlagType::IndexMapping);
    assert_eq!(FlagType::value_of(3).unwrap(), FlagType::NegativeStore);
}

#[test]
fn flag_type_value_of_unknown_code_is_invalid_argument() {
    match FlagType::value_of(4) {
        Err(Error::InvalidArgument(reason)) => assert_eq!(reason, "Unknown FlagType."),
        Ok(_) => panic!("code 4 names no flag type"),
    }
    assert!(FlagType::value_of(255).is_err());
}

#[test]
fn flag_with_type_packs_class_and_sub_flag() {
    assert_eq!(Flag::with_type(FlagType::SketchFeatures, 1).get_marker(), 0x04);
    assert_eq!(Flag::with_type(FlagType::SketchFeatures, 0x28).get_marker(), 0xa0);
    assert_eq!(Flag::with_type(FlagType::SketchFeatures, 0x21).get_marker(), 0x84);
    assert_eq!(Flag::with_type(FlagType::SketchFeatures, 0x22).get_marker(), 0x88);
    assert_eq!(Flag::with_type(FlagType::SketchFeatures, 0x23).get_marker(), 0x8c);
    assert_eq!(Flag::with_type(FlagType::PositiveStore, 3).get_marker(), 0x0d);
    assert_eq!(Flag::with_type(FlagType::NegativeStore, 3).get_marker(), 0x0f);
    assert_eq!(Flag::with_type(FlagType::IndexMapping, 3).get_marker(), 0x0e);
    assert_eq!(Flag::with_type(FlagType::IndexMapping, 0).get_marker(), 0x02);
}

#[test]
fn feature_markers_match_their_sub_flags() {
    assert_eq!(ZERO_COUNT, Flag::with_type(FlagType::SketchFeatures, 1).get_marker());
    assert_eq!(COUNT, Flag::with_type(FlagType::SketchFeatures, 0x28).get_marker());
    assert_eq!(SUM, Flag::with_type(FlagType::SketchFeatures, 0x21).get_marker());
    assert_eq!(MIN, Flag::with_type(FlagType::SketchFeatures, 0x22).get_marker());
    assert_eq!(MAX, Flag::with_type(FlagType::SketchFeatures, 0x23).get_marker());
}

#[test]
fn flag_get_type_reads_low_two_bits() {
    for marker in 0u8..=255 {
        let flag = Flag::new(marker);
        assert_eq!(flag.get_marker(), marker);
        let expected = FlagType::value_of(marker & 3).unwrap();
        assert_eq!(flag.get_type().unwrap(), expected);
    }
}

#[test]
fn flag_with_type_then_get_type_gives_the_class_back() {
    let classes = [
        FlagType::SketchFeatures,
        FlagType::PositiveStore,
        FlagType::IndexMapping,
        FlagType::NegativeStore,
    ];
    for class in classes {
        for sub in 0u8..64 {
            let flag = Flag::with_type(class, sub);
            assert_eq!(flag.get_type().unwrap(), class);
            assert_eq!(flag.get_marker() >> 2, sub);
        }
    }
}

#[test]
fn flag_equality_is_by_marker() {
    assert_eq!(Flag::new(4), Flag::with_type(FlagType::SketchFeatures, 1));
    assert_ne!(Flag::new(4), Flag::new(5));
}

#[test]
fn flag_encode_then_decode() {
    let mut output = Output::with_capacity(4);
    Flag::new(0x0d).encode(&mut output).unwrap();
    Flag::new(0xa0).encode(&mut output).unwrap();
    let bytes = output.trim();
    assert_eq!(bytes, vec![0x0d, 0xa0]);
    let mut input = Input::wrap(&bytes);
    assert_eq!(Flag::decode(&mut input).unwrap().get_marker(), 0x0d);
    assert_eq!(Flag::decode(&mut input).unwrap().get_marker(), 0xa0);
    assert!(!input.has_remaining());
}

#[test]
fn flag_decode_at_end_of_input_fails() {
    let bytes: Vec<u8> = Vec::new();
    let mut input = Input::wrap(&bytes);
    assert!(matches!(Flag::decode(&mut input), Err(Error::InvalidArgument(_))));
}
