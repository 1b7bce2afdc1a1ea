//! The logical type tree and its synthesis.

use tydi::logical::{Group, LogicalType, Stream, StreamDirection};
use tydi::physical::Complexity;
use tydi::{Name, NonZeroReal};

fn name(s: &str) -> Name {
    Name::try_new(s).unwrap()
}

#[test]
fn foo() {
    let my_type = LogicalType::try_new_bits(8).unwrap();
    assert!(!my_type.is_null());
    assert!(my_type.is_element_only());
}

#[test]
fn synthesize_splits_nested_streams() {
    let inner = Stream::try_new(
        LogicalType::try_new_bits(4).unwrap(),
        NonZeroReal::new(1000).unwrap(),
        0,
        Complexity::new_major(4),
        StreamDirection::Forward,
        LogicalType::Null,
    )
    .unwrap()
    .into_logical();
    let outer = Stream::try_new(
        LogicalType::Group(
            Group::try_new(vec![
                (name("a"), LogicalType::try_new_bits(8).unwrap()),
                (name("b"), inner),
            ])
            .unwrap(),
        ),
        NonZeroReal::new(1000).unwrap(),
        1,
        Complexity::new_major(4),
        StreamDirection::Forward,
        LogicalType::Null,
    )
    .unwrap()
    .into_logical();
    let synth = outer.synthesize().unwrap();
    let streams = synth.streams();
    assert_eq!(streams.len(), 2);
    assert_eq!(streams[0].0.len(), 0);
    assert_eq!(streams[0].1.data_bit_count(), 8);
    assert_eq!(streams[0].1.dimensionality(), 1);
    assert_eq!(streams[1].0.len(), 1);
    assert_eq!(streams[1].1.data_bit_count(), 4);
}

#[test]
fn null_data_gives_empty_element_fields() {
    let s = Stream::try_new(
        LogicalType::Null,
        NonZeroReal::new(1000).unwrap(),
        0,
        Complexity::new_major(4),
        StreamDirection::Forward,
        LogicalType::try_new_bits(3).unwrap(),
    )
    .unwrap()
    .into_logical();
    let synth = s.synthesize().unwrap();
    assert_eq!(synth.streams().len(), 1);
    assert_eq!(synth.streams()[0].1.data_bit_count(), 0);
    assert_eq!(synth.streams()[0].1.user_bit_count(), 3);
}

#[test]
fn throughput_implies_lanes() {
    let s = Stream::try_new(
        LogicalType::try_new_bits(4).unwrap(),
        NonZeroReal::new(2500).unwrap(),
        0,
        Complexity::new_major(4),
        StreamDirection::Forward,
        LogicalType::Null,
    )
    .unwrap()
    .into_logical();
    let synth = s.synthesize().unwrap();
    assert_eq!(synth.streams()[0].1.element_lanes().get(), 3);
    assert_eq!(synth.streams()[0].1.data_bit_count(), 12);
}
