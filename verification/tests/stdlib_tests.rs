//! The ready-made building blocks: stubs, letter sequences, and the
//! architecture-level value types.

use tydi::design::{Interface, Library, Mode, Project, Streamlet, StreamletHandle};
use tydi::logical::{LogicalType, Stream, StreamDirection, Union};
use tydi::physical::Complexity;
use tydi::stdlib::{alphabet_sequence, slice_comp, FieldSelection, RangeConstraint, StdLogicValue, Stub};
use tydi::{Error, Name, NonZeroReal};

fn name(s: &str) -> Name {
    Name::try_new(s).unwrap()
}

fn bits(width: u32) -> LogicalType {
    LogicalType::try_new_bits(width).unwrap()
}

fn union_ab() -> LogicalType {
    LogicalType::Union(
        Union::try_new(vec![(name("a"), bits(32)), (name("b"), bits(8))]).unwrap(),
    )
}

fn stream_of(data: LogicalType, milli: u64) -> LogicalType {
    Stream::try_new(
        data,
        NonZeroReal::new(milli).unwrap(),
        0,
        Complexity::new_major(8),
        StreamDirection::Forward,
        LogicalType::Null,
    )
    .unwrap()
    .into_logical()
}

fn stub_project() -> Project {
    let source_stub = Streamlet::from_builder(
        name("source_stub"),
        vec![
            Interface::try_new("out_source", Mode::Out, stream_of(union_ab(), 8000), None)
                .unwrap(),
            Interface::try_new(
                "out_source2",
                Mode::Out,
                stream_of(
                    LogicalType::Union(
                        Union::try_new(vec![
                            (name("a"), stream_of(bits(32), 8000)),
                            (name("b"), stream_of(bits(8), 3000)),
                        ])
                        .unwrap(),
                    ),
                    8000,
                ),
                None,
            )
            .unwrap(),
        ],
        None,
    )
    .unwrap();
    let passthrough_stub = Streamlet::from_builder(
        name("passthrough_stub"),
        vec![
            Interface::try_new("in_pass", Mode::In, stream_of(union_ab(), 8000), None).unwrap(),
            Interface::try_new(
                "in_pass2",
                Mode::In,
                stream_of(
                    LogicalType::Group(
                        tydi::logical::Group::try_new(vec![
                            (name("op1"), bits(64)),
                            (name("op2"), bits(54)),
                        ])
                        .unwrap(),
                    ),
                    100,
                ),
                None,
            )
            .unwrap(),
            Interface::try_new("out_pass", Mode::Out, stream_of(union_ab(), 8000), None).unwrap(),
        ],
        None,
    )
    .unwrap();
    let sink_stub = Streamlet::from_builder(
        name("sink_stub"),
        vec![Interface::try_new("in_sink", Mode::In, stream_of(union_ab(), 8000), None).unwrap()],
        None,
    )
    .unwrap();
    let invalid_stub = Streamlet::from_builder(name("invalid_stub"), vec![], None).unwrap();
    let lib = Library::try_new(
        name("test_library"),
        vec![source_stub, passthrough_stub, sink_stub, invalid_stub],
    )
    .unwrap();
    Project::from_builder(name("test_project"), vec![lib]).unwrap()
}

#[test]
fn source_stub_interfaces() {
    let prj = stub_project();
    let stub = Stub::try_new(
        &prj,
        name("source"),
        StreamletHandle { lib: name("test_library"), streamlet: name("source_stub") },
    )
    .unwrap();
    assert!(matches!(stub, Stub::Source(_)));
    assert_eq!(stub.streamlet().interfaces().len(), 2);
}

#[test]
fn passthrough_stub_interfaces() {
    let prj = stub_project();
    let stub = Stub::try_new(
        &prj,
        name("passthrough"),
        StreamletHandle { lib: name("test_library"), streamlet: name("passthrough_stub") },
    )
    .unwrap();
    assert!(matches!(stub, Stub::Passthrough(_)));
    assert_eq!(stub.streamlet().interfaces().len(), 3);
}

#[test]
fn sink_stub_interfaces() {
    let prj = stub_project();
    let stub = Stub::try_new(
        &prj,
        name("sink"),
        StreamletHandle { lib: name("test_library"), streamlet: name("sink_stub") },
    )
    .unwrap();
    assert!(matches!(stub, Stub::Sink(_)));
}

#[test]
fn invalid_stub_returns_composition_error() {
    let expected_err_string = "No input or output Stream defined.";
    let prj = stub_project();
    match Stub::try_new(
        &prj,
        name("invalid"),
        StreamletHandle { lib: name("test_library"), streamlet: name("invalid_stub") },
    ) {
        Err(Error::ComposerError(err_str)) if err_str == expected_err_string => (),
        actual => panic!("Expected a composition error, got {:?}", actual),
    };
}

#[test]
fn stub_backend_attaches_once() {
    let prj = stub_project();
    let mut stub = Stub::try_new(
        &prj,
        name("sink"),
        StreamletHandle { lib: name("test_library"), streamlet: name("sink_stub") },
    )
    .unwrap();
    let handle = StreamletHandle { lib: name("test_library"), streamlet: name("sink_stub") };
    assert!(stub.with_backend(name("sink"), handle).is_ok());
    let handle2 = StreamletHandle { lib: name("test_library"), streamlet: name("sink_stub") };
    assert!(matches!(stub.with_backend(name("sink"), handle2), Err(Error::ComposerError(_))));
    let _ = stub.finish();
}

#[test]
fn test_alph_seq() {
    assert_eq!(alphabet_sequence(0), String::from("a"));
    assert_eq!(alphabet_sequence(25), String::from("z"));
    assert_eq!(alphabet_sequence(26), String::from("aa"));
    assert_eq!(alphabet_sequence(30), String::from("ae"));
    assert_eq!(alphabet_sequence(701), String::from("zz"));
    assert_eq!(alphabet_sequence(702), String::from("aaa"));
}

#[test]
fn slice_comp_shape() {
    let c = slice_comp(tydi::common::Type::bitvec(8));
    assert_eq!(c.identifier(), "StreamSlice");
    assert_eq!(c.ports().len(), 8);
    assert_eq!(c.ports()[4].identifier(), "in_data");
    assert_eq!(c.ports()[7].identifier(), "out_data");
}

#[test]
fn std_logic_values() {
    assert_eq!(StdLogicValue::from_char('U').unwrap(), StdLogicValue::U);
    assert_eq!(StdLogicValue::from_char('1').unwrap(), StdLogicValue::Logic(true));
    assert_eq!(StdLogicValue::from_char('0').unwrap(), StdLogicValue::Logic(false));
    assert_eq!(StdLogicValue::from_char('-').unwrap(), StdLogicValue::DontCare);
    assert!(matches!(StdLogicValue::from_char('q'), Err(Error::InvalidArgument(_))));
    assert_eq!(StdLogicValue::H.symbol(), "H");
}

#[test]
fn range_constraints() {
    assert!(RangeConstraint::to(3, 1).is_err());
    assert!(RangeConstraint::downto(1, 3).is_err());
    let r = RangeConstraint::downto(10, 0).unwrap();
    assert_eq!(r.width_u32(), 11);
    assert_eq!(r.high(), 10);
    assert_eq!(r.low(), 0);
    let r = RangeConstraint::to(-4, 10).unwrap();
    assert_eq!(r.width_u32(), 15);
    assert_eq!(r.high(), 10);
    assert_eq!(r.low(), -4);
    assert_eq!(FieldSelection::index(4), FieldSelection::Range(RangeConstraint::Index(4)));
    assert!(matches!(FieldSelection::name("a"), FieldSelection::Name(_)));
}
