//! Converting logical types into the common representation, the canonical
//! and the fancy way.

use tydi::common::{Field, Mode as CMode, Package, Type};
use tydi::convert::{Componentify, Packify};
use tydi::design::{Interface, Mode, Streamlet};
use tydi::logical::{Group, LogicalType, Stream, StreamDirection, Union};
use tydi::physical::{Complexity, Origin, Signal};
use tydi::vhdl::Declare;
use tydi::{Name, NonZeroReal, Positive};

fn name(s: &str) -> Name {
    Name::try_new(s).unwrap()
}

fn prim(width: u32) -> LogicalType {
    LogicalType::try_new_bits(width).unwrap()
}

fn group() -> LogicalType {
    LogicalType::Group(
        Group::try_new(vec![(name("c"), prim(42)), (name("d"), prim(1337))]).unwrap(),
    )
}

fn group_nested() -> LogicalType {
    LogicalType::Group(
        Group::try_new(vec![(name("a"), group()), (name("b"), group())]).unwrap(),
    )
}

fn group_of_single() -> LogicalType {
    LogicalType::Group(Group::try_new(vec![(name("a"), prim(42))]).unwrap())
}

fn stream(data: LogicalType) -> LogicalType {
    Stream::try_new(
        data,
        NonZeroReal::new(1000).unwrap(),
        0,
        Complexity::new_major(4),
        StreamDirection::Forward,
        LogicalType::Null,
    )
    .unwrap()
    .into_logical()
}

fn stream_prim(width: u32) -> LogicalType {
    stream(prim(width))
}

fn stream_group() -> LogicalType {
    LogicalType::Group(
        Group::try_new(vec![
            (name("a"), stream_prim(42)),
            (name("b"), stream_prim(1337)),
        ])
        .unwrap(),
    )
}

fn stream_nested() -> LogicalType {
    stream(LogicalType::Group(
        Group::try_new(vec![(name("a"), prim(8)), (name("b"), stream_prim(4))]).unwrap(),
    ))
}

#[test]
fn convert_logical_to_common_prim() {
    let sigs = prim(8).canonical("test");
    assert_eq!(
        sigs,
        vec![Signal::vec("test", Origin::Source, Positive::new(8).unwrap())]
    );

    let typ: Type = prim(8).fancy("test").unwrap();
    assert_eq!(typ, Type::bitvec(8));
}

#[test]
fn convert_logical_to_common_groups() {
    let typ0 = group().canonical("test");
    assert_eq!(
        typ0,
        vec![
            Signal::vec("test_c", Origin::Source, Positive::new(42).unwrap()),
            Signal::vec("test_d", Origin::Source, Positive::new(1337).unwrap()),
        ]
    );

    let typ1 = group_nested().canonical("test");
    assert_eq!(
        typ1,
        vec![
            Signal::vec("test_a_c", Origin::Source, Positive::new(42).unwrap()),
            Signal::vec("test_a_d", Origin::Source, Positive::new(1337).unwrap()),
            Signal::vec("test_b_c", Origin::Source, Positive::new(42).unwrap()),
            Signal::vec("test_b_d", Origin::Source, Positive::new(1337).unwrap()),
        ]
    );

    let typ2 = group_of_single().canonical("test");
    assert_eq!(
        typ2,
        vec![Signal::vec("test_a", Origin::Source, Positive::new(42).unwrap())]
    );

    let f0: Type = group().fancy("test").unwrap();
    assert_eq!(
        f0,
        Type::record(
            "test",
            vec![
                Field::new("c", Type::bitvec(42), false, None),
                Field::new("d", Type::bitvec(1337), false, None),
            ]
        )
    );

    let f1: Type = group_nested().fancy("test").unwrap();
    assert_eq!(
        f1,
        Type::record(
            "test",
            vec![
                Field::new(
                    "a",
                    Type::record(
                        "test_a",
                        vec![
                            Field::new("c", Type::bitvec(42), false, None),
                            Field::new("d", Type::bitvec(1337), false, None),
                        ]
                    ),
                    false,
                    None,
                ),
                Field::new(
                    "b",
                    Type::record(
                        "test_b",
                        vec![
                            Field::new("c", Type::bitvec(42), false, None),
                            Field::new("d", Type::bitvec(1337), false, None),
                        ]
                    ),
                    false,
                    None,
                ),
            ]
        )
    );

    let f2: Type = group_of_single().fancy("test").unwrap();
    assert_eq!(
        f2,
        Type::record("test", vec![Field::new("a", Type::bitvec(42), false, None)])
    );
}

#[test]
fn convert_logical_to_common_streams() {
    let typ0 = stream_prim(8).canonical("test");
    assert_eq!(
        typ0,
        vec![
            Signal::bit("test_valid", Origin::Source),
            Signal::bit("test_ready", Origin::Sink),
            Signal::opt_vec("test_data", Origin::Source, Some(8)).unwrap(),
        ]
    );

    let f0: Type = stream_prim(8).fancy("test").unwrap();
    assert_eq!(
        f0,
        Type::record(
            "test",
            vec![
                Field::new("valid", Type::Bit, false, None),
                Field::new("ready", Type::Bit, true, None),
                Field::new("data", Type::bitvec(8), false, None),
            ]
        )
    );

    let f1: Type = stream_group().fancy("test").unwrap();
    assert_eq!(
        f1,
        Type::record(
            "test",
            vec![
                Field::new(
                    "a",
                    Type::record(
                        "test_a",
                        vec![
                            Field::new("valid", Type::Bit, false, None),
                            Field::new("ready", Type::Bit, true, None),
                            Field::new("data", Type::bitvec(42), false, None),
                        ]
                    ),
                    false,
                    None,
                ),
                Field::new(
                    "b",
                    Type::record(
                        "test_b",
                        vec![
                            Field::new("valid", Type::Bit, false, None),
                            Field::new("ready", Type::Bit, true, None),
                            Field::new("data", Type::bitvec(1337), false, None),
                        ]
                    ),
                    false,
                    None,
                )
            ]
        )
    );
}

#[test]
fn convert_interface_to_port() {
    let if0 = Interface::try_new("test", Mode::In, stream_prim(8), None).unwrap();
    let ports = if0.canonical("test");
    assert_eq!(ports.len(), 3);
    assert_eq!(ports[0].identifier(), "test_valid");
    assert_eq!(ports[0].mode(), CMode::In);
    assert_eq!(ports[1].identifier(), "test_ready");
    assert_eq!(ports[1].mode(), CMode::Out);
    assert_eq!(ports[2].identifier(), "test_data");
    assert_eq!(ports[2].mode(), CMode::In);

    let if1 = Interface::try_new("test", Mode::Out, stream_group(), None).unwrap();
    let ports = if1.canonical("test");
    assert_eq!(ports.len(), 6);
    assert_eq!(ports[0].identifier(), "test_a_valid");
    assert_eq!(ports[1].identifier(), "test_a_ready");
    assert_eq!(ports[1].mode(), CMode::In);
    assert_eq!(ports[2].identifier(), "test_a_data");
    assert_eq!(ports[3].identifier(), "test_b_valid");
    assert_eq!(ports[4].identifier(), "test_b_ready");
    assert_eq!(ports[5].identifier(), "test_b_data");
}

#[test]
fn simple_streamlet() {
    let streamlet = Streamlet::from_builder(
        name("test"),
        vec![
            Interface::try_new("x", Mode::In, stream_prim(8), None).unwrap(),
            Interface::try_new("y", Mode::Out, stream_group(), None).unwrap(),
        ],
        None,
    )
    .unwrap();
    let common_streamlet = streamlet.fancy(None).unwrap();
    let pkg = Package { identifier: "boomer".to_string(), components: vec![common_streamlet] };
    let text = pkg.declare().unwrap();
    assert!(text.contains("package boomer is"));
    assert!(text.contains("component test"));
}

#[test]
fn nested_streams_streamlet() {
    let streamlet = Streamlet::from_builder(
        name("test"),
        vec![
            Interface::try_new("x", Mode::In, stream_prim(8), None).unwrap(),
            Interface::try_new("y", Mode::Out, stream_nested(), None).unwrap(),
        ],
        None,
    )
    .unwrap();
    let common_streamlet = streamlet.fancy(None).unwrap();
    let pkg = Package { identifier: "testing".to_string(), components: vec![common_streamlet] };
    let text = pkg.declare().unwrap();
    assert!(text.contains("package testing is"));
}

#[test]
fn union_tag_sizing() {
    let three = Union::try_new(vec![
        (name("a"), prim(8)),
        (name("b"), prim(4)),
        (name("c"), prim(2)),
    ])
    .unwrap();
    assert_eq!(three.tag(), Some(Positive::new(2).unwrap()));

    let one = Union::try_new(vec![(name("a"), prim(8))]).unwrap();
    assert_eq!(one.tag(), None);
}

#[test]
fn end_to_end_fancy_package() {
    let a = Stream::try_new(
        prim(1),
        NonZeroReal::new(1000).unwrap(),
        1,
        Complexity::new_major(4),
        StreamDirection::Forward,
        LogicalType::Null,
    )
    .unwrap()
    .into_logical();
    let b = Stream::try_new(
        prim(32),
        NonZeroReal::new(1000).unwrap(),
        0,
        Complexity::new_major(4),
        StreamDirection::Forward,
        LogicalType::Null,
    )
    .unwrap()
    .into_logical();
    let streamlet = Streamlet::from_builder(
        name("x"),
        vec![
            Interface::try_new("a", Mode::In, a, None).unwrap(),
            Interface::try_new("b", Mode::Out, b, None).unwrap(),
        ],
        None,
    )
    .unwrap();
    let lib = tydi::design::Library::try_new(name("lib"), vec![streamlet]).unwrap();
    let pkg = lib.fancy();
    let text = pkg.declare().unwrap();
    assert!(text.contains("component x_com"));
    assert!(text.contains("a_valid : in std_logic"));
    assert!(text.contains("a_ready : out std_logic"));
    assert!(text.contains("a_data : in std_logic"));
    assert!(text.contains("a_last : in std_logic"));
    assert!(text.contains("b_valid : out std_logic"));
    assert!(text.contains("b_ready : in std_logic"));
    assert!(text.contains("b_data : out std_logic_vector(31 downto 0)"));
    assert!(!text.contains("b_last"));
    assert!(text.contains("component x\n"));
    assert!(text.contains("a_dn : in x_a_dn_type"));
    assert!(text.contains("a_up : out x_a_up_type"));
    assert!(text.contains("b_dn : out x_b_dn_type"));
    assert!(text.contains("b_up : in x_b_up_type"));
}
