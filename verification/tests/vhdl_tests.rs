//! The VHDL back-end: identifiers, declarations, splitting and the
//! whole-package declaration with deduplication.

use tydi::common::{Component, Field, Mode, Package, Port, Record, Type};
use tydi::vhdl::{Analyze, Declare, DeclareType, DeclareUsings, Split, VHDLIdentifier};
use tydi::Error;

fn rec(name: &str) -> Type {
    Type::record(
        name,
        vec![
            Field::new("c", Type::bitvec(42), false, None),
            Field::new("d", Type::bitvec(1337), false, None),
        ],
    )
}

fn rec_rev(name: &str) -> Type {
    Type::record(
        name,
        vec![
            Field::new("c", Type::bitvec(42), false, None),
            Field::new("d", Type::bitvec(1337), true, None),
        ],
    )
}

fn rec_rev_nested(name: &str) -> Type {
    let name_a = format!("{}_a", name);
    let name_b = format!("{}_b", name);
    Type::record(
        name,
        vec![
            Field::new("a", rec(name_a.as_str()), false, None),
            Field::new("b", rec_rev(name_b.as_str()), false, None),
        ],
    )
}

fn test_comp() -> Component {
    Component::new(
        "test_comp",
        vec![],
        vec![
            Port::new("a", Mode::In, rec_rev("a")),
            Port::new("b", Mode::Out, rec_rev_nested("b")),
        ],
        None,
    )
}

#[test]
fn mode_decl() {
    let m0 = Mode::In;
    let m1 = Mode::Out;
    assert_eq!(m0.vhdl_identifier().unwrap(), "in");
    assert_eq!(m1.vhdl_identifier().unwrap(), "out");
}

#[test]
fn prim_type_decl() {
    let t0 = Type::Bit;
    assert_eq!(t0.declare(true).unwrap(), "std_logic");

    let t1 = Type::BitVec { width: 8 };
    assert_eq!(t1.declare(true).unwrap(), "std_logic_vector(7 downto 0)");
}

#[test]
fn record_type_decl() {
    let t0 = rec_rev("rec");
    assert_eq!(
        t0.declare(true).unwrap(),
        "type rec_dn_type is record\n  c : std_logic_vector(41 downto 0);\nend record;\n\ntype rec_up_type is record\n  d : std_logic_vector(1336 downto 0);\nend record;"
    );

    let t1 = rec_rev_nested("rec");
    assert_eq!(
        t1.declare(true).unwrap(),
        "type rec_a_dn_type is record\n  c : std_logic_vector(41 downto 0);\n  d : std_logic_vector(1336 downto 0);\nend record;\n\ntype rec_b_dn_type is record\n  c : std_logic_vector(41 downto 0);\nend record;\n\ntype rec_dn_type is record\n  a : rec_a_dn_type;\n  b : rec_b_dn_type;\nend record;\n\ntype rec_b_up_type is record\n  d : std_logic_vector(1336 downto 0);\nend record;\n\ntype rec_up_type is record\n  b : rec_b_up_type;\nend record;"
    );
}

#[test]
fn port_decl() {
    let p = Port::new("test", Mode::In, Type::BitVec { width: 10 });
    assert_eq!(
        "test : in std_logic_vector(9 downto 0)",
        p.declare().unwrap()
    );
}

#[test]
fn comp_decl() {
    let c = test_comp().with_doc(" My awesome\n Component".to_string());
    assert_eq!(
        c.declare().unwrap(),
        "-- My awesome
-- Component
component test_comp
  port(
    a_dn : in a_dn_type;
    a_up : out a_up_type;
    b_dn : out b_dn_type;
    b_up : in b_up_type
  );
end component;"
    );
}

#[test]
fn package_usings_decl() {
    let p = Package { identifier: "test".to_string(), components: vec![test_comp()] };
    assert_eq!(
        p.declare_usings().unwrap(),
        "library ieee;
use ieee.std_logic_1164.all;

"
    )
}

#[test]
fn package_decl() {
    let p = Package { identifier: "test".to_string(), components: vec![test_comp()] };
    assert_eq!(
        p.declare().unwrap(),
        "library ieee;
use ieee.std_logic_1164.all;

package test is

type a_dn_type is record
  c : std_logic_vector(41 downto 0);
end record;

type a_up_type is record
  d : std_logic_vector(1336 downto 0);
end record;

type b_a_dn_type is record
  c : std_logic_vector(41 downto 0);
  d : std_logic_vector(1336 downto 0);
end record;

type b_b_dn_type is record
  c : std_logic_vector(41 downto 0);
end record;

type b_dn_type is record
  a : b_a_dn_type;
  b : b_b_dn_type;
end record;

type b_b_up_type is record
  d : std_logic_vector(1336 downto 0);
end record;

type b_up_type is record
  b : b_b_up_type;
end record;

component test_comp
  port(
    a_dn : in a_dn_type;
    a_up : out a_up_type;
    b_dn : out b_dn_type;
    b_up : in b_up_type
  );
end component;

end test;"
    )
}

#[test]
fn split_primitive() {
    assert_eq!(Type::bitvec(3).split(), (Some(Type::bitvec(3)), None));
}

#[test]
fn split_field() {
    let f0 = Field::new("test", Type::bitvec(3), false, None);
    assert_eq!(f0.split(), (Some(Field::new("test", Type::bitvec(3), false, None)), None));

    let f1 = Field::new("test", Type::bitvec(3), true, None);
    assert_eq!(f1.split(), (None, Some(f1.reversed())));
}

#[test]
fn split_simple_rec() {
    let rec = Type::record(
        "ra",
        vec![
            Field::new("fc", Type::Bit, false, None),
            Field::new("fd", Type::Bit, true, None),
        ],
    );

    assert_eq!(
        rec.split().0.unwrap(),
        Type::record("ra", vec![Field::new("fc", Type::Bit, false, None)])
    );

    assert_eq!(
        rec.split().1.unwrap(),
        Type::record("ra", vec![Field::new("fd", Type::Bit, false, None)])
    );
}

#[test]
fn split_nested_rec() {
    let rec = Type::record(
        "test",
        vec![
            Field::new(
                "fa",
                Type::record(
                    "ra",
                    vec![
                        Field::new("fc", Type::Bit, false, None),
                        Field::new("fd", Type::Bit, true, None),
                    ],
                ),
                false,
                None,
            ),
            Field::new(
                "fb",
                Type::record(
                    "rb",
                    vec![
                        Field::new("fe", Type::Bit, false, None),
                        Field::new("ff", Type::Bit, true, None),
                    ],
                ),
                true,
                None,
            ),
        ],
    );

    assert_eq!(
        rec.split().0.unwrap(),
        Type::record(
            "test",
            vec![
                Field::new(
                    "fa",
                    Type::record("ra", vec![Field::new("fc", Type::Bit, false, None)]),
                    false,
                    None,
                ),
                Field::new(
                    "fb",
                    Type::record("rb", vec![Field::new("ff", Type::Bit, false, None)]),
                    false,
                    None,
                )
            ]
        )
    );

    assert_eq!(
        rec.split().1.unwrap(),
        Type::record(
            "test",
            vec![
                Field::new(
                    "fa",
                    Type::record("ra", vec![Field::new("fd", Type::Bit, false, None)]),
                    false,
                    None,
                ),
                Field::new(
                    "fb",
                    Type::record("rb", vec![Field::new("fe", Type::Bit, false, None)]),
                    false,
                    None,
                )
            ]
        )
    );
}

#[test]
fn split_port() {
    let (dn, up) = Port::new_documented(
        "test",
        Mode::Out,
        Type::record(
            "test",
            vec![
                Field::new("a", Type::Bit, false, None),
                Field::new("b", Type::Bit, true, None),
            ],
        ),
        None,
    )
    .split();

    assert_eq!(
        dn,
        Some(Port::new_documented(
            "test_dn",
            Mode::Out,
            Type::record("test_dn", vec![Field::new("a", Type::Bit, false, None)]),
            None
        ))
    );

    assert_eq!(
        up,
        Some(Port::new_documented(
            "test_up",
            Mode::In,
            Type::record("test_up", vec![Field::new("b", Type::Bit, false, None)]),
            None
        ))
    );
}

#[test]
fn type_conflict_detected() {
    let shape_one = Type::record("clash", vec![Field::new("x", Type::Bit, false, None)]);
    let shape_two = Type::record("clash", vec![Field::new("y", Type::bitvec(2), false, None)]);
    let p = Package {
        identifier: "test".to_string(),
        components: vec![
            Component::new("one", vec![], vec![Port::new("p", Mode::In, shape_one)], None),
            Component::new("two", vec![], vec![Port::new("q", Mode::Out, shape_two)], None),
        ],
    };
    let err = p.declare().unwrap_err();
    assert!(matches!(err, Error::BackEndError(_)));
}

#[test]
fn declare_is_deterministic() {
    let p = Package { identifier: "test".to_string(), components: vec![test_comp()] };
    let first = p.declare().unwrap();
    let second = p.declare().unwrap();
    assert_eq!(first, second);
}

#[test]
fn nested_types_listed() {
    let t = rec_rev_nested("rec");
    let nested = t.list_nested_types();
    assert_eq!(nested.len(), 3);
    assert_eq!(nested[0], rec_rev_nested("rec"));
    assert_eq!(nested[1], rec("rec_a"));
    assert_eq!(nested[2], rec_rev("rec_b"));
}
