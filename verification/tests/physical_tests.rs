//! The physical layer: complexity levels, field maps, physical streams and
//! their signal lists.

use tydi::physical::{Complexity, Fields, PhysicalStream, Signal, SignalList, Origin, Width};
use tydi::{BitCount, Error, PathName, Positive};

fn path(s: &str) -> PathName {
    PathName::try_from_str(s).unwrap()
}

#[test]
fn complexity() {
    let empty = Complexity::new(vec![]);
    assert_eq!(
        empty.unwrap_err().message(),
        "Invalid argument: complexity level cannot be empty"
    );

    let c = Complexity::new_major(0);
    let c3 = Complexity::new_major(3);
    let c30 = Complexity::new(vec![3, 0]).unwrap();
    let c31 = Complexity::new(vec![3, 1]).unwrap();
    let c311 = Complexity::new(vec![3, 1, 1]).unwrap();
    let c32 = Complexity::new(vec![3, 2]).unwrap();
    let c4 = Complexity::new_major(4);
    let c400 = Complexity::new(vec![4, 0, 0]).unwrap();
    let c401 = Complexity::new(vec![4, 0, 1]).unwrap();
    assert!(c < c3);
    assert!(c3 < c31);
    assert!(!(c3 < c30));
    assert!(!(c3 > c30));
    assert_eq!(c3, c30);
    assert!(c31 < c311);
    assert!(c311 < c32);
    assert!(c32 < c4);
    assert_eq!(c4, c400);
    assert_eq!(c400, c4);
    assert!(!(c400 > c4));
    assert!(!(c400 < c4));
    assert!(c400 < c401);
    assert!(c4 < c401);
    assert_eq!(c3, Complexity::new_major(3));
    assert_eq!(c401, Complexity::new(vec![4, 0, 1]).unwrap());

    assert_eq!(c3.version_string(), "3");
    assert_eq!(c31.version_string(), "3.1");

    assert_eq!(c3.major(), 3);
    assert_eq!(c31.major(), 3);
    assert_eq!(c4.major(), 4);

    assert_eq!(c4.level(), &vec![4u32]);
    assert_eq!(c400.level(), &vec![4u32, 0, 0]);
}

#[test]
fn physical_stream() {
    let physical_stream = PhysicalStream::new(
        Fields::new(vec![
            (path("a"), BitCount::new(8).unwrap()),
            (path("b"), BitCount::new(16).unwrap()),
            (path("c"), BitCount::new(1).unwrap()),
        ])
        .unwrap(),
        Positive::new(3).unwrap(),
        4,
        Complexity::new_major(8),
        Fields::new(vec![(path("user"), BitCount::new(1).unwrap())]).unwrap(),
    );

    let element = physical_stream.element_fields().to_vec();
    assert_eq!(element[0], (path("a"), BitCount::new(8).unwrap()));
    assert_eq!(element[1], (path("b"), BitCount::new(16).unwrap()));
    assert_eq!(element[2], (path("c"), BitCount::new(1).unwrap()));
    assert_eq!(element.len(), 3);
    assert_eq!(physical_stream.element_lanes(), Positive::new(3).unwrap());
    assert_eq!(physical_stream.dimensionality(), 4);
    assert_eq!(physical_stream.complexity(), &Complexity::new_major(8));
    assert_eq!(
        physical_stream.user().to_vec()[0],
        (path("user"), BitCount::new(1).unwrap())
    );
    assert_eq!(physical_stream.bit_count(), 87);
    assert_eq!(physical_stream.data_bit_count(), (8 + 16 + 1) * 3);
    assert_eq!(physical_stream.last_bit_count(), 4);
    assert_eq!(physical_stream.stai_bit_count(), 2);
    assert_eq!(physical_stream.endi_bit_count(), 2);
    assert_eq!(physical_stream.strb_bit_count(), 3);
    assert_eq!(physical_stream.user_bit_count(), 1);
    assert_eq!(
        physical_stream.signal_list(),
        SignalList {
            data: Some(75),
            last: Some(4),
            stai: Some(2),
            endi: Some(2),
            strb: Some(3),
            user: Some(1)
        }
    );

    let physical_stream = PhysicalStream::new(
        Fields::new(vec![(path("a"), BitCount::new(8).unwrap())]).unwrap(),
        Positive::new(1).unwrap(),
        0,
        Complexity::new_major(0),
        Fields::new(vec![]).unwrap(),
    );

    assert_eq!(physical_stream.element_fields().to_vec().len(), 1);
    assert_eq!(physical_stream.element_lanes(), Positive::new(1).unwrap());
    assert_eq!(physical_stream.dimensionality(), 0);
    assert_eq!(physical_stream.complexity(), &Complexity::new_major(0));
    assert_eq!(physical_stream.user().to_vec().len(), 0);
    assert_eq!(physical_stream.bit_count(), 8);
    assert_eq!(physical_stream.data_bit_count(), 8);
    assert_eq!(physical_stream.last_bit_count(), 0);
    assert_eq!(physical_stream.stai_bit_count(), 0);
    assert_eq!(physical_stream.endi_bit_count(), 0);
    assert_eq!(physical_stream.strb_bit_count(), 0);
    assert_eq!(physical_stream.user_bit_count(), 0);
    assert_eq!(
        physical_stream.signal_list(),
        SignalList {
            data: Some(8),
            last: None,
            stai: None,
            endi: None,
            strb: None,
            user: None
        }
    );
}

#[test]
fn signal_list() {
    let physical_stream = PhysicalStream::new(
        Fields::new(vec![
            (path("a"), BitCount::new(3).unwrap()),
            (path("b"), BitCount::new(2).unwrap()),
        ])
        .unwrap(),
        Positive::new(2).unwrap(),
        3,
        Complexity::new_major(8),
        Fields::new(vec![]).unwrap(),
    );

    let signal_list = physical_stream.signal_list();
    assert_eq!(physical_stream.bit_count(), 17);
    assert_eq!(physical_stream.data_bit_count(), 2 * (3 + 2));
    assert_eq!(physical_stream.last_bit_count(), 3);
    assert_eq!(physical_stream.stai_bit_count(), 1);
    assert_eq!(physical_stream.endi_bit_count(), 1);
    assert_eq!(physical_stream.strb_bit_count(), 2);
    assert_eq!(physical_stream.user_bit_count(), 0);

    assert_eq!(
        Width::Vector(physical_stream.data_bit_count()),
        signal_list.data().unwrap().width()
    );
    assert_eq!(
        Width::Vector(physical_stream.last_bit_count()),
        signal_list.last().unwrap().width()
    );
    assert_eq!(
        Width::Vector(physical_stream.stai_bit_count()),
        signal_list.stai().unwrap().width()
    );
    assert_eq!(
        Width::Vector(physical_stream.endi_bit_count()),
        signal_list.endi().unwrap().width()
    );
    assert_eq!(
        Width::Vector(physical_stream.strb_bit_count()),
        signal_list.strb().unwrap().width()
    );
    assert_eq!(
        Width::Vector(physical_stream.user_bit_count()),
        Width::Vector(0)
    );

    assert_eq!(signal_list.opt_bit_count(), Some(17));
    assert_eq!(signal_list.bit_count(), 17);
    assert_eq!(signal_list, physical_stream.signal_list());

    assert_eq!(
        signal_list.to_vec(),
        vec![
            Signal::bit("valid", Origin::Source),
            Signal::bit("ready", Origin::Sink),
            Signal::opt_vec("data", Origin::Source, Some(10)).unwrap(),
            Signal::opt_vec("last", Origin::Source, Some(3)).unwrap(),
            Signal::opt_vec("stai", Origin::Source, Some(1)).unwrap(),
            Signal::opt_vec("endi", Origin::Source, Some(1)).unwrap(),
            Signal::opt_vec("strb", Origin::Source, Some(2)).unwrap(),
        ]
    );
}

#[test]
fn stream_round_trip_widths() {
    let stream =
        PhysicalStream::try_new(vec![("a", 4), ("b", 8)], 2, 0, Complexity::new_major(2), vec![])
            .unwrap();
    assert_eq!(stream.signal_list().bit_count(), 24);

    let raised =
        PhysicalStream::try_new(vec![("a", 4), ("b", 8)], 2, 0, Complexity::new_major(8), vec![])
            .unwrap();
    assert_eq!(raised.signal_list().bit_count(), 28);
    assert_eq!(raised.stai_bit_count(), 1);
    assert_eq!(raised.endi_bit_count(), 1);
    assert_eq!(raised.strb_bit_count(), 2);
}

#[test]
fn width_conservation() {
    let stream = PhysicalStream::try_new(
        vec![("x", 7), ("y", 9)],
        3,
        2,
        Complexity::new_major(7),
        vec![("u", 5)],
    )
    .unwrap();
    assert_eq!(
        stream.bit_count(),
        stream.data_bit_count()
            + stream.last_bit_count()
            + stream.stai_bit_count()
            + stream.endi_bit_count()
            + stream.strb_bit_count()
            + stream.user_bit_count()
    );
}

#[test]
fn duplicate_field_rejected() {
    let err = Fields::new(vec![
        (path("a"), BitCount::new(3).unwrap()),
        (path("a"), BitCount::new(2).unwrap()),
    ])
    .unwrap_err();
    assert_eq!(err, Error::UnexpectedDuplicate);
}

#[test]
fn zero_width_rejected() {
    let err =
        PhysicalStream::try_new(vec![("a", 0)], 1, 0, Complexity::new_major(1), vec![]).unwrap_err();
    assert!(matches!(err, Error::InvalidArgument(_)));
    let err =
        PhysicalStream::try_new(vec![("a", 1)], 0, 0, Complexity::new_major(1), vec![]).unwrap_err();
    assert!(matches!(err, Error::InvalidArgument(_)));
}

#[test]
fn complexity_parsing() {
    assert_eq!(
        Complexity::from_str("3.14").unwrap(),
        Complexity::new(vec![3, 14]).unwrap()
    );
    assert_eq!(Complexity::from_str("7").unwrap(), Complexity::new_major(7));
    assert_eq!(
        Complexity::from_str("4.0.0").unwrap(),
        Complexity::new(vec![4, 0, 0]).unwrap()
    );
    assert!(matches!(Complexity::from_str(""), Err(Error::InvalidArgument(_))));
    assert!(matches!(Complexity::from_str("3..1"), Err(Error::InvalidArgument(_))));
    assert!(matches!(Complexity::from_str("a.1"), Err(Error::InvalidArgument(_))));
    assert!(matches!(Complexity::from_str("3."), Err(Error::InvalidArgument(_))));
    assert!(matches!(
        Complexity::from_str("4294967296"),
        Err(Error::InvalidArgument(_))
    ));
}
