//! The shared helpers: identifier joining, logarithms and name rules.

use tydi::util::{cat, cat3, log2_ceil, u32_string, i32_string};
use tydi::{Name, Positive};

#[test]
fn test_cat() {
    assert_eq!(cat("ok", ""), "ok");
    assert_eq!(cat("ok", "tydi"), "ok_tydi");
    assert_eq!(cat3("ok", "tydi", ""), "ok_tydi");
    assert_eq!(cat("", ""), "");
}

#[test]
fn log2_ceil_values() {
    assert_eq!(log2_ceil(Positive::new(1).unwrap()), 0);
    assert_eq!(log2_ceil(Positive::new(2).unwrap()), 1);
    assert_eq!(log2_ceil(Positive::new(3).unwrap()), 2);
    assert_eq!(log2_ceil(Positive::new(8).unwrap()), 3);
    assert_eq!(log2_ceil(Positive::new(9).unwrap()), 4);
}

#[test]
fn decimal_strings() {
    assert_eq!(u32_string(0), "0");
    assert_eq!(u32_string(1337), "1337");
    assert_eq!(i32_string(-42), "-42");
}

#[test]
fn name_rules() {
    assert!(Name::try_new("good_name1").is_ok());
    assert!(Name::try_new("").is_err());
    assert!(Name::try_new("1bad").is_err());
    assert!(Name::try_new("_bad").is_err());
    assert!(Name::try_new("bad_").is_err());
    assert!(Name::try_new("ba__d").is_err());
    assert!(Name::try_new("b-d").is_err());
}
