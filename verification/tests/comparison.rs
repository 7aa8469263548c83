use vercmp::Cmp;
use vercmp::compare_version;

#[test]
fn mayor_test() {
    let version = "3.0.0";
    let mut test_ret = false;
    if version > "0.0.1" {
        test_ret = true;
    }

    assert_eq!(true, test_ret);
}

#[test]
fn minor_test() {
    let version = "3.0.0";
    let mut test_ret = false;
    if version < "3.0.1" {
        test_ret = true;
    }

    assert_eq!(true, test_ret);
}

#[test]
fn equal_test() {
    let version = "3.0.0";
    let mut test_ret = false;
    if version == "3.0.0" {
        test_ret = true;
    }

    assert_eq!(true, test_ret);
}

#[test]
fn test_eq() {
    assert!(compare_version("0.1.0", Cmp::Eq, "0.1.0"));
}

#[test]
fn test_ge() {
    assert!(compare_version("0.1.1", Cmp::Ge, "0.1.0"));
}

#[test]
fn test_le() {
    assert!(compare_version("0.0.9", Cmp::Le, "0.1.0"));
}

#[test]
fn test_ne() {
    assert!(compare_version("1.0.0", Cmp::Ne, "0.1.0"));
}

#[test]
fn test_lt() {
    assert!(compare_version("0.0.9", Cmp::Lt, "0.1.0"));
}

#[test]
fn test_gt() {
    assert!(compare_version("0.1.9", Cmp::Gt, "0.1.0"));
}

#[test]
fn test_gt2() {
    assert!(compare_version("0.6", Cmp::Gt, "0.1"));
}

#[test]
fn lexicographic_not_numeric() {
    assert!(!compare_version("0.10", Cmp::Gt, "0.9"));
    assert!(compare_version("0.10", Cmp::Lt, "0.9"));
}

#[test]
fn comparison_agrees_with_rust_string_order() {
    let pairs = [("0.1.0", "0.1.0"), ("0.10", "0.9"), ("1.0.0", "0.1.0"), ("", "a"), ("abc", "abc")];
    for (a, b) in pairs {
        assert_eq!(compare_version(a, Cmp::Eq, b), a == b);
        assert_eq!(compare_version(a, Cmp::Ne, b), a != b);
        assert_eq!(compare_version(a, Cmp::Lt, b), a < b);
        assert_eq!(compare_version(a, Cmp::Le, b), a <= b);
        assert_eq!(compare_version(a, Cmp::Ge, b), a >= b);
        assert_eq!(compare_version(a, Cmp::Gt, b), a > b);
    }
}

#[test]
fn malformed_strings_are_compared_as_given() {
    assert!(compare_version("abc", Cmp::Eq, "abc"));
    assert!(compare_version("", Cmp::Lt, "a"));
    assert!(compare_version("", Cmp::Eq, ""));
}

#[test]
fn equal_strings_are_not_strictly_ordered() {
    assert!(!compare_version("1.0", Cmp::Lt, "1.0"));
    assert!(!compare_version("1.0", Cmp::Gt, "1.0"));
    assert!(compare_version("1.0", Cmp::Le, "1.0"));
    assert!(compare_version("1.0", Cmp::Ge, "1.0"));
}

#[test]
fn prefix_comes_first() {
    assert!(compare_version("0.1", Cmp::Lt, "0.1.0"));
    assert!(compare_version("0.1.0", Cmp::Gt, "0.1"));
}

#[test]
fn non_ascii_code_point_order() {
    assert!(compare_version("a", Cmp::Lt, "\u{03b2}"));
    assert!(compare_version("\u{03b2}", Cmp::Ge, "a"));
}

#[test]
fn lt_complements_ge() {
    let pairs = [("a", "b"), ("0.10", "0.9"), ("1", "1"), ("3.0.0", "0.0.1"), ("0.6", "0.1")];
    for (a, b) in pairs {
        assert_eq!(compare_version(a, Cmp::Lt, b), !compare_version(a, Cmp::Ge, b));
        assert_eq!(compare_version(b, Cmp::Lt, a), !compare_version(b, Cmp::Ge, a));
    }
}
