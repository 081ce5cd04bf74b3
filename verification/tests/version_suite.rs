//! The condensed version number.

use signalhub::version::get_version_num;

#[test]
fn version_major_minor() {
    assert_eq!(get_version_num("1.2.3"), 12);
    assert_eq!(get_version_num("2.0.1"), 20);
    assert_eq!(get_version_num("10.5"), 105);
}

#[test]
fn version_missing_parts() {
    assert_eq!(get_version_num(""), 0);
    assert_eq!(get_version_num("3"), 30);
    assert_eq!(get_version_num("x.y"), 0);
    assert_eq!(get_version_num("1.x"), 10);
    assert_eq!(get_version_num("x.2"), 2);
}

#[test]
fn version_overflowing_segment_counts_as_zero() {
    assert_eq!(get_version_num("99999999999.1"), 1);
}
