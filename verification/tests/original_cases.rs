use std::mem::size_of;

use website::access_control::trimcheck::InputCheckFailureKind;
use website::ahtml::allocator::{AId, Node, RegionId};
use website::ahtml::more_vec::{usize_range_len, MoreVec, UsizeRange};
use website::ahtml::print::BOM;
use website::ahtml::strutil::find_from;
use website::auri::path::{base_and_suffix, extension_eq, suffix};
use website::chj_util::u24::U24;
use website::conslist::{cons, List};
use website::handler::canonicalize_path;

#[test]
fn t_system_at_least_32bits() {
    // `n as usize` is used with u32 values n; make sure this is OK.
    let n: u32 = u32::MAX;
    let _x: usize = n.try_into().expect("system has at least 32 bits");
}

#[test]
fn t_file_encoding() {
    assert_eq!(BOM.as_bytes(), &[0xEF, 0xBB, 0xBF]);
}

fn identity<T>(v: T) -> T {
    v
}

#[test]
fn t_usize_range_len() {
    assert_eq!(usize_range_len(&identity(UsizeRange::range(1, 4)), 10), 3);
    assert_eq!(usize_range_len(&identity(UsizeRange::range_inclusive(1, 4)), 10), 4);
    assert_eq!(usize_range_len(&identity(UsizeRange::range_from(1)), 10), 9);
    assert_eq!(usize_range_len(&identity(UsizeRange::full()), 10), 10);
    assert_eq!(usize_range_len(&identity(UsizeRange::range_to(4)), 10), 4);
    assert_eq!(usize_range_len(&identity(UsizeRange::range_to_inclusive(4)), 10), 5);
    assert_eq!(usize_range_len(&identity(UsizeRange::range(4, 4)), 10), 0);
    assert_eq!(usize_range_len(&identity(UsizeRange::range_inclusive(4, 4)), 10), 1);
    // an explicit end beyond `end_excl` is taken as it is
    assert_eq!(usize_range_len(&identity(UsizeRange::range_to(4)), 2), 4);
}

#[test]
fn t_find_from() {
    assert_eq!(find_from("hello world", 0, "World"), None);
    assert_eq!(find_from("hello world", 0, "world"), Some(6));
    assert_eq!(find_from("hello world", 5, "world"), Some(6));
    assert_eq!(find_from("hello world", 6, "world"), Some(6));
    assert_eq!(find_from("hello world", 7, "world"), None);
    assert_eq!(find_from("hello world in many worlds", 3, "world"), Some(6));
    assert_eq!(find_from("hello world in many worlds", 7, "world"), Some(20));
}

#[test]
fn path_t_suffix() {
    assert_eq!(suffix("foo"), None);
    assert_eq!(suffix("foo.md"), Some("md"));
    assert_eq!(suffix("foo."), Some(""));
    assert_eq!(suffix("foo. md"), None);
    assert_eq!(suffix("foo.md/bar"), None);
    assert_eq!(suffix("foo.md/"), None);
    assert_eq!(suffix("foo.mäd"), None);
}

#[test]
fn t_base_and_suffix() {
    assert_eq!(base_and_suffix("foo"), None);
    assert_eq!(base_and_suffix("bar.md"), Some(("bar", "md")));
    assert_eq!(base_and_suffix("foo.md/bar"), None);
    assert_eq!(base_and_suffix("foo.md/bar.md"), Some(("foo.md/bar", "md")));
}

fn extension_case(p: &str, r: Option<&str>) {
    if let Some(r) = r {
        assert!(extension_eq(p, r));
    } else {
        assert!(!extension_eq(p, ""));
    }
}

#[test]
fn extension_eq_t_suffix() {
    extension_case("foo", None);
    extension_case("foo.md", Some("md"));
    extension_case("foo.", Some(""));
    extension_case("foo. md", None);
    extension_case("foo.md/bar", None);
    extension_case("foo.md/", None);
    extension_case("foo.mäd", None);
}

#[allow(unused)]
struct T1 {
    a: U24,
}

#[allow(unused)]
struct T2 {
    a: U24,
    b: u8,
}

#[allow(unused)]
struct T3 {
    a: bool,
    b: U24,
}

#[test]
fn t_u24() {
    assert_eq!(size_of::<U24>(), 3);
}

#[test]
fn t_t1() {
    assert_eq!(size_of::<T1>(), 3);
}

#[test]
fn t_t2() {
    assert_eq!(size_of::<T2>(), 4);
}

#[test]
fn t_t3() {
    assert_eq!(size_of::<T3>(), 4);
}

#[test]
fn t_result_size() {
    if size_of::<usize>() == 8 {
        // 2 str, <2 range, tag in range
        assert_eq!(size_of::<InputCheckFailureKind>(), 4 * 8);
    }
}

#[test]
fn conslist_t_() {
    let a = List::Pair(5, &List::Null);
    let b = List::Pair(7, &a);
    let c = List::Pair(9, &b);
    let d = cons(13, &b);
    let e = cons(14, &c);
    assert_eq!(List::Null::<i8>.as_ref_vec(), Vec::<&i8>::new());
    assert_eq!(a.to_vec(), vec![5]);
    assert_eq!(b.as_ref_vec(), vec![&7, &5]);
    assert_eq!(c.rest().unwrap().to_vec(), vec![7, 5]);
    assert_eq!(c.to_vec(), vec![9, 7, 5]);
    assert_eq!(d.to_vec(), vec![13, 7, 5]);
    assert_eq!(e.to_vec(), vec![14, 9, 7, 5]);
}

#[test]
fn t_canonicalize_path() {
    assert_eq!(canonicalize_path::<&str>(&[]), Some(vec![]));
    assert_eq!(canonicalize_path(&["a", "b"]), Some(vec!["a", "b"]));
    assert_eq!(canonicalize_path(&[".", "a", ".", "b", ".", ".."]), Some(vec!["a"]));
    assert_eq!(canonicalize_path(&["a", "..", "b"]), Some(vec!["b"]));
    assert_eq!(canonicalize_path(&["a", "..", "b", ".."]), Some(vec![]));
    assert_eq!(canonicalize_path(&["a", "..", ".", ".."]), None);
    // /foo.html/. is translated to /foo.html:
    assert_eq!(canonicalize_path(&["a", "foo.html", "."]), Some(vec!["a", "foo.html"]));
    // also /foo/ to /foo
    assert_eq!(canonicalize_path(&["foo", ""]), Some(vec!["foo"]));
    assert_eq!(
        canonicalize_path(&["foo", "", ".", "", "", "a", ".", ""]),
        Some(vec!["foo", "a"])
    );
}

#[test]
fn t_siz() {
    assert_eq!(size_of::<RegionId>(), 4);
    assert_eq!(size_of::<AId<Node>>(), 8);
}

#[test]
fn t_within_capacity() {
    let mut v = Vec::with_capacity(5);
    v.push_within_capacity_(9).unwrap();
    v.push_within_capacity_(7).unwrap();
    v.push_within_capacity_(1).unwrap();

    assert!(v.extend_from_within_within_capacity(UsizeRange::range(0, 3)).is_err());
    assert!(v.extend_from_within_within_capacity(UsizeRange::range(1, 3)).is_ok());
    assert_eq!(v.as_slice(), &[9, 7, 1, 7, 1]);
}
