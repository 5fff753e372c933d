use std::path::Path;
use tdisk::path::{f_name, file_name, target_path};
use tdisk::text::{decimal_string, parse_u64};

#[test]
fn decimal_string_matches_to_string() {
    for n in [0u64, 5, 10, 42, 1000, 1048576, u64::MAX - 1, u64::MAX] {
        assert_eq!(decimal_string(n), n.to_string());
    }
}

#[test]
fn parse_u64_matches_std() {
    let cases = [
        "0", "7", "+7", "007", "1048576", "18446744073709551615", "18446744073709551616",
        "99999999999999999999", "", "+", "-", "-0", "-5", " 5", "5 ", "12a", "a12", "++1",
        "+-1", "١٢", "0x10",
    ];
    for c in cases {
        assert_eq!(parse_u64(c), c.parse::<u64>().ok(), "input {:?}", c);
    }
}

#[test]
fn parse_u64_reads_back_decimal() {
    for n in [0u64, 1, 1024, 1048576, u64::MAX] {
        assert_eq!(parse_u64(&decimal_string(n)), Some(n));
    }
}

#[test]
fn file_name_matches_std_path() {
    let cases = [
        "a/b/c.txt", "c.txt", "/foo/bar/", "foo.txt/.", "foo.txt/.//", "/", "", ".", "..",
        "a/..", "./", "./a", "a//b//", "/a/./", "..a", "...", "a/.b", "./.", "/.", "//",
        "dir/ü.pdf", "a/./b/.", "demo.pdf",
    ];
    for c in cases {
        let expected = Path::new(c).file_name().map(|s| s.to_str().unwrap().to_string());
        assert_eq!(file_name(c), expected, "input {:?}", c);
    }
}

#[test]
fn f_name_takes_last_component() {
    assert_eq!(f_name("/home/user/demo.pdf".to_string()), "demo.pdf");
    assert_eq!(f_name("demo.pdf".to_string()), "demo.pdf");
    assert_eq!(f_name("/backup/2021/".to_string()), "2021");
}

#[test]
fn f_name_is_idempotent() {
    for p in ["a/b/c.txt", "/x/y/", "q", "a/.b/."] {
        let n = f_name(p.to_string());
        assert_eq!(f_name(n.clone()), n);
        assert!(!n.contains('/'));
    }
}

#[test]
fn target_path_prefers_given_destination() {
    assert_eq!(target_path("/docs/a.txt".to_string(), Some("b.txt".to_string())), "b.txt");
    assert_eq!(target_path("/docs/a.txt".to_string(), None), "a.txt");
}
