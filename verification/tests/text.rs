use pswd::text::{chars_of, decimal_text, parse_number, repeat, same, split, to_ascii_lower};

#[test]
fn numbers_are_written_and_read() {
    for n in [0usize, 1, 9, 10, 99, 100, 12345, usize::MAX] {
        assert_eq!(decimal_text(n), n.to_string());
        assert_eq!(parse_number(&decimal_text(n)), Some(n));
    }
}

#[test]
fn numbers_are_read_as_the_standard_library_reads_them() {
    for s in ["", "+", "-1", "+7", "007", " 1", "1 ", "1a", "٣", "18446744073709551616", "99999999999999999999999"] {
        assert_eq!(parse_number(s), s.parse::<usize>().ok(), "{s}");
    }
}

#[test]
fn splitting_keeps_empty_pieces() {
    assert_eq!(split("a.b..c", '.'), vec!["a", "b", "", "c"]);
    assert_eq!(split("", '.'), vec![""]);
    assert_eq!(split(".", '.'), vec!["", ""]);
    assert_eq!(split("微.信", '.').join("."), "微.信");
}

#[test]
fn small_helpers() {
    assert_eq!(repeat("•", 3), "•••");
    assert_eq!(repeat("ab", 0), "");
    assert!(same("微信", "微信"));
    assert!(!same("a", "b"));
    assert_eq!(to_ascii_lower("ÀbC-微"), "Àbc-微");
    assert_eq!(chars_of("a微"), vec!['a', '微']);
}
