use snippet_render::gutter::{decimal_len, line_number_prefix, push_decimal, push_line_prefix};

#[test]
fn prefix_of_small_numbers_is_padded() {
    assert_eq!(line_number_prefix(0), " 0 ");
    assert_eq!(line_number_prefix(1), " 1 ");
    assert_eq!(line_number_prefix(9), " 9 ");
}

#[test]
fn prefix_of_wide_numbers_is_not_padded() {
    assert_eq!(line_number_prefix(10), "10 ");
    assert_eq!(line_number_prefix(99), "99 ");
    assert_eq!(line_number_prefix(100), "100 ");
    assert_eq!(line_number_prefix(12345), "12345 ");
}

#[test]
fn prefix_matches_the_standard_formatting() {
    let numbers: Vec<usize> = vec![0, 5, 9, 10, 11, 42, 99, 100, 101, 999, 1000, 65535, usize::MAX];
    for n in numbers {
        assert_eq!(line_number_prefix(n), format!("{: >2} ", n));
    }
}

#[test]
fn push_line_prefix_appends() {
    let mut out = String::from("x\n");
    push_line_prefix(&mut out, 7);
    assert_eq!(out, "x\n 7 ");
    push_line_prefix(&mut out, 70);
    assert_eq!(out, "x\n 7 70 ");
}

#[test]
fn decimal_is_written_without_leading_zeros() {
    let mut out = String::new();
    push_decimal(&mut out, 0);
    assert_eq!(out, "0");
    let mut out = String::new();
    push_decimal(&mut out, 1002003);
    assert_eq!(out, "1002003");
    let mut out = String::new();
    push_decimal(&mut out, usize::MAX);
    assert_eq!(out, usize::MAX.to_string());
}

#[test]
fn decimal_len_counts_digits() {
    assert_eq!(decimal_len(0), 1);
    assert_eq!(decimal_len(9), 1);
    assert_eq!(decimal_len(10), 2);
    assert_eq!(decimal_len(99), 2);
    assert_eq!(decimal_len(100), 3);
    assert_eq!(decimal_len(usize::MAX), usize::MAX.to_string().len());
}

#[test]
fn numbers_are_read_back_from_their_prefix() {
    let mut n: usize = 0;
    while n < 250 {
        let prefix = line_number_prefix(n);
        assert!(prefix.ends_with(' '));
        assert_eq!(prefix.trim().parse::<usize>().unwrap(), n);
        n += 1;
    }
}
