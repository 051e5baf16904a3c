use std::cmp::Ordering;
use zpl_gen_for_library::sorter::natural::{
    compare_bytes, compare_elements, only_digits, HumanString, Order, NUMBERS,
};
use zpl_gen_for_library::sorter::sorting::sorter;

#[test]
fn numbers_compare_by_value_not_by_figures() {
    assert_eq!(sorter("file2", "file10"), Some(Ordering::Less));
    assert_eq!(sorter("file10", "file2"), Some(Ordering::Greater));
    assert_eq!(sorter("file10", "file10"), Some(Ordering::Equal));
    assert_eq!(sorter("9", "10"), Some(Ordering::Less));
}

#[test]
fn leading_zeros_count_for_nothing() {
    assert_eq!(sorter("a1", "a01"), Some(Ordering::Equal));
    assert_eq!(sorter("a007b", "a7b"), Some(Ordering::Equal));
    assert_eq!(sorter("a007b", "a8b"), Some(Ordering::Less));
    assert_eq!(sorter("0", "000"), Some(Ordering::Equal));
}

#[test]
fn numbers_may_be_longer_than_any_machine_word() {
    assert_eq!(
        sorter("a99999999999999999999999999999", "a100000000000000000000000000000"),
        Some(Ordering::Less)
    );
    assert_eq!(
        sorter("340282366920938463463374607431768211456", "340282366920938463463374607431768211455"),
        Some(Ordering::Greater)
    );
    assert_eq!(
        sorter("18446744073709551616x", "018446744073709551616x"),
        Some(Ordering::Equal)
    );
}

#[test]
fn letters_compare_byte_by_byte() {
    assert_eq!(sorter("abc", "abd"), Some(Ordering::Less));
    assert_eq!(sorter("abd", "abc"), Some(Ordering::Greater));
    assert_eq!(sorter("abc", "abc"), Some(Ordering::Equal));
    assert_eq!(sorter("ab", "abc"), Some(Ordering::Less));
    assert_eq!(sorter("B", "a"), Some(Ordering::Less));
    assert_eq!(sorter("z", "é"), Some(Ordering::Less));
    assert_eq!(sorter("é", "e"), Some(Ordering::Greater));
}

#[test]
fn the_first_run_that_differs_decides() {
    assert_eq!(sorter("a1b2", "a1b3"), Some(Ordering::Less));
    assert_eq!(sorter("a1c2", "a1b3"), Some(Ordering::Greater));
    assert_eq!(sorter("a2b1", "a10b0"), Some(Ordering::Less));
    assert_eq!(sorter("Output file 21-25.zpl", "Output file 1-20.zpl"), Some(Ordering::Greater));
    assert_eq!(sorter("Output file 1-20.zpl", "Output file 1-3.zpl"), Some(Ordering::Greater));
}

#[test]
fn the_shorter_of_two_names_that_agree_comes_first() {
    assert_eq!(sorter("a1", "a1b"), Some(Ordering::Less));
    assert_eq!(sorter("a1b", "a1"), Some(Ordering::Greater));
    assert_eq!(sorter("", "a"), Some(Ordering::Less));
    assert_eq!(sorter("a", ""), Some(Ordering::Greater));
    assert_eq!(sorter("", ""), Some(Ordering::Equal));
}

#[test]
fn letters_and_numbers_do_not_compare() {
    assert_eq!(sorter("a1", "1a"), None);
    assert_eq!(sorter("1a", "a1"), None);
    assert_eq!(sorter("x1", "xy"), Some(Ordering::Less));
    assert_eq!(sorter("a1b", "a1 2"), Some(Ordering::Greater));
    assert_eq!(sorter("ab1", "ab"), Some(Ordering::Greater));
    assert_eq!(sorter("a12", "a12b"), Some(Ordering::Less));
    assert_eq!(sorter("7a", "7"), Some(Ordering::Greater));
    assert_eq!(sorter("a7", "a7a7"), Some(Ordering::Less));
    assert_eq!(sorter("a7b7", "a7b"), Some(Ordering::Greater));
    assert_eq!(sorter("a7b", "a7 7"), Some(Ordering::Greater));
    assert_eq!(sorter("a7", "a 7"), Some(Ordering::Less));
    assert_eq!(sorter("12", "ab"), None);
}

#[test]
fn digits_that_are_not_ascii_give_nothing() {
    assert!(HumanString::new("٣").is_none());
    assert!(HumanString::new("file٣").is_none());
    assert!(HumanString::new("file1٣").is_none());
    assert!(HumanString::new("１２").is_none());
    assert_eq!(sorter("file٣", "file3"), None);
    assert_eq!(sorter("file3", "file٣"), None);
}

#[test]
fn names_are_cut_where_digits_begin_and_end() {
    let a = HumanString::new("Output file 1-20.zpl").unwrap();
    let b = HumanString::new("Output file 01-020.zpl").unwrap();
    assert_eq!(a.compare(&b), Some(Order::Equal));
    assert!(a == b);
    assert_eq!(a.partial_cmp(&b), Some(Ordering::Equal));
    let c = HumanString::new("Output file 1-21.zpl").unwrap();
    assert_eq!(a.compare(&c), Some(Order::Less));
    assert_eq!(c.compare(&a), Some(Order::Greater));
    assert!(a < c);
    assert!(a != c);
}

#[test]
fn names_with_other_scripts_are_cut_at_whole_characters() {
    let a = HumanString::new("größe12übung").unwrap();
    let b = HumanString::new("größe3übung").unwrap();
    assert_eq!(a.compare(&b), Some(Order::Greater));
    let c = HumanString::new("日本語7").unwrap();
    let d = HumanString::new("日本語10").unwrap();
    assert_eq!(c.compare(&d), Some(Order::Less));
}

#[test]
fn a_name_is_cut_at_the_given_places() {
    let a = HumanString::cut("ab12cd345", &[(2, 4), (6, 9)]).unwrap();
    let b = HumanString::new("ab12cd345").unwrap();
    assert_eq!(a.compare(&b), Some(Order::Equal));
    let c = HumanString::cut("ab12cd345", &[(2, 3), (3, 4), (6, 9)]).unwrap();
    let d = HumanString::cut("ab1", &[(2, 3)]).unwrap();
    assert_eq!(c.compare(&d), Some(Order::Greater));
    assert!(HumanString::cut("", &[]).is_some());
    assert!(HumanString::cut("abc", &[]).is_some());
    assert!(HumanString::cut("123", &[(0, 3)]).is_some());
    let e = HumanString::cut("12", &[]).unwrap();
    let f = HumanString::cut("12", &[(0, 2)]).unwrap();
    assert_eq!(e.compare(&f), None);
}

#[test]
fn places_that_do_not_fit_the_name_give_nothing() {
    assert!(HumanString::cut("ab12", &[(2, 5)]).is_none());
    assert!(HumanString::cut("ab12", &[(5, 6)]).is_none());
    assert!(HumanString::cut("ab12", &[(2, 2)]).is_none());
    assert!(HumanString::cut("ab12", &[(3, 2)]).is_none());
    assert!(HumanString::cut("ab12", &[(1, 4)]).is_none());
    assert!(HumanString::cut("12ab34", &[(4, 6), (0, 2)]).is_none());
    assert!(HumanString::cut("12ab34", &[(0, 2), (1, 3)]).is_none());
    assert!(HumanString::cut("", &[(0, 1)]).is_none());
    assert!(HumanString::cut("é1", &[(1, 3)]).is_none());
    assert!(HumanString::cut("1é1", &[(0, 1), (2, 4)]).is_none());
    assert!(HumanString::cut("é1", &[(2, 3)]).is_some());
    assert!(HumanString::cut("٣", &[(0, 2)]).is_none());
}

#[test]
fn one_run_is_read_at_the_front() {
    let (element, rest, number) = HumanString::process_token("12ab", 0, Some((0, 2))).unwrap();
    assert!(number);
    assert!(element.is_number());
    assert_eq!(element.text(), "12");
    assert_eq!(rest, "ab");
    let (element, rest, number) = HumanString::process_token("ab12", 0, Some((2, 4))).unwrap();
    assert!(!number);
    assert!(!element.is_number());
    assert_eq!(element.text(), "ab");
    assert_eq!(rest, "12");
    let (element, rest, number) = HumanString::process_token("ab", 7, None).unwrap();
    assert!(!number);
    assert_eq!(element.text(), "ab");
    assert_eq!(rest, "");
}

#[test]
fn places_count_from_the_start_of_the_name() {
    let (element, rest, number) = HumanString::process_token("12ab", 10, Some((10, 11))).unwrap();
    assert!(number);
    assert_eq!(element.text(), "1");
    assert_eq!(rest, "2ab");
    let (element, rest, number) = HumanString::process_token("ab12", 10, Some((11, 13))).unwrap();
    assert!(!number);
    assert_eq!(element.text(), "a");
    assert_eq!(rest, "b12");
}

#[test]
fn no_run_is_read_without_a_usable_end() {
    assert!(HumanString::process_token("", 0, None).is_none());
    assert!(HumanString::process_token("12ab", 0, Some((0, 0))).is_none());
    assert!(HumanString::process_token("12ab", 0, Some((0, 5))).is_none());
    assert!(HumanString::process_token("12ab", 3, Some((2, 4))).is_none());
    assert!(HumanString::process_token("ab12", 0, Some((5, 6))).is_none());
    assert!(HumanString::process_token("é1", 0, Some((1, 2))).is_none());
    assert!(HumanString::process_token("é1", 0, Some((2, 3))).is_some());
    assert!(HumanString::process_token("12ab", 0, Some((0, usize::MAX))).is_none());
    assert!(HumanString::process_token("12ab", usize::MAX, Some((0, 1))).is_none());
}

#[test]
fn a_run_of_digits_must_be_ascii_digits() {
    assert!(HumanString::process_number(2, "1a").is_none());
    assert!(HumanString::process_number(2, "٣").is_none());
    assert!(HumanString::process_number(3, "+12").is_none());
    assert!(HumanString::process_number(1, "1a").is_some());
    assert!(HumanString::process_number(0, "1a").is_none());
    assert!(HumanString::process_letters(2, "1a").is_some());
    assert!(HumanString::process_letters(3, "1a").is_none());
}

#[test]
fn runs_compare_with_runs_of_their_kind() {
    let (two, _) = HumanString::process_number(1, "2").unwrap();
    let (ten, _) = HumanString::process_number(2, "10").unwrap();
    let (letters, _) = HumanString::process_letters(2, "10").unwrap();
    let (more, _) = HumanString::process_letters(1, "2").unwrap();
    assert_eq!(compare_elements(&two, &ten), Some(Order::Less));
    assert_eq!(compare_elements(&ten, &two), Some(Order::Greater));
    assert_eq!(compare_elements(&ten, &ten), Some(Order::Equal));
    assert_eq!(compare_elements(&more, &letters), Some(Order::Greater));
    assert_eq!(compare_elements(&letters, &more), Some(Order::Less));
    assert_eq!(compare_elements(&ten, &letters), None);
    assert_eq!(compare_elements(&letters, &ten), None);
}

#[test]
fn bytes_compare_like_slices() {
    let samples: [&[u8]; 8] = [b"", b"a", b"ab", b"b", b"abc", b"abd", &[0xff], &[0x00]];
    for a in samples {
        for b in samples {
            let expected = match a.cmp(b) {
                Ordering::Less => Order::Less,
                Ordering::Equal => Order::Equal,
                Ordering::Greater => Order::Greater,
            };
            assert_eq!(compare_bytes(a, b), expected);
        }
    }
}

#[test]
fn only_digits_tells_digits() {
    assert!(only_digits(b"0123456789"));
    assert!(only_digits(b""));
    assert!(!only_digits(b"12a"));
    assert!(!only_digits(b"/"));
    assert!(!only_digits(b":"));
}

#[test]
fn the_pattern_is_a_run_of_digits() {
    assert_eq!(NUMBERS, r"\d+");
}
