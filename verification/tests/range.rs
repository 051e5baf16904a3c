use zpl_gen_for_library::range::{read_serials, RangeSource};

fn all(source: &RangeSource) -> Vec<u32> {
    (0..source.len()).map(|i| source.get(i).unwrap()).collect()
}

#[test]
fn counted_run_counts_up_from_the_first() {
    let source = RangeSource::counted(5000000, 3).unwrap();
    assert_eq!(source.len(), 3);
    assert_eq!(all(&source), vec![5000000, 5000001, 5000002]);
    assert_eq!(source.get(3), None);
}

#[test]
fn counted_run_may_be_empty() {
    let source = RangeSource::counted(5000000, 0).unwrap();
    assert_eq!(source.len(), 0);
    assert_eq!(source.get(0), None);
}

#[test]
fn counted_run_may_end_with_the_greatest_number() {
    let source = RangeSource::counted(u32::MAX - 1, 2).unwrap();
    assert_eq!(all(&source), vec![u32::MAX - 1, u32::MAX]);
    assert!(RangeSource::counted(0, u32::MAX).is_some());
    assert!(RangeSource::counted(1, u32::MAX).is_some());
}

#[test]
fn counted_run_must_fit_in_32_bits() {
    assert!(RangeSource::counted(u32::MAX, 2).is_none());
    assert!(RangeSource::counted(2, u32::MAX).is_none());
    assert!(RangeSource::counted(u32::MAX, u32::MAX).is_none());
}

#[test]
fn endpoints_are_two_documents() {
    let source = RangeSource::endpoints(5000000, 5999999);
    assert_eq!(source.len(), 2);
    assert_eq!(source.get(0), Some(5000000));
    assert_eq!(source.get(1), Some(5999999));
    assert_eq!(source.get(2), None);
}

#[test]
fn endpoints_may_stand_in_any_order() {
    let source = RangeSource::endpoints(9, 3);
    assert_eq!(all(&source), vec![9, 3]);
}

#[test]
fn reprint_passes_over_a_malformed_line() {
    let source = RangeSource::reprint(b"5000001\nabc\n5000003\n");
    assert_eq!(source.len(), 2);
    assert_eq!(source.get(0), Some(5000001));
    assert_eq!(source.get(1), Some(5000003));
}

#[test]
fn reprint_keeps_the_order_of_the_file() {
    assert_eq!(read_serials(b"3\n1\n2\n1\n"), vec![3, 1, 2, 1]);
}

#[test]
fn reprint_takes_a_last_line_without_line_feed() {
    assert_eq!(read_serials(b"1\n2"), vec![1, 2]);
    assert_eq!(read_serials(b"7"), vec![7]);
}

#[test]
fn reprint_takes_both_line_endings() {
    assert_eq!(read_serials(b"1\r\n2\r\n3"), vec![1, 2, 3]);
    assert_eq!(read_serials(b"1\r\n2\n"), vec![1, 2]);
}

#[test]
fn reprint_strips_one_carriage_return_before_a_line_feed_only() {
    assert_eq!(read_serials(b"1\r\r\n2\n"), vec![2]);
    assert_eq!(read_serials(b"1\n2\r"), vec![1]);
    assert_eq!(read_serials(b"1\r2\n"), Vec::<u32>::new());
}

#[test]
fn reprint_passes_over_blank_and_foreign_lines() {
    assert_eq!(read_serials(b""), Vec::<u32>::new());
    assert_eq!(read_serials(b"\n\n\n"), Vec::<u32>::new());
    assert_eq!(read_serials(b"\n\n7\n\n"), vec![7]);
    assert_eq!(read_serials(b" 1\n2 \n-3\n4294967296\n4\n"), vec![4]);
    assert_eq!(read_serials(b"+3\n007\n"), vec![3, 7]);
    assert_eq!(read_serials(&[0xff, 0x0a, 0x35, 0x0a]), vec![5]);
}

#[test]
fn reprint_agrees_with_lines_and_parse() {
    let samples = [
        "5000001\nabc\n5000003\n",
        "1\r\n\r\n2\r",
        "\r\n",
        "\n1",
        "1\n\n",
        "12\r\r\n13",
        "٣\n4\n",
        "1,2\n3;\n4\n",
    ];
    for text in samples {
        let expected: Vec<u32> = text.lines().filter_map(|line| line.parse().ok()).collect();
        assert_eq!(read_serials(text.as_bytes()), expected, "{text:?}");
    }
}
