use zpl_gen_for_library::sorter::NaturalSort;

fn sorted(names: &[&str]) -> Vec<String> {
    let mut names: Vec<String> = names.iter().map(|name| String::from(*name)).collect();
    names.natural_sort();
    names
}

#[test]
fn files_sort_by_their_numbers() {
    assert_eq!(
        sorted(&["file10", "file2", "file1", "file20", "file3"]),
        vec!["file1", "file2", "file3", "file10", "file20"]
    );
}

#[test]
fn output_files_sort_by_their_first_bound() {
    assert_eq!(
        sorted(&[
            "/out/Output file 101-120.zpl",
            "/out/Output file 21-40.zpl",
            "/out/Output file 1-20.zpl",
            "/out/Output file 41-60.zpl",
        ]),
        vec![
            "/out/Output file 1-20.zpl",
            "/out/Output file 21-40.zpl",
            "/out/Output file 41-60.zpl",
            "/out/Output file 101-120.zpl",
        ]
    );
}

#[test]
fn slices_of_borrowed_names_sort_too() {
    let mut names = vec!["b2", "a10", "a9", "b1"];
    names.natural_sort();
    assert_eq!(names, vec!["a9", "a10", "b1", "b2"]);
    let mut part = ["x3", "x1", "x2"];
    part[..].natural_sort();
    assert_eq!(part, ["x1", "x2", "x3"]);
}

#[test]
fn a_part_of_a_list_sorts_alone() {
    let mut names: Vec<String> = ["z9", "c", "b", "a", "z0"].iter().map(|n| n.to_string()).collect();
    names[1..4].natural_sort();
    assert_eq!(names, vec!["z9", "a", "b", "c", "z0"]);
}

#[test]
fn empty_and_single_lists_stay() {
    assert_eq!(sorted(&[]), Vec::<String>::new());
    assert_eq!(sorted(&["only"]), vec!["only"]);
}

#[test]
fn names_that_are_equal_keep_their_order() {
    assert_eq!(
        sorted(&["a01", "a1", "a001", "a0", "a2"]),
        vec!["a0", "a01", "a1", "a001", "a2"]
    );
}

#[test]
fn names_that_do_not_compare_stay_where_they_are() {
    assert_eq!(sorted(&["b", "1", "a"]), vec!["b", "1", "a"]);
    assert_eq!(sorted(&["2", "a", "1"]), vec!["2", "a", "1"]);
    assert_eq!(sorted(&["b", "a", "1"]), vec!["a", "b", "1"]);
}

#[test]
fn names_with_foreign_digits_stay_where_they_are() {
    assert_eq!(sorted(&["b", "٣", "a"]), vec!["b", "٣", "a"]);
    assert_eq!(sorted(&["c", "b", "x٣", "a"]), vec!["b", "c", "x٣", "a"]);
}

#[test]
fn sorting_agrees_with_a_stable_sort_where_all_names_compare() {
    let mut state: u64 = 0x9e37_79b9_7f4a_7c15;
    let mut names: Vec<String> = Vec::new();
    for _ in 0..200 {
        state ^= state << 13;
        state ^= state >> 7;
        state ^= state << 17;
        let letters = ["a", "ab", "b"][(state % 3) as usize];
        let number = (state >> 8) % 30;
        let zeros = ["", "0", "00"][((state >> 20) % 3) as usize];
        names.push(format!("{letters}{zeros}{number}.zpl"));
    }
    let mut expected = names.clone();
    expected.sort_by(|a, b| {
        let key = |name: &str| {
            let letters: String = name.chars().take_while(|c| !c.is_ascii_digit()).collect();
            let number: u64 = name[letters.len()..name.len() - 4].parse().unwrap();
            (letters, number)
        };
        key(a).cmp(&key(b))
    });
    names.natural_sort();
    assert_eq!(names, expected);
}
