use zpl_gen_for_library::sorter::rolls::{
    destination, folder_count, roll_file, roll_folder, roll_folders, Destination,
};

#[test]
fn folders_are_named_by_their_number() {
    assert_eq!(roll_folder(1), "Roll 1");
    assert_eq!(roll_folder(12), "Roll 12");
    assert_eq!(roll_file(1), "File 1.zpl");
    assert_eq!(roll_file(250), "File 250.zpl");
}

#[test]
fn folders_are_listed_from_one() {
    assert_eq!(roll_folders(3), vec!["Roll 1", "Roll 2", "Roll 3"]);
    assert!(roll_folders(0).is_empty());
}

#[test]
fn only_full_rolls_get_a_folder() {
    assert_eq!(folder_count(12, 4), 3);
    assert_eq!(folder_count(13, 4), 3);
    assert_eq!(folder_count(3, 4), 0);
    assert_eq!(folder_count(0, 4), 0);
    assert_eq!(folder_count(7, 1), 7);
}

#[test]
fn files_of_a_roll_are_numbered_from_its_end() {
    let places: Vec<Destination> = (0..8).map(|position| destination(8, 4, position)).collect();
    let expected = [(1, 4), (1, 3), (1, 2), (1, 1), (2, 4), (2, 3), (2, 2), (2, 1)];
    for (place, (roll, file)) in places.iter().zip(expected) {
        assert_eq!(*place, Destination { roll, file });
    }
}

#[test]
fn a_short_last_roll_is_numbered_from_its_own_end() {
    let places: Vec<(usize, usize)> = (0..6)
        .map(|position| destination(6, 4, position))
        .map(|place| (place.roll, place.file))
        .collect();
    assert_eq!(places, vec![(1, 4), (1, 3), (1, 2), (1, 1), (2, 2), (2, 1)]);
}

#[test]
fn one_file_to_a_roll() {
    for position in 0..5 {
        assert_eq!(destination(5, 1, position), Destination { roll: position + 1, file: 1 });
    }
}

#[test]
fn places_agree_with_chunks_taken_backwards() {
    for files in 1..40usize {
        for per_roll in 1..9usize {
            let input: Vec<usize> = (0..files).collect();
            let mut seen = std::collections::HashSet::new();
            for (i, chunk) in input.chunks(per_roll).enumerate() {
                for (index, position) in chunk.iter().rev().enumerate() {
                    let place = destination(files, per_roll, *position);
                    assert_eq!((place.roll, place.file), (i + 1, index + 1));
                    assert!(seen.insert((place.roll, place.file)));
                }
            }
        }
    }
}
