use std::rc::Rc;

use lils::config::Config;
use lils::files::{EntryType, FileType, FsEntry, Times, Timestamp};
use lils::sorting::{sort, sort_by_sizes, sum_sizes_saturating, SortingMode};

fn times(sec: i64) -> Times {
    Times {
        modified: Timestamp { sec, nsec: 0 },
        created: Timestamp { sec, nsec: 0 },
        access: Timestamp { sec, nsec: 0 },
    }
}

fn entry(name: &str, e_type: EntryType, mtime: i64) -> Rc<FsEntry> {
    Rc::new(FsEntry::new(name, e_type, times(mtime), None, 1000, 1000, 0o644))
}

fn names(v: &Vec<Rc<FsEntry>>) -> Vec<String> {
    v.iter().map(|e| e.name.clone()).collect()
}

#[test]
fn name_sort_is_case_insensitive() {
    let files = vec![
        entry("Banana", EntryType::File(FileType::Text), 1),
        entry("apple", EntryType::File(FileType::Text), 2),
        entry("Cherry", EntryType::File(FileType::Text), 3),
    ];
    let sorted = sort(&files, SortingMode::Name, false);
    assert_eq!(names(&sorted), vec!["apple", "Banana", "Cherry"]);
}

#[test]
fn name_sort_reversed() {
    let files = vec![
        entry("Banana", EntryType::File(FileType::Text), 1),
        entry("apple", EntryType::File(FileType::Text), 2),
        entry("Cherry", EntryType::File(FileType::Text), 3),
    ];
    let sorted = sort(&files, SortingMode::Name, true);
    assert_eq!(names(&sorted), vec!["Cherry", "Banana", "apple"]);
}

#[test]
fn name_sort_equal_keys_keep_input_order() {
    // "AA" and "aa" fold to the same key; the earlier one stays first
    let files = vec![
        entry("aa", EntryType::File(FileType::Text), 1),
        entry("AA", EntryType::File(FileType::Text), 2),
        entry("ab", EntryType::File(FileType::Text), 3),
    ];
    let sorted = sort(&files, SortingMode::Name, false);
    assert_eq!(names(&sorted), vec!["aa", "AA", "ab"]);
}

#[test]
fn time_sort_is_ascending_and_stable() {
    let files = vec![
        entry("c", EntryType::File(FileType::Text), 30),
        entry("a", EntryType::File(FileType::Text), 10),
        entry("b", EntryType::File(FileType::Text), 10),
        entry("d", EntryType::File(FileType::Text), 20),
    ];
    let sorted = sort(&files, SortingMode::Time, false);
    assert_eq!(names(&sorted), vec!["a", "b", "d", "c"]);
}

#[test]
fn size_sort_by_given_sizes_is_descending() {
    let files = vec![
        entry("ten", EntryType::File(FileType::Text), 1),
        entry("five", EntryType::File(FileType::Text), 2),
        entry("twenty", EntryType::File(FileType::Text), 3),
    ];
    let sizes = vec![10u64, 5, 20];
    let sorted = sort_by_sizes(&files, &sizes);
    assert_eq!(names(&sorted), vec!["twenty", "ten", "five"]);
}

#[test]
fn size_sort_reversed_is_ascending() {
    let files = vec![
        entry("ten", EntryType::File(FileType::Text), 1),
        entry("five", EntryType::File(FileType::Text), 2),
        entry("twenty", EntryType::File(FileType::Text), 3),
    ];
    let sizes = vec![10u64, 5, 20];
    let mut sorted = sort_by_sizes(&files, &sizes);
    sorted.reverse();
    assert_eq!(names(&sorted), vec!["five", "ten", "twenty"]);
}

#[test]
fn size_sort_equal_sizes_keep_input_order() {
    // the paths do not exist, so every entry's size reads as zero and the
    // stable descending sort keeps the input order
    let files = vec![
        entry("zz", EntryType::File(FileType::Text), 1),
        entry("mm", EntryType::File(FileType::Text), 2),
        entry("aa", EntryType::File(FileType::Text), 3),
    ];
    let sorted = sort(&files, SortingMode::Size, false);
    assert_eq!(names(&sorted), vec!["zz", "mm", "aa"]);
}

#[test]
fn unsorted_keeps_traversal_order() {
    let files = vec![
        entry("zz", EntryType::File(FileType::Text), 1),
        entry("aa", EntryType::File(FileType::Text), 2),
    ];
    let sorted = sort(&files, SortingMode::Unsorted, false);
    assert_eq!(names(&sorted), vec!["zz", "aa"]);
}

#[test]
fn reverse_composes_with_every_mode() {
    let files = vec![
        entry("Banana", EntryType::File(FileType::Text), 3),
        entry("apple", EntryType::File(FileType::Text), 1),
        entry("Cherry", EntryType::File(FileType::Text), 2),
    ];
    for mode in [SortingMode::Time, SortingMode::Name, SortingMode::Size, SortingMode::Unsorted] {
        let forward = sort(&files, mode, false);
        let mut expected = names(&forward);
        expected.reverse();
        let backward = sort(&files, mode, true);
        assert_eq!(names(&backward), expected);
    }
}

#[test]
fn sort_does_not_mutate_input() {
    let files = vec![
        entry("b", EntryType::File(FileType::Text), 1),
        entry("a", EntryType::File(FileType::Text), 2),
    ];
    let _ = sort(&files, SortingMode::Name, false);
    assert_eq!(names(&files), vec!["b", "a"]);
}

#[test]
fn size_sums_are_exact_until_they_saturate() {
    let none: Vec<u64> = Vec::new();
    assert_eq!(sum_sizes_saturating(&none), 0);
    assert_eq!(sum_sizes_saturating(&vec![100, 50, 0]), 150);
    assert_eq!(sum_sizes_saturating(&vec![u64::MAX - 1, 1]), u64::MAX);
    assert_eq!(sum_sizes_saturating(&vec![u64::MAX, 5]), u64::MAX);
    assert_eq!(sum_sizes_saturating(&vec![u64::MAX, 5, 3]), u64::MAX);
}

#[test]
fn default_config_sorts_by_name() {
    let config = Config::default();
    assert!(matches!(config.sorting.mode, SortingMode::Name));
    assert!(!config.sorting.reverse);
}
