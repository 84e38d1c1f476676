use std::rc::Rc;

use lils::config::{effective_depth, Config};
use lils::files::{EntryType, FileType, FsEntry, Times, Timestamp};
use lils::util::{get_group_by_gid, get_user_by_uid};
use lils::LilsError;

fn times() -> Times {
    Times {
        modified: Timestamp { sec: 0, nsec: 0 },
        created: Timestamp { sec: 0, nsec: 0 },
        access: Timestamp { sec: 0, nsec: 0 },
    }
}

#[test]
fn classify_directory_first() {
    assert_eq!(EntryType::from_mode(0o040755), EntryType::Directory);
}

#[test]
fn classify_regular_files_by_execute_bits() {
    assert_eq!(EntryType::from_mode(0o100644), EntryType::File(FileType::Text));
    assert_eq!(EntryType::from_mode(0o100755), EntryType::File(FileType::Executable));
    assert_eq!(EntryType::from_mode(0o100010), EntryType::File(FileType::Executable));
}

#[test]
fn classify_symlink_and_socket() {
    assert_eq!(EntryType::from_mode(0o120777), EntryType::Symlink);
    assert_eq!(EntryType::from_mode(0o140755), EntryType::Socket);
}

#[test]
fn classify_unknown_kind_falls_back_to_text() {
    // a character device is none of the four kinds
    assert_eq!(EntryType::from_mode(0o020644), EntryType::File(FileType::Text));
}

#[test]
fn file_type_from_mode() {
    assert_eq!(FileType::from_mode(0o644), FileType::Text);
    assert_eq!(FileType::from_mode(0o744), FileType::Executable);
}

#[test]
fn depth_sentinel_zero_means_unlimited() {
    assert_eq!(effective_depth(0), usize::MAX);
    assert_eq!(effective_depth(1), 1);
    assert_eq!(effective_depth(7), 7);
}

#[test]
fn new_entry_takes_final_path_component() {
    let e = FsEntry::new(
        "/some/dir/file.txt",
        EntryType::File(FileType::Text),
        times(),
        None,
        42,
        43,
        0o644,
    );
    assert_eq!(e.name, "file.txt");
    assert_eq!(e.path, "/some/dir/file.txt");
    assert_eq!(e.uid, 42);
    assert_eq!(e.gid, 43);
    assert_eq!(e.perms, 0o644);
    assert!(e.children.is_none());
}

#[test]
fn from_path_builds_a_directory_tree() {
    let config = Config::default();
    let root = FsEntry::from_path("src", &config).expect("src should list");
    assert_eq!(root.name, "src");
    assert_eq!(root.e_type, EntryType::Directory);
    let children = root.children.as_ref().expect("the root is always expanded");
    assert!(children.iter().any(|c| c.name == "lib.rs"));
    // without recursion, a child directory is not expanded
    for c in children.iter() {
        assert!(c.children.is_none());
    }
}

#[test]
fn from_path_on_a_file_is_not_a_directory() {
    let config = Config::default();
    let r = FsEntry::from_path("src/lib.rs", &config);
    assert_eq!(r.err(), Some(LilsError::NotADirectory));
}

#[test]
fn from_path_on_a_missing_path_is_an_io_error() {
    let config = Config::default();
    let r = FsEntry::from_path("no_such_path_at_all_here", &config);
    assert_eq!(r.err(), Some(LilsError::Io));
}

#[test]
fn file_type_from_path_reads_the_execute_bit() {
    assert_eq!(FileType::from_path("src/lib.rs"), Ok(FileType::Text));
    assert_eq!(FileType::from_path("no_such_path_at_all_here"), Err(LilsError::Io));
}

#[test]
fn recursive_traversal_expands_subdirectories() {
    let mut config = Config::default();
    config.filter.recurse = true;
    config.filter.depth = effective_depth(0);
    let root = FsEntry::from_path("src", &config).expect("src should list");
    let children = root.children.as_ref().unwrap();
    let output_dir = children.iter().find(|c| c.name == "output").expect("src/output exists");
    assert_eq!(output_dir.e_type, EntryType::Directory);
    let below = output_dir.children.as_ref().expect("expanded under recursion");
    assert!(below.iter().any(|c| c.name == "short.rs"));
}

#[test]
fn get_all_dirs_is_depth_first() {
    let leaf = |name: &str| {
        Rc::new(FsEntry::new(name, EntryType::File(FileType::Text), times(), None, 0, 0, 0o644))
    };
    let dir = |name: &str, children: Vec<Rc<FsEntry>>| {
        Rc::new(FsEntry::new(name, EntryType::Directory, times(), Some(children), 0, 0, 0o755))
    };
    let c = dir("c", vec![]);
    let a = dir("a", vec![c.clone(), leaf("x")]);
    let b = dir("b", vec![]);
    let root = FsEntry::new(
        "root",
        EntryType::Directory,
        times(),
        Some(vec![a.clone(), leaf("y"), b.clone()]),
        0,
        0,
        0o755,
    );
    let dirs = root.get_all_dirs();
    let names: Vec<String> = dirs.iter().map(|d| d.name.clone()).collect();
    // each expanded child is followed at once by its own subdirectories
    assert_eq!(names, vec!["a", "c", "b"]);
}

#[test]
fn lookup_failures_are_not_errors() {
    // an id no system assigns: the lookup reports None rather than failing
    let name = get_user_by_uid(u32::MAX - 7);
    assert!(name.is_none() || !name.unwrap().is_empty());
    let group = get_group_by_gid(u32::MAX - 7);
    assert!(group.is_none() || !group.unwrap().is_empty());
}
