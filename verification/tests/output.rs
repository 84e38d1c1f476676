use std::rc::Rc;

use lils::config::Config;
use lils::files::{EntryType, FileType, FsEntry, Times, Timestamp};
use lils::output::entry::{display_name, get_icon, get_suffix};
use lils::output::long::{get_permission_chars, get_permission_string, long, long_display};
use lils::output::short::{short, short_display};
use lils::output::{columns_per_row, effective_width, MultiStyled, Styled};
use lils::style::{ls_style, Style};

fn times() -> Times {
    Times {
        modified: Timestamp { sec: 0, nsec: 0 },
        created: Timestamp { sec: 0, nsec: 0 },
        access: Timestamp { sec: 0, nsec: 0 },
    }
}

fn entry(name: &str, e_type: EntryType, perms: u32) -> FsEntry {
    FsEntry::new(name, e_type, times(), None, 1000, 1000, perms)
}

#[test]
fn visible_length_counts_contents_only() {
    let cell = MultiStyled::new().with(Styled {
        content: "abc".to_string(),
        style: Style::RedBold,
    }).with(Styled { content: "*".to_string(), style: Style::Plain });
    assert_eq!(cell.len(), 4);
}

#[test]
fn visible_length_ignores_the_styles() {
    let styled = MultiStyled::new().with(Styled {
        content: "abc".to_string(),
        style: Style::BlueBold,
    }).with(Styled { content: "*".to_string(), style: Style::BoldUnderlined });
    let plain = MultiStyled::new().with(Styled {
        content: "abc".to_string(),
        style: Style::Plain,
    }).with(Styled { content: "*".to_string(), style: Style::Plain });
    assert_eq!(styled.len(), plain.len());
    assert_eq!(styled.len(), 4);
}

#[test]
fn styling_adds_no_visible_length_but_changes_the_text() {
    let styled = MultiStyled::new().with(Styled {
        content: "abc".to_string(),
        style: Style::BlueBold,
    });
    let out = styled.output();
    assert!(out.contains("abc"));
    assert_ne!(out, "abc");
    assert_eq!(styled.len(), 3);
}

#[test]
fn plain_segments_render_as_their_text() {
    let mut m = MultiStyled::new();
    m.push(Styled { content: "ab".to_string(), style: Style::Plain });
    m.push(Styled { content: "cd".to_string(), style: Style::Plain });
    assert_eq!(m.output(), "abcd");
}

#[test]
fn insert_puts_a_segment_in_front() {
    let mut m = MultiStyled::new();
    m.push(Styled { content: "name".to_string(), style: Style::Plain });
    m.insert(0, Styled { content: "> ".to_string(), style: Style::Plain });
    assert_eq!(m.output(), "> name");
    assert_eq!(m.section(0).unwrap().content, "> ");
    assert_eq!(m.section(1).unwrap().content, "name");
    assert!(m.section(2).is_none());
}

#[test]
fn grid_column_math() {
    assert_eq!(columns_per_row(20, 5), 4);
    assert_eq!(columns_per_row(20, 7), 2);
    // a cell wider than the terminal still gets one column
    assert_eq!(columns_per_row(10, 30), 1);
}

#[test]
fn unknown_or_zero_width_falls_back_to_160() {
    assert_eq!(effective_width(None), 160);
    assert_eq!(effective_width(Some((0, 24))), 160);
    assert_eq!(effective_width(Some((80, 24))), 80);
}

#[test]
fn suffix_glyphs_by_kind() {
    assert_eq!(get_suffix(&entry("d", EntryType::Directory, 0o755)), Some('/'));
    assert_eq!(get_suffix(&entry("s", EntryType::Socket, 0o755)), Some('='));
    assert_eq!(get_suffix(&entry("x", EntryType::File(FileType::Executable), 0o755)), Some('*'));
    assert_eq!(get_suffix(&entry("t", EntryType::File(FileType::Text), 0o644)), None);
    assert_eq!(get_suffix(&entry("l", EntryType::Symlink, 0o777)), None);
}

#[test]
fn icon_glyphs_by_kind() {
    assert!(get_icon(&entry("d", EntryType::Directory, 0o755)).is_some());
    assert!(get_icon(&entry("x", EntryType::File(FileType::Executable), 0o755)).is_some());
    assert!(get_icon(&entry("t", EntryType::File(FileType::Text), 0o644)).is_some());
    assert_eq!(get_icon(&entry("l", EntryType::Symlink, 0o777)), None);
    assert_eq!(get_icon(&entry("s", EntryType::Socket, 0o755)), None);
}

#[test]
fn display_name_appends_suffix_and_prepends_icon() {
    let style = ls_style();
    let e = entry("sub", EntryType::Directory, 0o755);
    let cell = display_name(&e, &style, true, true);
    // icon + space, the styled name, the suffix glyph
    assert_eq!(cell.section(0).unwrap().content.chars().count(), 2);
    assert_eq!(cell.section(1).unwrap().content, "sub");
    assert_eq!(cell.section(1).unwrap().style, Style::BlueBold);
    assert_eq!(cell.section(2).unwrap().content, "/");
    assert_eq!(cell.len(), 6);
}

#[test]
fn permission_chars_reflect_the_bits() {
    assert_eq!(get_permission_chars(true, false, true), ['r', '-', 'x']);
    assert_eq!(get_permission_chars(false, false, false), ['-', '-', '-']);
    assert_eq!(get_permission_chars(true, true, true), ['r', 'w', 'x']);
}

#[test]
fn permission_line_for_a_text_file() {
    let style = ls_style();
    let e = entry("f", EntryType::File(FileType::Text), 0o100754);
    let line = get_permission_string(&e, &style);
    assert_eq!(line.output(), "-\u{2503}rwx\u{2022}r-x\u{2022}r--");
}

#[test]
fn permission_line_glyphs_by_kind() {
    let style = ls_style();
    let d = entry("d", EntryType::Directory, 0o040755, );
    assert_eq!(get_permission_string(&d, &style).output(), "d\u{2503}rwx\u{2022}r-x\u{2022}r-x");
    let x = entry("x", EntryType::File(FileType::Executable), 0o100700);
    assert_eq!(get_permission_string(&x, &style).output(), "*\u{2503}rwx\u{2022}---\u{2022}---");
    let l = entry("l", EntryType::Symlink, 0o120777);
    assert_eq!(get_permission_string(&l, &style).output(), "l\u{2503}rwx\u{2022}rwx\u{2022}rwx");
    let s = entry("s", EntryType::Socket, 0o140600);
    assert_eq!(get_permission_string(&s, &style).output(), "s\u{2503}rw-\u{2022}---\u{2022}---");
}

fn scenario_root() -> FsEntry {
    let a = Rc::new(entry("a.txt", EntryType::File(FileType::Text), 0o100644));
    let b = Rc::new(entry("b", EntryType::File(FileType::Executable), 0o100755));
    let sub = Rc::new(entry("sub", EntryType::Directory, 0o040755));
    FsEntry::new(
        "root",
        EntryType::Directory,
        times(),
        Some(vec![b, sub, a]),
        1000,
        1000,
        0o040755,
    )
}

#[test]
fn short_listing_sorts_and_suffixes_the_scenario_directory() {
    // files a.txt (plain), b (executable) and sub/ under the default
    // config: name order, suffix glyphs on
    let config = Config::default();
    let root = scenario_root();
    let out = short_display(&root, &config);
    let ia = out.find("a.txt").expect("a.txt shown");
    let istar = out.find('*').expect("the executable carries its suffix");
    let islash = out.find('/').expect("the directory carries its suffix");
    assert!(out.contains("sub"));
    assert!(ia < istar && istar < islash);
    assert!(!out.contains("a.txt*"));
    assert!(!out.contains('='));
}

#[test]
fn short_grid_pads_cells_to_the_longest() {
    // all-plain cells (text files, no suffix glyph), so the output is the
    // exact padded grid text
    let config = Config::default();
    let a = Rc::new(entry("a", EntryType::File(FileType::Text), 0o100644));
    let bb = Rc::new(entry("bb", EntryType::File(FileType::Text), 0o100644));
    let cccc = Rc::new(entry("cccc", EntryType::File(FileType::Text), 0o100644));
    let root = FsEntry::new(
        "root",
        EntryType::Directory,
        times(),
        Some(vec![bb, cccc, a]),
        1000,
        1000,
        0o040755,
    );
    let out = short_display(&root, &config);
    assert_eq!(out, "a    bb   cccc");
}

#[test]
fn icons_add_a_leading_segment_and_wider_separators() {
    let mut config = Config::default();
    config.display.icons = true;
    let a = Rc::new(entry("a", EntryType::File(FileType::Text), 0o100644));
    let b = Rc::new(entry("b", EntryType::File(FileType::Text), 0o100644));
    let root = FsEntry::new(
        "root",
        EntryType::Directory,
        times(),
        Some(vec![a, b]),
        1000,
        1000,
        0o040755,
    );
    let out = short_display(&root, &config);
    // each cell is "<icon> <name>" (3 visible characters); two spaces join them
    assert!(out.contains("  "));
    assert!(out.contains('a') && out.contains('b'));
    let style = ls_style();
    let e = entry("a", EntryType::File(FileType::Text), 0o100644);
    let cell = display_name(&e, &style, true, true);
    assert_eq!(cell.len(), 3);
}

#[test]
fn short_listing_of_a_leaf_is_its_name() {
    let config = Config::default();
    let leaf = entry("sub", EntryType::Directory, 0o755);
    assert_eq!(short_display(&leaf, &config), "sub");
}

#[test]
fn long_listing_of_the_scenario_directory() {
    let config = Config::default();
    let root = scenario_root();
    let out = long(&vec![root], &config);
    assert_eq!(
        out,
        "-\u{2503}rw-\u{2022}r--\u{2022}r--\n*\u{2503}rwx\u{2022}r-x\u{2022}r-x\nd\u{2503}rwx\u{2022}r-x\u{2022}r-x\n",
    );
}

#[test]
fn long_listing_body_is_one_line_per_child() {
    let config = Config::default();
    let root = scenario_root();
    let body = long_display(&root, &config);
    assert_eq!(body.matches('\n').count(), 2);
    assert!(body.starts_with('-'));
}

#[test]
fn several_roots_get_headers_and_blank_separators() {
    let config = Config::default();
    let one = scenario_root();
    let two = scenario_root();
    let out = long(&vec![one, two], &config);
    // two sections: headers with a colon, one blank line between, none after
    assert_eq!(out.matches(":\n").count(), 2);
    assert!(out.contains("\n\n"));
    assert!(!out.ends_with("\n\n"));
}

#[test]
fn recursive_listing_headers_span_the_whole_listing() {
    // two roots that each expand to a single directory: the listing has
    // two sections, so both get headers, with one blank line between
    let mut config = Config::default();
    config.filter.recurse = true;
    let make_root = |name: &str, sub: &str| {
        let s = Rc::new(FsEntry::new(sub, EntryType::Directory, times(), Some(vec![]), 0, 0, 0o755));
        FsEntry::new(name, EntryType::Directory, times(), Some(vec![s]), 0, 0, 0o755)
    };
    let out = long(&vec![make_root("r1", "s1"), make_root("r2", "s2")], &config);
    assert_eq!(out.matches(":\n").count(), 2);
    // the empty body of s1, its closing newline, and the separating blank
    assert!(out.contains("\n\n\n"));
    let short_out = short(&vec![make_root("r1", "s1"), make_root("r2", "s2")], &config);
    assert_eq!(short_out.matches(":\n").count(), 2);
}

#[test]
fn recursive_listing_of_one_directory_gets_no_header() {
    let mut config = Config::default();
    config.filter.recurse = true;
    let s = Rc::new(FsEntry::new("s1", EntryType::Directory, times(), Some(vec![]), 0, 0, 0o755));
    let root = FsEntry::new("r1", EntryType::Directory, times(), Some(vec![s]), 0, 0, 0o755);
    let out = long(&vec![root], &config);
    assert!(!out.contains(":\n"));
}

#[test]
fn single_root_gets_no_header() {
    let config = Config::default();
    let out = short(&vec![scenario_root()], &config);
    assert!(!out.contains(":\n"));
    assert!(out.ends_with('\n'));
}
