use lils::config::{effective_depth, Config};
use lils::files::FsEntry;
use lils::output::{join_range, render_grid};
use lils::style::{ls_style, LilsStyle, PermissionStyle, Style};

#[test]
fn ls_style_highlights_the_special_kinds() {
    let s = ls_style();
    assert_eq!(s.directory, Style::BlueBold);
    assert_eq!(s.socket, Style::Green);
    assert_eq!(s.files.executable, Style::RedBold);
    assert_eq!(s.files.text, Style::Plain);
    assert_eq!(s.symlink, Style::Plain);
    assert_eq!(s.permissions.f_type, Style::Plain);
}

#[test]
fn style_builders_replace_one_field_at_a_time() {
    let s = LilsStyle::default().symlink(Style::Green).directory(Style::RedBold);
    assert_eq!(s.symlink, Style::Green);
    assert_eq!(s.directory, Style::RedBold);
    assert_eq!(s.socket, Style::Plain);
    let p = PermissionStyle::default().owner(Style::BlueBold).other(Style::Green);
    assert_eq!(p.owner, Style::BlueBold);
    assert_eq!(p.group, Style::Plain);
    assert_eq!(p.other, Style::Green);
    let s2 = s.with_perms(p);
    assert_eq!(s2.permissions.owner, Style::BlueBold);
}

#[test]
fn permissions_can_be_changed_in_place() {
    let mut s = ls_style();
    let p = s.permissions_mut();
    p.f_type = Style::Green;
    assert_eq!(s.permissions.f_type, Style::Green);
    assert_eq!(s.directory, Style::BlueBold);
}

#[test]
fn grid_wraps_after_the_column_count() {
    let cells = vec!["aa ".to_string(), "bb ".to_string(), "cc ".to_string()];
    assert_eq!(render_grid(&cells, 2, " "), "aa  bb \ncc ");
    assert_eq!(render_grid(&cells, 3, " "), "aa  bb  cc ");
    assert_eq!(render_grid(&cells, 1, "  "), "aa \nbb \ncc ");
    let none: Vec<String> = Vec::new();
    assert_eq!(render_grid(&none, 4, " "), "");
}

#[test]
fn join_puts_the_separator_between_neighbours() {
    let parts = vec!["a".to_string(), "b".to_string(), "c".to_string()];
    assert_eq!(join_range(&parts, 0, 3, ", "), "a, b, c");
    assert_eq!(join_range(&parts, 1, 2, ", "), "b");
    assert_eq!(join_range(&parts, 2, 2, ", "), "");
}

#[test]
fn depth_limit_stops_expansion() {
    let mut config = Config::default();
    config.filter.recurse = true;
    config.filter.depth = effective_depth(1);
    let root = FsEntry::from_path("src", &config).expect("src should list");
    let children = root.children.as_ref().unwrap();
    let output_dir = children.iter().find(|c| c.name == "output").expect("src/output exists");
    assert!(output_dir.children.is_none());
}
