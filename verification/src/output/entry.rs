//! How one entry becomes one display cell: its name styled by kind, an
//! optional type-suffix glyph, and an optional leading icon.

use vstd::prelude::*;

use crate::files::{EntryType, FileType, FsEntry};
use crate::output::{MultiStyled, SegView, Styled};
use crate::style::{LilsStyle, Style};

verus! {

/// The type-suffix glyph of an entry kind: `/` for a directory, `=` for a
/// socket, `*` for an executable, none otherwise.
pub open spec fn spec_suffix(e_type: EntryType) -> Option<char> {
    match e_type {
        EntryType::Directory => Some('/'),
        EntryType::Socket => Some('='),
        EntryType::File(FileType::Executable) => Some('*'),
        EntryType::File(FileType::Text) => None,
        EntryType::Symlink => None,
    }
}

/// The suffix glyph appended to an entry's name when suffixes are enabled.
pub fn get_suffix(entry: &FsEntry) -> (r: Option<char>)
    ensures
        r == spec_suffix(entry.e_type),
{
    match entry.e_type {
        EntryType::Directory => Some('/'),
        EntryType::Socket => Some('='),
        EntryType::File(FileType::Executable) => Some('*'),
        EntryType::File(FileType::Text) => None,
        EntryType::Symlink => None,
    }
}

/// The icon glyph of an entry kind: one for directories, one for
/// executables, a generic one for other files, none for symlinks and
/// sockets.
pub open spec fn spec_icon(e_type: EntryType) -> Option<char> {
    match e_type {
        EntryType::Directory => Some('\u{f4d3}'),
        EntryType::File(FileType::Executable) => Some('\u{f013}'),
        EntryType::File(FileType::Text) => Some('\u{f021a}'),
        EntryType::Symlink => None,
        EntryType::Socket => None,
    }
}

/// The icon glyph put before an entry's name when icons are enabled.
pub fn get_icon(entry: &FsEntry) -> (r: Option<char>)
    ensures
        r == spec_icon(entry.e_type),
{
    match entry.e_type {
        EntryType::Directory => Some('\u{f4d3}'),
        EntryType::File(FileType::Executable) => Some('\u{f013}'),
        EntryType::File(FileType::Text) => Some('\u{f021a}'),
        EntryType::Symlink => None,
        EntryType::Socket => None,
    }
}

/// The suffix glyph as a one-character text, or the empty text where the
/// kind has none.
fn suffix_str(e_type: EntryType) -> (r: &'static str)
    ensures
        r@ == match spec_suffix(e_type) {
            Some(c) => seq![c],
            None => Seq::<char>::empty(),
        },
{
    proof {
        reveal_strlit("/");
        reveal_strlit("=");
        reveal_strlit("*");
        reveal_strlit("");
    }
    match e_type {
        EntryType::Directory => "/",
        EntryType::Socket => "=",
        EntryType::File(FileType::Executable) => "*",
        EntryType::File(FileType::Text) => "",
        EntryType::Symlink => "",
    }
}

/// The icon glyph followed by one space, or the empty text where the kind
/// has none.
fn icon_str(e_type: EntryType) -> (r: &'static str)
    ensures
        r@ == match spec_icon(e_type) {
            Some(c) => seq![c, ' '],
            None => Seq::<char>::empty(),
        },
{
    proof {
        reveal_strlit("\u{f4d3} ");
        reveal_strlit("\u{f013} ");
        reveal_strlit("\u{f021a} ");
        reveal_strlit("");
    }
    match e_type {
        EntryType::Directory => "\u{f4d3} ",
        EntryType::File(FileType::Executable) => "\u{f013} ",
        EntryType::File(FileType::Text) => "\u{f021a} ",
        EntryType::Symlink => "",
        EntryType::Socket => "",
    }
}

/// The segments of one display cell for `entry`: the name styled by kind;
/// then, when `suffix` is set and the kind has a suffix glyph, that glyph
/// as an unstyled segment; then, when `icons` is set and the kind has an
/// icon, the icon and a space as an unstyled leading segment.
pub open spec fn spec_display_name(
    name: Seq<char>,
    e_type: EntryType,
    style: LilsStyle,
    suffix: bool,
    icons: bool,
) -> Seq<SegView> {
    let base = seq![SegView { content: name, style: style.spec_style_for(e_type) }];
    let with_suffix = if suffix && spec_suffix(e_type) is Some {
        base.push(SegView { content: seq![spec_suffix(e_type)->0], style: Style::Plain })
    } else {
        base
    };
    if icons && spec_icon(e_type) is Some {
        with_suffix.insert(
            0,
            SegView { content: seq![spec_icon(e_type)->0, ' '], style: Style::Plain },
        )
    } else {
        with_suffix
    }
}

/// Composes the display cell of one entry: its styled name, the optional
/// suffix glyph behind it, the optional icon before it.
pub fn display_name(entry: &FsEntry, style: &LilsStyle, suffix: bool, icons: bool) -> (r:
    MultiStyled)
    ensures
        r@ == spec_display_name(entry.name@, entry.e_type, *style, suffix, icons),
{
    let applied = style.apply(entry);
    let mut multi = MultiStyled::new().with(applied);
    if suffix && get_suffix(entry).is_some() {
        let s = suffix_str(entry.e_type);
        multi.push(Styled { content: s.to_owned(), style: Style::Plain });
    }
    if icons && get_icon(entry).is_some() {
        let ic = icon_str(entry.e_type);
        multi.insert(0, Styled { content: ic.to_owned(), style: Style::Plain });
    }
    proof {
        assert(Seq::<SegView>::empty().push(
            SegView { content: entry.name@, style: style.spec_style_for(entry.e_type) },
        ) =~= seq![SegView { content: entry.name@, style: style.spec_style_for(entry.e_type) }]);
    }
    multi
}

} // verus!
