//! The style model: which of a small set of terminal styles each part of
//! the output gets, and the one place where styled text is actually
//! rendered to escape sequences (through the terminal-styling collaborator).

use vstd::prelude::*;

#[allow(unused_imports)]
use crossterm::style::Stylize;

use crate::files::{EntryType, FileType, FsEntry};
use crate::output::Styled;

verus! {

/// One of the text styles the listing uses. `Plain` renders as the text
/// itself.
#[derive(Debug, Clone, Copy, PartialEq, Eq, Structural)]
pub enum Style {
    Plain,
    BlueBold,
    Green,
    RedBold,
    BoldUnderlined,
}

/// The terminal rendering of `text` under a style: the text wrapped in the
/// style's escape sequences. Colour escapes are emitted only while the
/// terminal-styling collaborator has colours enabled — a process-global
/// state read from the environment and changeable at run time — so the
/// rendering is a function of the style, that colour state, and the
/// characters, and each styling call binds the state it saw existentially.
pub uninterp spec fn styled_of(style: Style, colors_on: bool, text: Seq<char>) -> Seq<char>;

/// Relies on crossterm's ContentStyle builders and StyledContent
/// formatting: `text` set in blue and bold. Whether the colour escape is
/// written depends on the collaborator's global colour state, so only the
/// state this call saw is bound.
#[verifier::external_body]
pub(crate) fn style_blue_bold(text: &str) -> (r: String)
    ensures
        exists|colors_on: bool| r@ == styled_of(Style::BlueBold, colors_on, text@),
{
    format!("{}", crossterm::style::ContentStyle::new().blue().bold().apply(text))
}

/// Relies on crossterm's ContentStyle builders and StyledContent
/// formatting: `text` set in green, under whatever colour state this call
/// saw.
#[verifier::external_body]
pub(crate) fn style_green(text: &str) -> (r: String)
    ensures
        exists|colors_on: bool| r@ == styled_of(Style::Green, colors_on, text@),
{
    format!("{}", crossterm::style::ContentStyle::new().green().apply(text))
}

/// Relies on crossterm's ContentStyle builders and StyledContent
/// formatting: `text` set in red and bold, under whatever colour state
/// this call saw.
#[verifier::external_body]
pub(crate) fn style_red_bold(text: &str) -> (r: String)
    ensures
        exists|colors_on: bool| r@ == styled_of(Style::RedBold, colors_on, text@),
{
    format!("{}", crossterm::style::ContentStyle::new().red().bold().apply(text))
}

/// Relies on crossterm's ContentStyle builders and StyledContent
/// formatting: `text` set bold and underlined. Attribute escapes are
/// written unconditionally — this style uses no colour — so the result
/// does not depend on the colour state at all.
#[verifier::external_body]
pub(crate) fn style_bold_underlined(text: &str) -> (r: String)
    ensures
        forall|colors_on: bool| r@ == styled_of(Style::BoldUnderlined, colors_on, text@),
{
    format!("{}", crossterm::style::ContentStyle::new().bold().underlined().apply(text))
}

/// The styles of the four parts of a long-format permission line.
#[derive(Debug, Clone, Copy, PartialEq, Eq, Structural)]
pub struct PermissionStyle {
    pub f_type: Style,
    pub owner: Style,
    pub group: Style,
    pub other: Style,
}

impl PermissionStyle {
    /// This permission style with the type-glyph style replaced.
    pub fn f_type(self, style: Style) -> (r: Self)
        ensures
            r == (PermissionStyle { f_type: style, ..self }),
    {
        PermissionStyle { f_type: style, ..self }
    }

    /// This permission style with the owner-triad style replaced.
    pub fn owner(self, style: Style) -> (r: Self)
        ensures
            r == (PermissionStyle { owner: style, ..self }),
    {
        PermissionStyle { owner: style, ..self }
    }

    /// This permission style with the group-triad style replaced.
    pub fn group(self, style: Style) -> (r: Self)
        ensures
            r == (PermissionStyle { group: style, ..self }),
    {
        PermissionStyle { group: style, ..self }
    }

    /// This permission style with the other-triad style replaced.
    pub fn other(self, style: Style) -> (r: Self)
        ensures
            r == (PermissionStyle { other: style, ..self }),
    {
        PermissionStyle { other: style, ..self }
    }
}

impl Default for PermissionStyle {
    /// Everything plain.
    fn default() -> (r: Self)
        ensures
            r == (PermissionStyle {
                f_type: Style::Plain,
                owner: Style::Plain,
                group: Style::Plain,
                other: Style::Plain,
            }),
    {
        PermissionStyle {
            f_type: Style::Plain,
            owner: Style::Plain,
            group: Style::Plain,
            other: Style::Plain,
        }
    }
}

/// The styles of the two regular-file kinds.
#[derive(Debug, Clone, Copy, PartialEq, Eq, Structural)]
pub struct FileStyles {
    pub text: Style,
    pub executable: Style,
}

/// The whole style sheet of the listing: one style per entry kind, plus
/// the permission-line styles.
#[derive(Debug, Clone, Copy, PartialEq, Eq, Structural)]
pub struct LilsStyle {
    pub directory: Style,
    pub symlink: Style,
    pub socket: Style,
    pub files: FileStyles,
    pub permissions: PermissionStyle,
}

impl Default for LilsStyle {
    /// Everything plain.
    fn default() -> (r: Self)
        ensures
            r == LilsStyle::spec_plain(),
    {
        LilsStyle {
            directory: Style::Plain,
            symlink: Style::Plain,
            socket: Style::Plain,
            files: FileStyles { text: Style::Plain, executable: Style::Plain },
            permissions: PermissionStyle {
                f_type: Style::Plain,
                owner: Style::Plain,
                group: Style::Plain,
                other: Style::Plain,
            },
        }
    }
}

impl LilsStyle {
    /// The all-plain style sheet.
    pub open spec fn spec_plain() -> LilsStyle {
        LilsStyle {
            directory: Style::Plain,
            symlink: Style::Plain,
            socket: Style::Plain,
            files: FileStyles { text: Style::Plain, executable: Style::Plain },
            permissions: PermissionStyle {
                f_type: Style::Plain,
                owner: Style::Plain,
                group: Style::Plain,
                other: Style::Plain,
            },
        }
    }

    /// This style sheet with the directory style replaced.
    pub fn directory(self, style: Style) -> (r: Self)
        ensures
            r == (LilsStyle { directory: style, ..self }),
    {
        LilsStyle { directory: style, ..self }
    }

    /// This style sheet with the symlink style replaced.
    pub fn symlink(self, style: Style) -> (r: Self)
        ensures
            r == (LilsStyle { symlink: style, ..self }),
    {
        LilsStyle { symlink: style, ..self }
    }

    /// This style sheet with the socket style replaced.
    pub fn socket(self, style: Style) -> (r: Self)
        ensures
            r == (LilsStyle { socket: style, ..self }),
    {
        LilsStyle { socket: style, ..self }
    }

    /// This style sheet with one file kind's style replaced.
    pub fn set_ft(self, f_type: FileType, style: Style) -> (r: Self)
        ensures
            f_type is Text ==> r == (LilsStyle {
                files: FileStyles { text: style, ..self.files },
                ..self
            }),
            f_type is Executable ==> r == (LilsStyle {
                files: FileStyles { executable: style, ..self.files },
                ..self
            }),
    {
        match f_type {
            FileType::Text => LilsStyle { files: FileStyles { text: style, ..self.files }, ..self },
            FileType::Executable => LilsStyle {
                files: FileStyles { executable: style, ..self.files },
                ..self
            },
        }
    }

    /// This style sheet with the permission styles replaced.
    pub fn with_perms(self, perms: PermissionStyle) -> (r: Self)
        ensures
            r == (LilsStyle { permissions: perms, ..self }),
    {
        LilsStyle { permissions: perms, ..self }
    }

    /// The permission styles, for changing in place.
    pub fn permissions_mut(&mut self) -> (r: &mut PermissionStyle)
        ensures
            *final(self) == (LilsStyle { permissions: *final(r), ..*old(self) }),
    {
        &mut self.permissions
    }

    /// The style this sheet gives an entry of kind `e_type`.
    pub open spec fn spec_style_for(self, e_type: EntryType) -> Style {
        match e_type {
            EntryType::Directory => self.directory,
            EntryType::File(FileType::Text) => self.files.text,
            EntryType::File(FileType::Executable) => self.files.executable,
            EntryType::Symlink => self.symlink,
            EntryType::Socket => self.socket,
        }
    }

    /// The name of `file` as one composer segment, styled by its kind.
    pub fn apply(&self, file: &FsEntry) -> (r: Styled)
        ensures
            r.content@ == file.name@,
            r.style == self.spec_style_for(file.e_type),
    {
        let style = match file.e_type {
            EntryType::Directory => self.directory,
            EntryType::File(FileType::Text) => self.files.text,
            EntryType::File(FileType::Executable) => self.files.executable,
            EntryType::Symlink => self.symlink,
            EntryType::Socket => self.socket,
        };
        Styled { content: file.name.clone(), style }
    }
}

/// The style sheet the listing uses: blue bold directories, green sockets,
/// red bold executables, everything else plain.
pub fn ls_style() -> (r: LilsStyle)
    ensures
        r == spec_ls_style(),
{
    LilsStyle::default().directory(Style::BlueBold).socket(Style::Green).set_ft(
        FileType::Executable,
        Style::RedBold,
    )
}

/// What [`ls_style`] returns.
pub open spec fn spec_ls_style() -> LilsStyle {
    LilsStyle {
        directory: Style::BlueBold,
        symlink: Style::Plain,
        socket: Style::Green,
        files: FileStyles { text: Style::Plain, executable: Style::RedBold },
        permissions: PermissionStyle {
            f_type: Style::Plain,
            owner: Style::Plain,
            group: Style::Plain,
            other: Style::Plain,
        },
    }
}

} // verus!
