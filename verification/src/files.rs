//! The entry model: the kind taxonomy and the tree node that represents one
//! filesystem object together with its children.

use vstd::prelude::*;
use std::rc::Rc;

use crate::config::Config;
use crate::util::{get_group_by_gid, get_user_by_uid};
use crate::LilsError;

verus! {

/// What one stat call reports of a filesystem object, as plain values.
#[derive(Debug, Clone, Copy, PartialEq, Eq, Structural)]
pub struct RawStat {
    pub mode: u32,
    pub uid: u32,
    pub gid: u32,
    pub size: i64,
    pub mtime_sec: i64,
    pub mtime_nsec: i64,
    pub atime_sec: i64,
    pub atime_nsec: i64,
    pub ctime_sec: i64,
    pub ctime_nsec: i64,
}

/// Relies on nix::sys::stat::stat: the metadata of the object at `path`,
/// following symlinks, or `None` where the call fails. What comes back
/// depends on what is on disk, so nothing is promised of the values.
#[verifier::external_body]
pub(crate) fn stat_path(path: &str) -> (r: Option<RawStat>) {
    match nix::sys::stat::stat(path) {
        Ok(st) => Some(
            RawStat {
                mode: st.st_mode, uid: st.st_uid, gid: st.st_gid, size: st.st_size,
                mtime_sec: st.st_mtime, mtime_nsec: st.st_mtime_nsec,
                atime_sec: st.st_atime, atime_nsec: st.st_atime_nsec,
                ctime_sec: st.st_ctime, ctime_nsec: st.st_ctime_nsec,
            },
        ),
        Err(_) => None,
    }
}

/// Relies on ignore::WalkBuilder: an ignore-file-aware walk below `path`,
/// down to `max_depth` levels, honouring the hidden-file policy (`hide`
/// skips hidden entries) and, when `git` is set, git ignore files. Each
/// element is an entry's depth below `path` together with its path, or
/// `None` where the walk reports an unreadable entry. What comes back
/// depends on what is on disk, so nothing is promised of it.
#[verifier::external_body]
pub(crate) fn walk_dir(path: &str, hide: bool, git: bool, max_depth: Option<usize>) -> (r: Vec<
    Option<(usize, String)>,
>) {
    ignore::WalkBuilder::new(path)
        .hidden(hide)
        .ignore(false)
        .require_git(true)
        .git_ignore(git)
        .max_depth(max_depth)
        .build()
        .map(|e| e.ok().map(|d| (d.depth(), d.path().to_string_lossy().into_owned())))
        .collect()
}

/// The final non-empty component of a path string; the empty sequence where
/// the path has none (a root, or a path ending in `..`).
pub uninterp spec fn file_name_of(path: Seq<char>) -> Seq<char>;

/// Relies on std::path::Path::file_name: the final non-empty component of a
/// path, a function of the path string alone; the empty string where the
/// path has none.
#[verifier::external_body]
fn path_file_name(path: &str) -> (r: String)
    ensures
        r@ == file_name_of(path@),
{
    match std::path::Path::new(path).file_name() {
        Some(n) => n.to_string_lossy().into_owned(),
        None => String::new(),
    }
}

/// The POSIX file-type mask and the type values the classifier looks at.
pub const MODE_TYPE_MASK: u32 = 0o170000;

pub const MODE_TYPE_DIRECTORY: u32 = 0o040000;

pub const MODE_TYPE_REGULAR: u32 = 0o100000;

pub const MODE_TYPE_SYMLINK: u32 = 0o120000;

pub const MODE_TYPE_SOCKET: u32 = 0o140000;

/// The three POSIX execute bits.
pub const MODE_EXEC_BITS: u32 = 0o111;

/// The kind of a regular file, told apart by the POSIX execute bits.
#[derive(Debug, Clone, Copy, PartialEq, Eq, Structural)]
pub enum FileType {
    Text,
    Executable,
}

impl FileType {
    /// The classification of a regular file by its raw mode bits: a file
    /// with any execute bit set is executable, every other file is text.
    pub open spec fn spec_from_mode(mode: u32) -> FileType {
        if mode & MODE_EXEC_BITS != 0 {
            FileType::Executable
        } else {
            FileType::Text
        }
    }

    /// Classifies a regular file by its raw mode bits.
    pub fn from_mode(mode: u32) -> (r: FileType)
        ensures
            r == Self::spec_from_mode(mode),
    {
        if mode & MODE_EXEC_BITS != 0 {
            FileType::Executable
        } else {
            FileType::Text
        }
    }

    /// Classifies the regular file at `path` by statting it: whatever mode
    /// bits come back are classified by [`Self::spec_from_mode`]; an
    /// unreadable path is an error.
    pub fn from_path(path: &str) -> (r: Result<FileType, LilsError>)
        ensures
            r matches Err(e) ==> e == LilsError::Io,
    {
        match stat_path(path) {
            Option::Some(st) => Ok(FileType::from_mode(st.mode)),
            Option::None => Err(LilsError::Io),
        }
    }
}

/// The kind of one filesystem object.
#[derive(Debug, Clone, Copy, PartialEq, Eq, Structural)]
pub enum EntryType {
    Directory,
    File(FileType),
    Symlink,
    Socket,
}

impl EntryType {
    /// The classification of an entry by its raw mode bits, checked in the
    /// order directory, regular file (executable or text by the execute
    /// bits), symlink, socket; anything else falls back to a text file.
    pub open spec fn spec_from_mode(mode: u32) -> EntryType {
        let t = mode & MODE_TYPE_MASK;
        if t == MODE_TYPE_DIRECTORY {
            EntryType::Directory
        } else if t == MODE_TYPE_REGULAR {
            EntryType::File(FileType::spec_from_mode(mode))
        } else if t == MODE_TYPE_SYMLINK {
            EntryType::Symlink
        } else if t == MODE_TYPE_SOCKET {
            EntryType::Socket
        } else {
            EntryType::File(FileType::Text)
        }
    }

    /// Classifies an entry by its raw mode bits.
    pub fn from_mode(mode: u32) -> (r: EntryType)
        ensures
            r == Self::spec_from_mode(mode),
    {
        let t = mode & MODE_TYPE_MASK;
        if t == MODE_TYPE_DIRECTORY {
            EntryType::Directory
        } else if t == MODE_TYPE_REGULAR {
            EntryType::File(FileType::from_mode(mode))
        } else if t == MODE_TYPE_SYMLINK {
            EntryType::Symlink
        } else if t == MODE_TYPE_SOCKET {
            EntryType::Socket
        } else {
            EntryType::File(FileType::Text)
        }
    }
}

/// One point in time, as seconds and nanoseconds since the epoch.
#[derive(Debug, Clone, Copy, PartialEq, Eq, Structural)]
pub struct Timestamp {
    pub sec: i64,
    pub nsec: i64,
}

/// The three timestamps of an entry.
#[derive(Debug, Clone, Copy, PartialEq, Eq, Structural)]
pub struct Times {
    pub modified: Timestamp,
    pub created: Timestamp,
    pub access: Timestamp,
}

/// The children of an expanded directory, as shared immutable nodes.
pub type EntryChildren = Vec<Rc<FsEntry>>;

/// One filesystem object: its name, numeric and resolved ownership, raw
/// POSIX mode bits, kind, timestamps, and, for an expanded directory, its
/// children. `children` is `None` for an entry that was not expanded and
/// `Some` (possibly empty) for an expanded directory.
#[derive(Debug, Clone)]
pub struct FsEntry {
    pub name: String,
    pub uid: u32,
    pub u_name: Option<String>,
    pub gid: u32,
    pub g_name: Option<String>,
    pub perms: u32,
    pub path: String,
    pub e_type: EntryType,
    pub times: Times,
    pub children: Option<EntryChildren>,
}

/// A sibling list as the sequence of the entries behind the shared nodes.
pub open spec fn derefs(s: Seq<Rc<FsEntry>>) -> Seq<FsEntry> {
    s.map_values(|x: Rc<FsEntry>| *x)
}

proof fn lemma_derefs_push(s: Seq<Rc<FsEntry>>, x: Rc<FsEntry>)
    ensures
        derefs(s.push(x)) == derefs(s).push(*x),
{
    assert(derefs(s.push(x)) =~= derefs(s).push(*x));
}

impl FsEntry {
    /// An expanded entry as a one-element sequence; anything else
    /// contributes nothing to the flattened directory view.
    pub open spec fn spec_dir_entry(e: FsEntry) -> Seq<FsEntry> {
        if e.children is Some {
            seq![e]
        } else {
            Seq::empty()
        }
    }

    /// Every known directory strictly below `self`, in depth-first,
    /// children-of-first-child-first order: each expanded child followed
    /// at once by the known directories of its own subtree, then the next
    /// child.
    pub open spec fn spec_all_dirs(self) -> Seq<FsEntry>
        decreases self,
    {
        match self.children {
            Option::Some(cs) => Self::spec_all_dirs_below(cs@),
            Option::None => Seq::empty(),
        }
    }

    /// The known directories below a sibling list, depth first.
    pub open spec fn spec_all_dirs_below(s: Seq<Rc<FsEntry>>) -> Seq<FsEntry>
        decreases s,
    {
        if s.len() == 0 {
            Seq::empty()
        } else {
            Self::spec_dir_entry(*s[0]) + (*s[0]).spec_all_dirs() + Self::spec_all_dirs_below(
                s.drop_first(),
            )
        }
    }

    /// Whether an entry was expanded, given its depth below the traversal
    /// root and the configuration: the root always, a deeper entry only
    /// when recursion is on and the depth is below the effective maximum.
    pub open spec fn spec_expands(e_type: EntryType, depth: nat, config: Config) -> bool {
        e_type is Directory && (depth == 0 || (config.filter.recurse && depth
            < config.filter.depth))
    }

    /// The termination measure of the traversal: a bound on how many more
    /// levels an expansion at `depth` can reach.
    pub open spec fn depth_fuel(depth: nat, config: Config) -> nat {
        let max = config.filter.depth as nat;
        if depth == 0 {
            max + 2
        } else if depth <= max {
            (max + 1 - depth) as nat
        } else {
            0
        }
    }

    /// Wraps a stat result and a built children list into an entry: the
    /// name is the final component of `path`, the owner and group names
    /// come from the lookup collaborator, everything else is taken as
    /// given.
    pub fn new(
        path: &str,
        e_type: EntryType,
        times: Times,
        children: Option<EntryChildren>,
        uid: u32,
        gid: u32,
        perms: u32,
    ) -> (r: Self)
        ensures
            r.name@ == file_name_of(path@),
            r.path@ == path@,
            r.e_type == e_type,
            r.times == times,
            r.children == children,
            r.uid == uid,
            r.gid == gid,
            r.perms == perms,
    {
        let name = path_file_name(path);
        FsEntry {
            name,
            uid,
            u_name: get_user_by_uid(uid),
            gid,
            g_name: get_group_by_gid(gid),
            perms,
            path: path.to_owned(),
            e_type,
            times,
            children,
        }
    }

    /// Builds the tree rooted at `path`: stats the object, classifies it
    /// by its mode bits, and, where [`Self::spec_expands`] says so, reads
    /// the directory and recurses one level deeper. Fails only where the
    /// root itself cannot be read.
    fn create_from_path(path: &str, config: &Config, depth: usize) -> (r: Result<Self, LilsError>)
        ensures
            r matches Ok(e) ==> e.subtree_wf(depth as nat, *config) && e.name@ == file_name_of(
                path@,
            ) && e.path@ == path@,
            r matches Err(er) ==> er == LilsError::Io,
        decreases Self::depth_fuel(depth as nat, *config), 1nat,
    {
        let st = match stat_path(path) {
            Option::Some(st) => st,
            Option::None => {
                return Err(LilsError::Io);
            },
        };
        let e_type = EntryType::from_mode(st.mode);
        let times = Times {
            modified: Timestamp { sec: st.mtime_sec, nsec: st.mtime_nsec },
            created: Timestamp { sec: st.ctime_sec, nsec: st.ctime_nsec },
            access: Timestamp { sec: st.atime_sec, nsec: st.atime_nsec },
        };
        let expand = matches!(e_type, EntryType::Directory) && (depth == 0 || (
        config.filter.recurse && depth < config.filter.depth));
        let children = if expand {
            Some(Self::get_children(path, config, depth))
        } else {
            None
        };
        Ok(Self::new(path, e_type, times, children, st.uid, st.gid, st.mode))
    }

    /// Reads one directory level below `path` through the ignore-file-aware
    /// walker and builds the child entries, skipping any child that cannot
    /// be read.
    fn get_children(path: &str, config: &Config, depth: usize) -> (r: EntryChildren)
        requires
            depth == 0 || (config.filter.recurse && depth < config.filter.depth),
        ensures
            Self::children_wf(r@, (depth + 1) as nat, *config),
        decreases Self::depth_fuel(depth as nat, *config), 0nat,
    {
        let items = walk_dir(path, !config.filter.hidden, config.filter.git, Some(1));
        let mut children: EntryChildren = Vec::new();
        let mut i: usize = 0;
        while i < items.len()
            invariant
                Self::children_wf(children@, (depth + 1) as nat, *config),
                depth == 0 || (config.filter.recurse && depth < config.filter.depth),
            decreases items.len() - i,
        {
            if let Option::Some((d, p)) = &items[i] {
                if *d >= 1 {
                    match Self::create_from_path(p.as_str(), config, depth + 1) {
                        Ok(e) => {
                            children.push(Rc::new(e));
                        },
                        Err(_) => {},
                    }
                }
            }
            i = i + 1;
        }
        children
    }

    /// Builds the entry tree for one traversal root. The root is always
    /// expanded; it is an error if it cannot be read or is not a
    /// directory. The built tree satisfies the structural invariant
    /// [`Self::subtree_wf`].
    pub fn from_path(path: &str, config: &Config) -> (r: Result<Self, LilsError>)
        ensures
            r matches Ok(e) ==> e.subtree_wf(0, *config) && e.e_type is Directory
                && e.children is Some && e.name@ == file_name_of(path@) && e.path@ == path@,
            r matches Err(er) ==> er == LilsError::Io || er == LilsError::NotADirectory,
    {
        match Self::create_from_path(path, config, 0) {
            Ok(entry) => {
                if matches!(entry.e_type, EntryType::Directory) {
                    Ok(entry)
                } else {
                    Err(LilsError::NotADirectory)
                }
            },
            Err(er) => Err(er),
        }
    }

    /// The structural invariant of a built tree: throughout the subtree of
    /// an entry at `depth`, `children` is `Some` exactly for the entries
    /// that [`Self::spec_expands`] says were expanded.
    pub open spec fn subtree_wf(self, depth: nat, config: Config) -> bool
        decreases self,
    {
        &&& (self.children is Some <==> Self::spec_expands(self.e_type, depth, config))
        &&& match self.children {
            Option::Some(cs) => Self::children_wf(cs@, (depth + 1) as nat, config),
            Option::None => true,
        }
    }

    /// [`Self::subtree_wf`] for every entry of a sibling list.
    pub open spec fn children_wf(s: Seq<Rc<FsEntry>>, depth: nat, config: Config) -> bool
        decreases s,
    {
        forall|i: int|
            0 <= i < s.len() ==> (#[trigger] (*s[i]).subtree_wf(depth, config))
    }

    /// Every known directory of the subtree below `self`, excluding
    /// `self`, depth first: each expanded child followed at once by the
    /// known directories of its own subtree, then the next child.
    pub fn get_all_dirs(&self) -> (r: Vec<Rc<FsEntry>>)
        ensures
            derefs(r@) == self.spec_all_dirs(),
        decreases *self,
    {
        let mut output: Vec<Rc<FsEntry>> = Vec::new();
        if let Option::Some(c) = self.children.as_ref() {
            let mut j: usize = 0;
            proof {
                assert(c@.take(0) =~= Seq::<Rc<FsEntry>>::empty());
            }
            while j < c.len()
                invariant
                    j <= c.len(),
                    self.children == Option::Some(*c),
                    derefs(output@) == Self::spec_all_dirs_below(c@.take(j as int)),
                decreases c.len() - j,
            {
                let ghost pre = derefs(output@);
                if c[j].children.is_some() {
                    output.push(c[j].clone());
                    proof {
                        lemma_derefs_push(output@.drop_last(), c@[j as int]);
                        assert(output@.drop_last().push(c@[j as int]) =~= output@);
                        assert(pre.push(*c@[j as int]) =~= pre + Self::spec_dir_entry(
                            *c@[j as int],
                        ));
                    }
                } else {
                    proof {
                        assert(pre + Self::spec_dir_entry(*c@[j as int]) =~= pre);
                    }
                }
                proof {
                    assert(decreases_to!(*self => (*self).children));
                    assert(decreases_to!((*self).children => (*self).children->Some_0));
                    assert(decreases_to!((*self).children->Some_0 => (*self).children->Some_0@));
                    assert(decreases_to!((*self).children->Some_0@ => (*self).children->Some_0@[j as int]));
                    assert((*self).children->Some_0@[j as int] == c@[j as int]);
                    assert(decreases_to!(*self => *c@[j as int]));
                }
                let sub = c[j].get_all_dirs();
                let ghost mut base: Seq<FsEntry> = Seq::empty();
                proof {
                    base = pre + Self::spec_dir_entry(derefs(c@)[j as int]);
                    assert(derefs(c@)[j as int] == *c@[j as int]);
                }
                let mut k: usize = 0;
                while k < sub.len()
                    invariant
                        k <= sub.len(),
                        j < c.len(),
                        derefs(sub@) == (*c@[j as int]).spec_all_dirs(),
                        derefs(output@) == base + derefs(sub@).take(k as int),
                    decreases sub.len() - k,
                {
                    output.push(sub[k].clone());
                    proof {
                        lemma_derefs_push(output@.drop_last(), sub@[k as int]);
                        assert(output@.drop_last().push(sub@[k as int]) =~= output@);
                        assert(derefs(sub@).take(k + 1) =~= derefs(sub@).take(k as int).push(
                            derefs(sub@)[k as int],
                        ));
                        assert(base + derefs(sub@).take(k + 1) =~= (base + derefs(sub@).take(
                            k as int,
                        )).push(derefs(sub@)[k as int]));
                    }
                    k = k + 1;
                }
                proof {
                    assert(derefs(sub@).take(sub@.len() as int) =~= derefs(sub@));
                    lemma_all_dirs_below_take_step(c@, j as int);
                    assert(base + (*c@[j as int]).spec_all_dirs() =~= Self::spec_all_dirs_below(
                        c@.take(j + 1),
                    ));
                }
                j = j + 1;
            }
            proof {
                assert(c@.take(c@.len() as int) =~= c@);
            }
        }
        output
    }
}

/// LAW (depth sentinel): when the raw maximum-depth setting was `0`, its
/// translation by [`crate::config::spec_effective_depth`] makes the
/// traversal behave as if the depth were unbounded — with recursion on, a
/// directory at any representable depth expands, so the traversal never
/// stops on account of depth. (At the one unrepresentable depth,
/// `usize::MAX` itself, the machine limit stops it.)
pub proof fn lemma_depth_sentinel(config: Config, depth: nat)
    requires
        config.filter.recurse,
        config.filter.depth == crate::config::spec_effective_depth(0),
        depth < usize::MAX,
    ensures
        FsEntry::spec_expands(EntryType::Directory, depth, config),
{
}

/// Unrolls [`FsEntry::spec_all_dirs_below`] one child at a time from the
/// front: the directories below the first `i + 1` children are those below
/// the first `i`, then child `i` itself where it was expanded, then those
/// of child `i`'s subtree.
proof fn lemma_all_dirs_below_take_step(s: Seq<Rc<FsEntry>>, i: int)
    requires
        0 <= i < s.len(),
    ensures
        FsEntry::spec_all_dirs_below(s.take(i + 1)) == FsEntry::spec_all_dirs_below(s.take(i))
            + FsEntry::spec_dir_entry(*s[i]) + (*s[i]).spec_all_dirs(),
    decreases i,
{
    if i == 0 {
        assert(s.take(1).drop_first() =~= s.take(0));
        assert(FsEntry::spec_all_dirs_below(s.take(0)) == Seq::<FsEntry>::empty());
        assert(FsEntry::spec_all_dirs_below(s.take(1)) == FsEntry::spec_dir_entry(*s[0])
            + (*s[0]).spec_all_dirs() + FsEntry::spec_all_dirs_below(s.take(0)));
        assert(FsEntry::spec_dir_entry(*s[0]) + (*s[0]).spec_all_dirs()
            + Seq::<FsEntry>::empty() =~= Seq::<FsEntry>::empty() + FsEntry::spec_dir_entry(*s[0])
            + (*s[0]).spec_all_dirs());
    } else {
        lemma_all_dirs_below_take_step(s.drop_first(), i - 1);
        let d = s.drop_first();
        assert(s.take(i + 1).drop_first() =~= d.take(i));
        assert(s.take(i).drop_first() =~= d.take(i - 1));
        assert(d[i - 1] == s[i]);
        assert(s.take(i + 1)[0] == s[0] && s.take(i)[0] == s[0]);
        assert(FsEntry::spec_all_dirs_below(s.take(i + 1)) == FsEntry::spec_dir_entry(*s[0])
            + (*s[0]).spec_all_dirs() + FsEntry::spec_all_dirs_below(d.take(i)));
        assert(FsEntry::spec_all_dirs_below(s.take(i)) == FsEntry::spec_dir_entry(*s[0])
            + (*s[0]).spec_all_dirs() + FsEntry::spec_all_dirs_below(d.take(i - 1)));
        assert(FsEntry::spec_dir_entry(*s[0]) + (*s[0]).spec_all_dirs() + (
        FsEntry::spec_all_dirs_below(d.take(i - 1)) + FsEntry::spec_dir_entry(*s[i])
            + (*s[i]).spec_all_dirs()) =~= FsEntry::spec_all_dirs_below(s.take(i))
            + FsEntry::spec_dir_entry(*s[i]) + (*s[i]).spec_all_dirs());
    }
}

} // verus!
