//! The long (detail) renderer: one line per entry, made of a type glyph
//! and the three POSIX permission triads, each part independently styled.

use vstd::prelude::*;
use vstd::string::StringExecFns;

use std::rc::Rc;

use crate::config::Config;
use crate::files::{derefs, EntryType, FileType, FsEntry};
use crate::output::{
    all_plain, build_section, lemma_render_all_plain, spec_display_plan, spec_group_plan,
    spec_join, spec_plan_sections, spec_recurse_entries, spec_render, spec_render_plain,
    spec_section, str_views, MultiStyled, SegView, Styled,
};
use crate::sorting::{sort, spec_sort};
use crate::style::{ls_style, spec_ls_style, LilsStyle, Style};

verus! {

/// The owner triad's read, write and execute mode bits.
pub const MODE_OWNER_READ: u32 = 0o400;

pub const MODE_OWNER_WRITE: u32 = 0o200;

pub const MODE_OWNER_EXEC: u32 = 0o100;

/// The group triad's mode bits.
pub const MODE_GROUP_READ: u32 = 0o40;

pub const MODE_GROUP_WRITE: u32 = 0o20;

pub const MODE_GROUP_EXEC: u32 = 0o10;

/// The other-users triad's mode bits.
pub const MODE_OTHER_READ: u32 = 0o4;

pub const MODE_OTHER_WRITE: u32 = 0o2;

pub const MODE_OTHER_EXEC: u32 = 0o1;

/// The one-character type glyph of the long format: `d` directory, `*`
/// executable, `-` other file, `s` socket, `l` symlink.
pub open spec fn spec_type_glyph(e_type: EntryType) -> char {
    match e_type {
        EntryType::Directory => 'd',
        EntryType::File(FileType::Executable) => '*',
        EntryType::File(FileType::Text) => '-',
        EntryType::Socket => 's',
        EntryType::Symlink => 'l',
    }
}

/// The three characters of one permission triad: `r`, `w` and `x` for the
/// granted bits, `-` for the others.
pub open spec fn spec_permission_chars(read: bool, write: bool, exec: bool) -> Seq<char> {
    seq![
        if read {
            'r'
        } else {
            '-'
        },
        if write {
            'w'
        } else {
            '-'
        },
        if exec {
            'x'
        } else {
            '-'
        },
    ]
}

/// Builds one permission triad.
pub fn get_permission_chars(read: bool, write: bool, exec: bool) -> (r: [char; 3])
    ensures
        r@ == spec_permission_chars(read, write, exec),
{
    let rc: char = if read {
        'r'
    } else {
        '-'
    };
    let wc: char = if write {
        'w'
    } else {
        '-'
    };
    let xc: char = if exec {
        'x'
    } else {
        '-'
    };
    let out: [char; 3] = [rc, wc, xc];
    proof {
        assert(out@ =~= spec_permission_chars(read, write, exec));
    }
    out
}

/// One permission triad as text.
fn triad_str(read: bool, write: bool, exec: bool) -> (r: &'static str)
    ensures
        r@ == spec_permission_chars(read, write, exec),
{
    proof {
        reveal_strlit("rwx");
        reveal_strlit("rw-");
        reveal_strlit("r-x");
        reveal_strlit("r--");
        reveal_strlit("-wx");
        reveal_strlit("-w-");
        reveal_strlit("--x");
        reveal_strlit("---");
    }
    if read {
        if write {
            if exec {
                "rwx"
            } else {
                "rw-"
            }
        } else {
            if exec {
                "r-x"
            } else {
                "r--"
            }
        }
    } else {
        if write {
            if exec {
                "-wx"
            } else {
                "-w-"
            }
        } else {
            if exec {
                "--x"
            } else {
                "---"
            }
        }
    }
}

/// The type glyph as text.
fn type_glyph_str(e_type: EntryType) -> (r: &'static str)
    ensures
        r@ == seq![spec_type_glyph(e_type)],
{
    proof {
        reveal_strlit("d");
        reveal_strlit("*");
        reveal_strlit("-");
        reveal_strlit("s");
        reveal_strlit("l");
    }
    match e_type {
        EntryType::Directory => "d",
        EntryType::File(FileType::Executable) => "*",
        EntryType::File(FileType::Text) => "-",
        EntryType::Socket => "s",
        EntryType::Symlink => "l",
    }
}

/// The segments of one long-format line for an entry with kind `e_type`
/// and raw mode bits `mode`: the type glyph, a vertical bar, and the
/// owner, group and other triads separated by bullets, each part styled
/// by the permission styles of `style`.
pub open spec fn spec_permission_segments(e_type: EntryType, mode: u32, style: LilsStyle) -> Seq<
    SegView,
> {
    seq![
        SegView { content: seq![spec_type_glyph(e_type)], style: style.permissions.f_type },
        SegView { content: seq!['\u{2503}'], style: Style::Plain },
        SegView {
            content: spec_permission_chars(
                mode & MODE_OWNER_READ != 0,
                mode & MODE_OWNER_WRITE != 0,
                mode & MODE_OWNER_EXEC != 0,
            ),
            style: style.permissions.owner,
        },
        SegView { content: seq!['\u{2022}'], style: Style::Plain },
        SegView {
            content: spec_permission_chars(
                mode & MODE_GROUP_READ != 0,
                mode & MODE_GROUP_WRITE != 0,
                mode & MODE_GROUP_EXEC != 0,
            ),
            style: style.permissions.group,
        },
        SegView { content: seq!['\u{2022}'], style: Style::Plain },
        SegView {
            content: spec_permission_chars(
                mode & MODE_OTHER_READ != 0,
                mode & MODE_OTHER_WRITE != 0,
                mode & MODE_OTHER_EXEC != 0,
            ),
            style: style.permissions.other,
        },
    ]
}

/// Composes the permission part of one long-format line.
pub fn get_permission_string(entry: &FsEntry, style: &LilsStyle) -> (r: MultiStyled)
    ensures
        r@ == spec_permission_segments(entry.e_type, entry.perms, *style),
{
    proof {
        reveal_strlit("\u{2503}");
        reveal_strlit("\u{2022}");
        assert("\u{2503}"@ =~= seq!['\u{2503}']);
        assert("\u{2022}"@ =~= seq!['\u{2022}']);
    }
    let mode = entry.perms;
    let owner = triad_str(
        mode & MODE_OWNER_READ != 0,
        mode & MODE_OWNER_WRITE != 0,
        mode & MODE_OWNER_EXEC != 0,
    );
    let group = triad_str(
        mode & MODE_GROUP_READ != 0,
        mode & MODE_GROUP_WRITE != 0,
        mode & MODE_GROUP_EXEC != 0,
    );
    let other = triad_str(
        mode & MODE_OTHER_READ != 0,
        mode & MODE_OTHER_WRITE != 0,
        mode & MODE_OTHER_EXEC != 0,
    );
    let mut out = MultiStyled::new();
    out.push(
        Styled { content: type_glyph_str(entry.e_type).to_owned(), style: style.permissions.f_type },
    );
    out.push(Styled { content: "\u{2503}".to_owned(), style: Style::Plain });
    out.push(Styled { content: owner.to_owned(), style: style.permissions.owner });
    out.push(Styled { content: "\u{2022}".to_owned(), style: Style::Plain });
    out.push(Styled { content: group.to_owned(), style: style.permissions.group });
    out.push(Styled { content: "\u{2022}".to_owned(), style: Style::Plain });
    out.push(Styled { content: other.to_owned(), style: style.permissions.other });
    proof {
        assert(out@ =~= spec_permission_segments(entry.e_type, entry.perms, *style));
    }
    out
}

/// One long-format line: the rendering of the permission segments under
/// the listing's style sheet, whose permission styles are all unstyled —
/// so the line is the plain concatenation of the segment contents.
pub open spec fn spec_long_line(e: FsEntry) -> Seq<char> {
    spec_render_plain(spec_permission_segments(e.e_type, e.perms, spec_ls_style()))
}

/// The long-format lines of a sorted sibling list.
pub open spec fn spec_long_lines(sorted: Seq<Rc<FsEntry>>) -> Seq<Seq<char>> {
    Seq::new(sorted.len(), |i: int| spec_long_line(*sorted[i]))
}

/// The body of one long-format section: an unexpanded entry shows just
/// its name; an expanded directory shows one line per sorted child.
pub open spec fn spec_long_display(
    root: FsEntry,
    config: Config,
    sizes: Seq<u64>,
) -> Seq<char> {
    match root.children {
        Option::None => root.name@,
        Option::Some(cs) => spec_join(
            spec_long_lines(spec_sort(cs@, config.sorting.mode, sizes, config.sorting.reverse)),
            seq!['\n'],
        ),
    }
}

/// Whether `out` is a long-format body for `root`: exact for every mode,
/// with the sizes existentially bound because Size mode reads them from
/// the filesystem at call time.
pub open spec fn spec_is_long_body(out: Seq<char>, root: FsEntry, config: Config) -> bool {
    exists|sizes: Seq<u64>| out == spec_long_display(root, config, sizes)
}

/// Renders the long-format body of one section.
pub fn long_display(root: &FsEntry, config: &Config) -> (r: String)
    ensures
        spec_is_long_body(r@, *root, *config),
{
    proof {
        reveal_strlit("\n");
    }
    let style = ls_style();
    let children = match root.children.as_ref() {
        Option::Some(c) => c,
        Option::None => {
            let r = root.name.clone();
            proof {
                assert(r@ == spec_long_display(*root, *config, Seq::<u64>::empty()));
            }
            return r;
        },
    };
    let files = sort(children, config.sorting.mode, config.sorting.reverse);
    let ghost sizes: Seq<u64> = if config.sorting.mode is Size {
        choose|sizes: Seq<u64>|
            sizes.len() == children@.len() && files@ == spec_sort(
                children@,
                config.sorting.mode,
                sizes,
                config.sorting.reverse,
            )
    } else {
        Seq::<u64>::empty()
    };
    let ghost lines_spec = spec_long_lines(files@);
    let mut lines: Vec<String> = Vec::new();
    let mut i: usize = 0;
    proof {
        assert(str_views(lines@) =~= lines_spec.take(0));
    }
    while i < files.len()
        invariant
            i <= files@.len(),
            style == spec_ls_style(),
            lines_spec == spec_long_lines(files@),
            str_views(lines@) == lines_spec.take(i as int),
        decreases files@.len() - i,
    {
        let composed = get_permission_string(&files[i], &style);
        let line = composed.output();
        proof {
            let segs = spec_permission_segments(
                (*files@[i as int]).e_type,
                (*files@[i as int]).perms,
                spec_ls_style(),
            );
            assert(composed@ == segs);
            assert(segs.len() == 7);
            assert(all_plain(segs)) by {
                assert(segs[0].style is Plain && segs[1].style is Plain && segs[2].style is Plain
                    && segs[3].style is Plain && segs[4].style is Plain && segs[5].style is Plain
                    && segs[6].style is Plain);
            }
            let cl = choose|cl: Seq<bool>|
                cl.len() == composed@.len() && line@ == spec_render(composed@, cl);
            lemma_render_all_plain(segs, cl);
            assert(line@ == spec_render_plain(segs));
            assert(line@ == lines_spec[i as int]);
        }
        let ghost lv = line@;
        let ghost pre_lines = lines@;
        proof {
            assert(lines_spec.len() == files@.len());
            assert(str_views(pre_lines).len() == pre_lines.len());
            assert(str_views(pre_lines) == lines_spec.take(i as int));
            assert(pre_lines.len() == i);
        }
        lines.push(line);
        proof {
            assert(lines@.len() == i + 1);
            assert forall|k: int| 0 <= k < i + 1 implies str_views(lines@)[k] == lines_spec.take(
                i + 1,
            )[k] by {
                if k < i {
                    assert(str_views(pre_lines)[k] == lines_spec.take(i as int)[k]);
                    assert(lines@[k] == pre_lines[k]);
                } else {
                    assert(lines@[k]@ == lv);
                }
            }
            assert(str_views(lines@) =~= lines_spec.take(i + 1));
        }
        i = i + 1;
    }
    let body = crate::output::join_range(&lines, 0, lines.len(), "\n");
    proof {
        assert(str_views(lines@).subrange(0, lines@.len() as int) =~= lines_spec);
        assert("\n"@ =~= seq!['\n']);
        assert(body@ == spec_long_display(*root, *config, sizes));
    }
    body
}

/// Renders the whole long-format listing: one section per planned entry,
/// each a header (where the group has several sections), the long body,
/// and the separating blank lines.
pub fn long(roots: &Vec<FsEntry>, config: &Config) -> (r: String)
    ensures
        exists|bodies: Seq<Seq<char>>|
            #![trigger spec_plan_sections(spec_display_plan(roots@, config.filter.recurse), bodies)]
            {
                let plan = spec_display_plan(roots@, config.filter.recurse);
                &&& bodies.len() == plan.len()
                &&& (forall|i: int|
                    0 <= i < plan.len() ==> spec_is_long_body(
                        #[trigger] bodies[i],
                        plan[i].0,
                        *config,
                    ))
                &&& r@ == spec_plan_sections(plan, bodies)
            },
{
    let ghost plan = spec_display_plan(roots@, config.filter.recurse);
    let mut out = String::new();
    let ghost mut bodies: Seq<Seq<char>> = Seq::empty();
    if config.filter.recurse {
        // gather every displayed directory, in plan order
        let mut all: Vec<Rc<FsEntry>> = Vec::new();
        let mut i: usize = 0;
        proof {
            assert(roots@.take(0) =~= Seq::<FsEntry>::empty());
            assert(derefs(all@) =~= spec_recurse_entries(roots@.take(0)));
        }
        while i < roots.len()
            invariant
                i <= roots@.len(),
                derefs(all@) == spec_recurse_entries(roots@.take(i as int)),
            decreases roots@.len() - i,
        {
            let mut dirs = roots[i].get_all_dirs();
            let ghost pre = derefs(all@);
            let ghost dv = derefs(dirs@);
            all.append(&mut dirs);
            proof {
                assert(derefs(all@) =~= pre + dv);
                assert(roots@.take(i + 1).drop_last() =~= roots@.take(i as int));
                assert(roots@.take(i + 1).last() == roots@[i as int]);
            }
            i = i + 1;
        }
        proof {
            assert(roots@.take(roots@.len() as int) =~= roots@);
        }
        // one section per directory, headers decided over the whole list
        let ghost entries = derefs(all@);
        let ghost gplan = spec_group_plan(entries);
        proof {
            assert(entries.len() == all@.len());
            assert(gplan == plan);
        }
        let mut k: usize = 0;
        while k < all.len()
            invariant
                k <= all@.len(),
                entries == derefs(all@),
                entries.len() == all@.len(),
                gplan == spec_group_plan(entries),
                bodies.len() == k,
                forall|t: int|
                    0 <= t < k ==> spec_is_long_body(#[trigger] bodies[t], gplan[t].0, *config),
                out@ == spec_plan_sections(gplan.take(k as int), bodies),
            decreases all@.len() - k,
        {
            let body = long_display(&all[k], config);
            let many = all.len() > 1;
            let last = k == all.len() - 1;
            let sec = build_section(body.as_str(), all[k].name.as_str(), many, last);
            out.append(sec.as_str());
            proof {
                let step = gplan[k as int];
                assert((*all@[k as int]) == entries[k as int]);
                assert(step.0 == entries[k as int] && step.1 == (entries.len() > 1) && step.2 == (
                k == entries.len() - 1));
                assert(sec@ == spec_section(body@, step.0.name@, step.1, step.2));
                let pre_bodies = bodies;
                bodies = bodies.push(body@);
                lemma_plan_sections_push(gplan.take(k as int), pre_bodies, step, body@);
                assert(gplan.take(k as int).push(step) =~= gplan.take(k + 1));
                assert(out@ == spec_plan_sections(gplan.take(k + 1), bodies));
            }
            k = k + 1;
        }
        proof {
            assert(gplan.take(gplan.len() as int) =~= gplan);
        }
    } else {
        let ghost gplan = spec_group_plan(roots@);
        let mut i: usize = 0;
        while i < roots.len()
            invariant
                i <= roots@.len(),
                gplan == spec_group_plan(roots@),
                bodies.len() == i,
                forall|k: int|
                    0 <= k < i ==> spec_is_long_body(#[trigger] bodies[k], gplan[k].0, *config),
                out@ == spec_plan_sections(gplan.take(i as int), bodies),
            decreases roots@.len() - i,
        {
            let body = long_display(&roots[i], config);
            let many = roots.len() > 1;
            let last = i == roots.len() - 1;
            let sec = build_section(body.as_str(), roots[i].name.as_str(), many, last);
            out.append(sec.as_str());
            proof {
                let step = gplan[i as int];
                assert(step.0 == roots@[i as int] && step.1 == (roots@.len() > 1) && step.2 == (
                i == roots@.len() - 1));
                assert(sec@ == spec_section(body@, step.0.name@, step.1, step.2));
                let pre_bodies = bodies;
                bodies = bodies.push(body@);
                lemma_plan_sections_push(gplan.take(i as int), pre_bodies, step, body@);
                assert(gplan.take(i as int).push(step) =~= gplan.take(i + 1));
                assert(out@ == spec_plan_sections(gplan.take(i + 1), bodies));
            }
            i = i + 1;
        }
        proof {
            assert(gplan.take(gplan.len() as int) =~= gplan);
        }
    }
    proof {
        let final_plan = spec_display_plan(roots@, config.filter.recurse);
        assert(bodies.len() == final_plan.len() && (forall|i: int|
            0 <= i < final_plan.len() ==> spec_is_long_body(
                #[trigger] bodies[i],
                final_plan[i].0,
                *config,
            )) && out@ == spec_plan_sections(final_plan, bodies));
    }
    out
}

/// Extends a planned-sections concatenation by one section.
pub(crate) proof fn lemma_plan_sections_push(
    plan: Seq<(FsEntry, bool, bool)>,
    bodies: Seq<Seq<char>>,
    step: (FsEntry, bool, bool),
    body: Seq<char>,
)
    ensures
        spec_plan_sections(plan.push(step), bodies.push(body)) == spec_plan_sections(plan, bodies)
            + spec_section(body, step.0.name@, step.1, step.2),
{
    assert(plan.push(step).drop_last() =~= plan);
    assert(bodies.push(body).drop_last() =~= bodies);
}

} // verus!
