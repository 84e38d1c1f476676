//! The short (grid) renderer: the sorted children of each directory laid
//! out in fixed-width columns wrapped to the terminal width.

use vstd::prelude::*;
use vstd::string::StringExecFns;

use std::rc::Rc;

use crate::config::Config;
use crate::files::{derefs, FsEntry};
use crate::output::entry::{display_name, spec_display_name};
use crate::output::long::lemma_plan_sections_push;
use crate::output::{
    build_section, columns_per_row, effective_width, render_grid, spec_columns_per_row,
    spec_display_plan, spec_grid, spec_group_plan, spec_plan_sections, spec_recurse_entries,
    spec_render, spec_render_segment, spec_section, spec_visible_len_sat, str_views, term_size,
    MultiStyled, SegView, Styled,
};
use crate::sorting::{sort, spec_sort};
use crate::style::{ls_style, spec_ls_style, Style};

verus! {

/// `n` spaces (none for a negative count).
pub open spec fn spec_spaces(n: int) -> Seq<char> {
    if n <= 0 {
        Seq::empty()
    } else {
        Seq::new(n as nat, |i: int| ' ')
    }
}

/// Builds a run of `n` spaces.
fn spaces(n: usize) -> (r: String)
    ensures
        r@ == spec_spaces(n as int),
{
    let mut out = String::new();
    let mut i: usize = 0;
    proof {
        assert(out@ =~= spec_spaces(0).take(0));
        assert(out@ =~= Seq::<char>::empty());
    }
    while i < n
        invariant
            i <= n,
            out@ == spec_spaces(n as int).take(i as int),
        decreases n - i,
    {
        out.append(" ");
        proof {
            reveal_strlit(" ");
            assert(" "@ =~= seq![' ']);
            assert(out@ =~= spec_spaces(n as int).take(i + 1));
        }
        i = i + 1;
    }
    proof {
        assert(spec_spaces(n as int).take(n as int) =~= spec_spaces(n as int));
    }
    out
}

/// Pads a composed cell on the right with spaces to `length` visible
/// characters: one more unstyled segment, empty where the cell is already
/// wide enough.
pub fn pad_right(input: &mut MultiStyled, length: usize)
    ensures
        final(input)@ == old(input)@.push(
            SegView {
                content: spec_spaces(length - spec_visible_len_sat(old(input)@)),
                style: Style::Plain,
            },
        ),
{
    let c_length = input.len();
    let n: usize = if length > c_length {
        length - c_length
    } else {
        0
    };
    let pad = spaces(n);
    input.push(Styled { content: pad, style: Style::Plain });
}

/// The display cells of a sorted sibling list, as segment lists.
pub open spec fn spec_cells(sorted: Seq<Rc<FsEntry>>, config: Config) -> Seq<Seq<SegView>> {
    Seq::new(
        sorted.len(),
        |i: int|
            spec_display_name(
                (*sorted[i]).name@,
                (*sorted[i]).e_type,
                spec_ls_style(),
                config.display.suffix,
                config.display.icons,
            ),
    )
}

/// The grid's column width: the longest cell's visible length, and at
/// least one.
pub open spec fn spec_col_width(cells: Seq<Seq<SegView>>) -> int
    decreases cells.len(),
{
    if cells.len() == 0 {
        1
    } else {
        let rest = spec_col_width(cells.drop_last());
        let l = spec_visible_len_sat(cells.last());
        if l > rest {
            l
        } else {
            rest
        }
    }
}

/// One padded, rendered grid cell: the segments rendered under the colour
/// states their styling calls saw, then spaces to the column width.
pub open spec fn spec_padded_cell(cell: Seq<SegView>, col_width: int, colors: Seq<bool>) -> Seq<
    char,
> {
    spec_render(cell, colors) + spec_spaces(col_width - spec_visible_len_sat(cell))
}

/// All padded, rendered cells, cell `i` under the colour states
/// `colors[i]`.
pub open spec fn spec_padded_cells(
    cells: Seq<Seq<SegView>>,
    col_width: int,
    colors: Seq<Seq<bool>>,
) -> Seq<Seq<char>> {
    Seq::new(cells.len(), |i: int| spec_padded_cell(cells[i], col_width, colors[i]))
}

/// Whether `colors` holds one colour state per segment of each cell.
pub open spec fn spec_cell_colors_ok(cells: Seq<Seq<SegView>>, colors: Seq<Seq<bool>>) -> bool {
    colors.len() == cells.len() && (forall|i: int|
        0 <= i < cells.len() ==> (#[trigger] colors[i]).len() == cells[i].len())
}

/// Whether `colors` fits the cells a short-format body draws for `root`
/// under `config` and the size assignment `sizes`.
pub open spec fn spec_short_colors_ok(
    root: FsEntry,
    config: Config,
    sizes: Seq<u64>,
    colors: Seq<Seq<bool>>,
) -> bool {
    match root.children {
        Option::None => true,
        Option::Some(cs) => spec_cell_colors_ok(
            spec_cells(
                spec_sort(cs@, config.sorting.mode, sizes, config.sorting.reverse),
                config,
            ),
            colors,
        ),
    }
}

/// The body of one short-format section, at a given terminal width, size
/// assignment and per-segment colour states: an unexpanded entry shows
/// just its name; an expanded directory shows its sorted children's cells
/// in a grid whose column width is the longest cell (at least one column
/// wide), with one space between cells — two when icons are shown.
pub open spec fn spec_short_display(
    root: FsEntry,
    config: Config,
    width: u16,
    sizes: Seq<u64>,
    colors: Seq<Seq<bool>>,
) -> Seq<char> {
    match root.children {
        Option::None => root.name@,
        Option::Some(cs) => {
            let sorted = spec_sort(cs@, config.sorting.mode, sizes, config.sorting.reverse);
            let cells = spec_cells(sorted, config);
            let colw = spec_col_width(cells);
            let per_row = spec_columns_per_row(width, colw as nat);
            let sep: Seq<char> = if config.display.icons {
                seq![' ', ' ']
            } else {
                seq![' ']
            };
            spec_grid(spec_padded_cells(cells, colw, colors), per_row, sep)
        },
    }
}

/// Whether `out` is a short-format body for `root`: exact for the width,
/// sizes and colour states that were read when it was built; those come
/// from the terminal, the disk and the styling collaborator's global
/// state, so they are existentially bound.
pub open spec fn spec_is_short_body(out: Seq<char>, root: FsEntry, config: Config) -> bool {
    exists|width: u16, sizes: Seq<u64>, colors: Seq<Seq<bool>>|
        width != 0 && spec_short_colors_ok(root, config, sizes, colors) && out
            == spec_short_display(root, config, width, sizes, colors)
}

/// Renders the short-format body of one section.
pub fn short_display(root: &FsEntry, config: &Config) -> (r: String)
    ensures
        spec_is_short_body(r@, *root, *config),
{
    let style = ls_style();
    let children = match root.children.as_ref() {
        Option::Some(c) => c,
        Option::None => {
            let r = root.name.clone();
            proof {
                let w: u16 = 160;
                assert(w != 0 && spec_short_colors_ok(
                    *root,
                    *config,
                    Seq::<u64>::empty(),
                    Seq::<Seq<bool>>::empty(),
                ) && r@ == spec_short_display(
                    *root,
                    *config,
                    w,
                    Seq::<u64>::empty(),
                    Seq::<Seq<bool>>::empty(),
                ));
            }
            return r;
        },
    };
    let width = effective_width(term_size());
    let files = sort(children, config.sorting.mode, config.sorting.reverse);
    let ghost sizes: Seq<u64> = if config.sorting.mode is Size {
        choose|sizes: Seq<u64>|
            sizes.len() == children@.len() && files@ == spec_sort(
                children@,
                config.sorting.mode,
                sizes,
                config.sorting.reverse,
            )
    } else {
        Seq::<u64>::empty()
    };
    let ghost cells_spec = spec_cells(files@, *config);
    let mut cells: Vec<MultiStyled> = Vec::new();
    let mut i: usize = 0;
    while i < files.len()
        invariant
            i <= files@.len(),
            style == spec_ls_style(),
            cells_spec == spec_cells(files@, *config),
            cells@.len() == i,
            forall|k: int| 0 <= k < i ==> (#[trigger] cells@[k])@ == cells_spec[k],
        decreases files@.len() - i,
    {
        let cell = display_name(&files[i], &style, config.display.suffix, config.display.icons);
        cells.push(cell);
        i = i + 1;
    }
    let mut colw: usize = 1;
    let mut j: usize = 0;
    proof {
        assert(cells_spec.take(0) =~= Seq::<Seq<SegView>>::empty());
    }
    while j < cells.len()
        invariant
            j <= cells@.len(),
            cells@.len() == cells_spec.len(),
            cells_spec == spec_cells(files@, *config),
            forall|k: int| 0 <= k < cells@.len() ==> (#[trigger] cells@[k])@ == cells_spec[k],
            colw as int == spec_col_width(cells_spec.take(j as int)),
            colw >= 1,
        decreases cells@.len() - j,
    {
        let l = cells[j].len();
        if l > colw {
            colw = l;
        }
        proof {
            assert(cells_spec.take(j + 1).drop_last() =~= cells_spec.take(j as int));
            assert(cells_spec.take(j + 1).last() == cells_spec[j as int]);
        }
        j = j + 1;
    }
    proof {
        assert(cells_spec.take(cells_spec.len() as int) =~= cells_spec);
    }
    let per_row = columns_per_row(width, colw);
    let mut padded: Vec<String> = Vec::new();
    let mut rest = cells;
    let ghost mut done: int = 0;
    let ghost mut colors_mat: Seq<Seq<bool>> = Seq::empty();
    while rest.len() > 0
        invariant
            0 <= done <= cells_spec.len(),
            rest@.len() == cells_spec.len() - done,
            colors_mat.len() == done,
            forall|t: int|
                0 <= t < done ==> (#[trigger] colors_mat[t]).len() == cells_spec[t].len(),
            forall|k: int|
                0 <= k < rest@.len() ==> (#[trigger] rest@[k])@ == cells_spec[done + k],
            str_views(padded@) == spec_padded_cells(
                cells_spec.take(done),
                colw as int,
                colors_mat,
            ),
        decreases rest@.len(),
    {
        let mut c = rest.remove(0);
        proof {
            assert(c@ == cells_spec[done]);
        }
        pad_right(&mut c, colw);
        let rendered = c.output();
        let ghost base = cells_spec[done];
        let ghost mut cell_colors: Seq<bool> = Seq::empty();
        proof {
            let padseg = SegView {
                content: spec_spaces(colw - spec_visible_len_sat(base)),
                style: Style::Plain,
            };
            assert(c@.drop_last() =~= base);
            assert(c@.last() == padseg);
            let cl = choose|cl: Seq<bool>|
                cl.len() == c@.len() && rendered@ == spec_render(c@, cl);
            assert(spec_render(c@, cl) == spec_render(base, cl.drop_last())
                + spec_render_segment(padseg, cl.last()));
            cell_colors = cl.drop_last();
            assert(cell_colors.len() == base.len());
            assert(rendered@ == spec_padded_cell(base, colw as int, cell_colors));
        }
        let ghost rv = rendered@;
        let ghost pre_padded = padded@;
        let ghost pre_colors = colors_mat;
        proof {
            assert(str_views(pre_padded).len() == pre_padded.len());
            assert(str_views(pre_padded) == spec_padded_cells(
                cells_spec.take(done),
                colw as int,
                pre_colors,
            ));
            assert(pre_padded.len() == done);
            colors_mat = colors_mat.push(cell_colors);
        }
        padded.push(rendered);
        proof {
            assert(padded@.len() == done + 1);
            assert forall|k: int| 0 <= k < done + 1 implies str_views(padded@)[k]
                == spec_padded_cells(cells_spec.take(done + 1), colw as int, colors_mat)[k] by {
                if k < done {
                    assert(str_views(pre_padded)[k] == spec_padded_cells(
                        cells_spec.take(done),
                        colw as int,
                        pre_colors,
                    )[k]);
                    assert(padded@[k] == pre_padded[k]);
                    assert(colors_mat[k] == pre_colors[k]);
                    assert(cells_spec.take(done + 1)[k] == cells_spec.take(done)[k]);
                } else {
                    assert(padded@[k]@ == rv);
                    assert(cells_spec.take(done + 1)[k] == cells_spec[done]);
                    assert(colors_mat[k] == cell_colors);
                }
            }
            assert(str_views(padded@) =~= spec_padded_cells(
                cells_spec.take(done + 1),
                colw as int,
                colors_mat,
            ));
            done = done + 1;
        }
    }
    proof {
        assert(cells_spec.take(cells_spec.len() as int) =~= cells_spec);
    }
    let sep: &str = if config.display.icons {
        "  "
    } else {
        " "
    };
    let body = render_grid(&padded, per_row, sep);
    proof {
        reveal_strlit("  ");
        reveal_strlit(" ");
        if config.display.icons {
            assert("  "@ =~= seq![' ', ' ']);
        } else {
            assert(" "@ =~= seq![' ']);
        }
        assert(width != 0 && spec_short_colors_ok(*root, *config, sizes, colors_mat) && body@
            == spec_short_display(*root, *config, width, sizes, colors_mat));
    }
    body
}

/// Renders the whole short-format listing: one section per planned entry,
/// each a header (where the listing has several sections), the grid body,
/// and the separating blank lines.
pub fn short(roots: &Vec<FsEntry>, config: &Config) -> (r: String)
    ensures
        exists|bodies: Seq<Seq<char>>|
            #![trigger spec_plan_sections(spec_display_plan(roots@, config.filter.recurse), bodies)]
            {
                let plan = spec_display_plan(roots@, config.filter.recurse);
                &&& bodies.len() == plan.len()
                &&& (forall|i: int|
                    0 <= i < plan.len() ==> spec_is_short_body(
                        #[trigger] bodies[i],
                        plan[i].0,
                        *config,
                    ))
                &&& r@ == spec_plan_sections(plan, bodies)
            },
{
    let ghost plan = spec_display_plan(roots@, config.filter.recurse);
    let mut out = String::new();
    let ghost mut bodies: Seq<Seq<char>> = Seq::empty();
    if config.filter.recurse {
        // gather every displayed directory, in plan order
        let mut all: Vec<Rc<FsEntry>> = Vec::new();
        let mut i: usize = 0;
        proof {
            assert(roots@.take(0) =~= Seq::<FsEntry>::empty());
            assert(derefs(all@) =~= spec_recurse_entries(roots@.take(0)));
        }
        while i < roots.len()
            invariant
                i <= roots@.len(),
                derefs(all@) == spec_recurse_entries(roots@.take(i as int)),
            decreases roots@.len() - i,
        {
            let mut dirs = roots[i].get_all_dirs();
            let ghost pre = derefs(all@);
            let ghost dv = derefs(dirs@);
            all.append(&mut dirs);
            proof {
                assert(derefs(all@) =~= pre + dv);
                assert(roots@.take(i + 1).drop_last() =~= roots@.take(i as int));
                assert(roots@.take(i + 1).last() == roots@[i as int]);
            }
            i = i + 1;
        }
        proof {
            assert(roots@.take(roots@.len() as int) =~= roots@);
        }
        // one section per directory, headers decided over the whole list
        let ghost entries = derefs(all@);
        let ghost gplan = spec_group_plan(entries);
        proof {
            assert(entries.len() == all@.len());
            assert(gplan == plan);
        }
        let mut k: usize = 0;
        while k < all.len()
            invariant
                k <= all@.len(),
                entries == derefs(all@),
                entries.len() == all@.len(),
                gplan == spec_group_plan(entries),
                bodies.len() == k,
                forall|t: int|
                    0 <= t < k ==> spec_is_short_body(#[trigger] bodies[t], gplan[t].0, *config),
                out@ == spec_plan_sections(gplan.take(k as int), bodies),
            decreases all@.len() - k,
        {
            let body = short_display(&all[k], config);
            let many = all.len() > 1;
            let last = k == all.len() - 1;
            let sec = build_section(body.as_str(), all[k].name.as_str(), many, last);
            out.append(sec.as_str());
            proof {
                let step = gplan[k as int];
                assert((*all@[k as int]) == entries[k as int]);
                assert(step.0 == entries[k as int] && step.1 == (entries.len() > 1) && step.2 == (
                k == entries.len() - 1));
                assert(sec@ == spec_section(body@, step.0.name@, step.1, step.2));
                let pre_bodies = bodies;
                bodies = bodies.push(body@);
                lemma_plan_sections_push(gplan.take(k as int), pre_bodies, step, body@);
                assert(gplan.take(k as int).push(step) =~= gplan.take(k + 1));
                assert(out@ == spec_plan_sections(gplan.take(k + 1), bodies));
            }
            k = k + 1;
        }
        proof {
            assert(gplan.take(gplan.len() as int) =~= gplan);
        }
    } else {
        let ghost gplan = spec_group_plan(roots@);
        let mut i: usize = 0;
        while i < roots.len()
            invariant
                i <= roots@.len(),
                gplan == spec_group_plan(roots@),
                bodies.len() == i,
                forall|k: int|
                    0 <= k < i ==> spec_is_short_body(#[trigger] bodies[k], gplan[k].0, *config),
                out@ == spec_plan_sections(gplan.take(i as int), bodies),
            decreases roots@.len() - i,
        {
            let body = short_display(&roots[i], config);
            let many = roots.len() > 1;
            let last = i == roots.len() - 1;
            let sec = build_section(body.as_str(), roots[i].name.as_str(), many, last);
            out.append(sec.as_str());
            proof {
                let step = gplan[i as int];
                assert(step.0 == roots@[i as int] && step.1 == (roots@.len() > 1) && step.2 == (
                i == roots@.len() - 1));
                assert(sec@ == spec_section(body@, step.0.name@, step.1, step.2));
                let pre_bodies = bodies;
                bodies = bodies.push(body@);
                lemma_plan_sections_push(gplan.take(i as int), pre_bodies, step, body@);
                assert(gplan.take(i as int).push(step) =~= gplan.take(i + 1));
                assert(out@ == spec_plan_sections(gplan.take(i + 1), bodies));
            }
            i = i + 1;
        }
        proof {
            assert(gplan.take(gplan.len() as int) =~= gplan);
        }
    }
    proof {
        let final_plan = spec_display_plan(roots@, config.filter.recurse);
        assert(bodies.len() == final_plan.len() && (forall|i: int|
            0 <= i < final_plan.len() ==> spec_is_short_body(
                #[trigger] bodies[i],
                final_plan[i].0,
                *config,
            )) && out@ == spec_plan_sections(final_plan, bodies));
    }
    out
}

} // verus!
