//! The styled-text composer: an ordered list of independently styled text
//! segments that is measured by its visible characters alone and rendered
//! by concatenating the styled segments. Also the small amount of terminal
//! geometry the grid renderer needs.

use vstd::prelude::*;
use vstd::string::StringExecFns;

use crate::style::{
    style_blue_bold, style_bold_underlined, style_green, style_red_bold, styled_of, Style,
};

pub mod entry;
pub mod long;
pub mod short;

pub use long::long;
pub use short::short;

verus! {

/// One independently styled run of text within a composed cell or line.
#[derive(Debug, Clone)]
pub struct Styled {
    pub content: String,
    pub style: Style,
}

/// The mathematical content of one segment: its characters and its style.
pub ghost struct SegView {
    pub content: Seq<char>,
    pub style: Style,
}

impl View for Styled {
    type V = SegView;

    open spec fn view(&self) -> SegView {
        SegView { content: self.content@, style: self.style }
    }
}

/// What one segment renders to: plain text as itself, anything else
/// through the terminal-styling collaborator under the colour state
/// `colors_on` that its styling call saw.
pub open spec fn spec_render_segment(s: SegView, colors_on: bool) -> Seq<char> {
    if s.style is Plain {
        s.content
    } else {
        styled_of(s.style, colors_on, s.content)
    }
}

/// The rendering of a segment list: each segment rendered in order, the
/// segment at `i` under colour state `colors[i]`.
pub open spec fn spec_render(segs: Seq<SegView>, colors: Seq<bool>) -> Seq<char>
    recommends
        colors.len() == segs.len(),
    decreases segs.len(),
{
    if segs.len() == 0 {
        Seq::empty()
    } else {
        spec_render(segs.drop_last(), colors.drop_last()) + spec_render_segment(
            segs.last(),
            colors.last(),
        )
    }
}

/// The rendering of a segment list none of whose segments is styled: the
/// contents concatenated, with no escape sequences and no dependence on
/// any colour state.
pub open spec fn spec_render_plain(segs: Seq<SegView>) -> Seq<char>
    decreases segs.len(),
{
    if segs.len() == 0 {
        Seq::empty()
    } else {
        spec_render_plain(segs.drop_last()) + segs.last().content
    }
}

/// Whether every segment of a list is unstyled.
pub open spec fn all_plain(segs: Seq<SegView>) -> bool {
    forall|i: int| 0 <= i < segs.len() ==> (#[trigger] segs[i]).style is Plain
}

/// An all-plain segment list renders to its contents, whatever colour
/// states its segments were rendered under.
pub proof fn lemma_render_all_plain(segs: Seq<SegView>, colors: Seq<bool>)
    requires
        all_plain(segs),
        colors.len() == segs.len(),
    ensures
        spec_render(segs, colors) == spec_render_plain(segs),
    decreases segs.len(),
{
    if segs.len() > 0 {
        assert(segs[segs.len() - 1].style is Plain);
        assert(all_plain(segs.drop_last())) by {
            assert(forall|i: int|
                0 <= i < segs.drop_last().len() ==> #[trigger] segs.drop_last()[i] == segs[i]);
        }
        lemma_render_all_plain(segs.drop_last(), colors.drop_last());
    }
}

/// Whether `out` is a rendering of `segs`: each segment rendered in order
/// under some colour state.
pub open spec fn spec_is_render(out: Seq<char>, segs: Seq<SegView>) -> bool {
    exists|colors: Seq<bool>| colors.len() == segs.len() && out == spec_render(segs, colors)
}

/// The visible length of a segment list: the characters of the contents
/// alone, with no styling overhead counted.
pub open spec fn spec_visible_len(segs: Seq<SegView>) -> nat
    decreases segs.len(),
{
    if segs.len() == 0 {
        0
    } else {
        (spec_visible_len(segs.drop_last()) + segs.last().content.len()) as nat
    }
}

/// LAW (composer length): the visible length counts content characters
/// alone — segment lists with the same contents have the same visible
/// length, whatever styles are applied.
pub proof fn lemma_visible_len_ignores_style(a: Seq<SegView>, b: Seq<SegView>)
    requires
        a.len() == b.len(),
        forall|i: int| 0 <= i < a.len() ==> (#[trigger] a[i]).content == (#[trigger] b[i]).content,
    ensures
        spec_visible_len(a) == spec_visible_len(b),
    decreases a.len(),
{
    if a.len() > 0 {
        assert(forall|i: int|
            0 <= i < a.drop_last().len() ==> (#[trigger] a.drop_last()[i]).content == (
            #[trigger] b.drop_last()[i]).content);
        lemma_visible_len_ignores_style(a.drop_last(), b.drop_last());
        assert(a.last().content == b.last().content);
    }
}

/// [`spec_visible_len`] clamped to what a `usize` can report.
pub open spec fn spec_visible_len_sat(segs: Seq<SegView>) -> int {
    if spec_visible_len(segs) <= usize::MAX {
        spec_visible_len(segs) as int
    } else {
        usize::MAX as int
    }
}

/// Renders one segment.
fn render_segment(s: &Styled) -> (r: String)
    ensures
        exists|colors_on: bool| r@ == spec_render_segment(s@, colors_on),
{
    match s.style {
        Style::Plain => {
            let r = s.content.clone();
            proof {
                assert(r@ == spec_render_segment(s@, true));
            }
            r
        },
        Style::BlueBold => {
            let r = style_blue_bold(s.content.as_str());
            proof {
                let c = choose|c: bool| r@ == styled_of(Style::BlueBold, c, s.content@);
                assert(r@ == spec_render_segment(s@, c));
            }
            r
        },
        Style::Green => {
            let r = style_green(s.content.as_str());
            proof {
                let c = choose|c: bool| r@ == styled_of(Style::Green, c, s.content@);
                assert(r@ == spec_render_segment(s@, c));
            }
            r
        },
        Style::RedBold => {
            let r = style_red_bold(s.content.as_str());
            proof {
                let c = choose|c: bool| r@ == styled_of(Style::RedBold, c, s.content@);
                assert(r@ == spec_render_segment(s@, c));
            }
            r
        },
        Style::BoldUnderlined => {
            let r = style_bold_underlined(s.content.as_str());
            proof {
                assert(r@ == spec_render_segment(s@, true));
            }
            r
        },
    }
}

/// An ordered list of independently styled text segments: one composed
/// cell or line of output.
#[derive(Debug)]
pub struct MultiStyled {
    sections: Vec<Styled>,
}

impl View for MultiStyled {
    type V = Seq<SegView>;

    closed spec fn view(&self) -> Seq<SegView> {
        Seq::new(self.sections@.len(), |i: int| self.sections@[i]@)
    }
}

impl MultiStyled {
    /// An empty composition.
    pub fn new() -> (r: Self)
        ensures
            r@ == Seq::<SegView>::empty(),
    {
        let r = MultiStyled { sections: Vec::new() };
        proof {
            assert(r@ =~= Seq::<SegView>::empty());
        }
        r
    }

    /// This composition with one more segment at the end.
    pub fn with(self, content: Styled) -> (r: Self)
        ensures
            r@ == self@.push(content@),
    {
        let ghost pre = self@;
        let mut s = self;
        s.sections.push(content);
        proof {
            assert(s@ =~= pre.push(content@));
        }
        s
    }

    /// Appends a segment.
    pub fn push(&mut self, content: Styled)
        ensures
            final(self)@ == old(self)@.push(content@),
    {
        self.sections.push(content);
        proof {
            assert(self@ =~= old(self)@.push(content@));
        }
    }

    /// Inserts a segment at `index`, shifting the rest to the right.
    pub fn insert(&mut self, index: usize, content: Styled)
        requires
            index <= old(self)@.len(),
        ensures
            final(self)@ == old(self)@.insert(index as int, content@),
    {
        self.sections.insert(index, content);
        proof {
            assert(self@ =~= old(self)@.insert(index as int, content@));
        }
    }

    /// The segment at `index`, if there is one.
    pub fn section(&self, index: usize) -> (r: Option<&Styled>)
        ensures
            index < self@.len() ==> (r matches Some(s) && s@ == self@[index as int]),
            index >= self@.len() ==> r is None,
    {
        if index < self.sections.len() {
            Some(&self.sections[index])
        } else {
            None
        }
    }

    /// The composed text: every segment rendered with its styling, in
    /// order, each under the colour state its styling call saw.
    pub fn output(&self) -> (r: String)
        ensures
            spec_is_render(r@, self@),
    {
        let mut out = String::new();
        let mut i: usize = 0;
        let ghost mut colors: Seq<bool> = Seq::empty();
        while i < self.sections.len()
            invariant
                i <= self@.len(),
                self@.len() == self.sections@.len(),
                colors.len() == i,
                out@ == spec_render(self@.take(i as int), colors),
            decreases self@.len() - i,
        {
            let seg = render_segment(&self.sections[i]);
            out.append(seg.as_str());
            proof {
                let c = choose|c: bool| seg@ == spec_render_segment(self@[i as int], c);
                let pre = colors;
                colors = colors.push(c);
                assert(self@.take(i + 1).drop_last() =~= self@.take(i as int));
                assert(self@.take(i + 1).last() == self@[i as int]);
                assert(colors.drop_last() =~= pre);
                assert(colors.last() == c);
            }
            i = i + 1;
        }
        proof {
            assert(self@.take(self@.len() as int) =~= self@);
            assert(colors.len() == self@.len() && out@ == spec_render(self@, colors));
        }
        out
    }

    /// The visible length: the sum of the segments' content lengths, with
    /// no styling overhead counted, clamped to what a `usize` can report.
    pub fn len(&self) -> (r: usize)
        ensures
            r == spec_visible_len_sat(self@),
    {
        let mut total: usize = 0;
        let mut i: usize = 0;
        while i < self.sections.len()
            invariant
                i <= self@.len(),
                self@.len() == self.sections@.len(),
                total == spec_visible_len_sat(self@.take(i as int)),
            decreases self@.len() - i,
        {
            let l = self.sections[i].content.as_str().unicode_len();
            total = if total <= usize::MAX - l {
                total + l
            } else {
                usize::MAX
            };
            proof {
                assert(self@.take(i + 1).drop_last() =~= self@.take(i as int));
                assert(self@.take(i + 1).last() == self@[i as int]);
            }
            i = i + 1;
        }
        proof {
            assert(self@.take(self@.len() as int) =~= self@);
        }
        total
    }
}

/// The views of a list of strings.
pub open spec fn str_views(s: Seq<String>) -> Seq<Seq<char>> {
    Seq::new(s.len(), |i: int| s[i]@)
}

/// `parts` joined with `sep` between neighbours (and no trailing
/// separator).
pub open spec fn spec_join(parts: Seq<Seq<char>>, sep: Seq<char>) -> Seq<char>
    decreases parts.len(),
{
    if parts.len() == 0 {
        Seq::empty()
    } else if parts.len() == 1 {
        parts[0]
    } else {
        spec_join(parts.drop_last(), sep) + sep + parts.last()
    }
}

/// `parts` concatenated in order.
pub open spec fn spec_concat(parts: Seq<Seq<char>>) -> Seq<char>
    decreases parts.len(),
{
    if parts.len() == 0 {
        Seq::empty()
    } else {
        spec_concat(parts.drop_last()) + parts.last()
    }
}

/// Joins `parts[from..to]` with `sep` between neighbours.
pub fn join_range(parts: &Vec<String>, from: usize, to: usize, sep: &str) -> (r: String)
    requires
        from <= to <= parts@.len(),
    ensures
        r@ == spec_join(str_views(parts@).subrange(from as int, to as int), sep@),
{
    let ghost views = str_views(parts@);
    let mut out = String::new();
    let mut j: usize = from;
    proof {
        assert(views.subrange(from as int, from as int) =~= Seq::<Seq<char>>::empty());
    }
    while j < to
        invariant
            from <= j <= to <= parts@.len(),
            views == str_views(parts@),
            out@ == spec_join(views.subrange(from as int, j as int), sep@),
        decreases to - j,
    {
        if j > from {
            out.append(sep);
        }
        out.append(parts[j].as_str());
        proof {
            let sub = views.subrange(from as int, j + 1);
            assert(sub.drop_last() =~= views.subrange(from as int, j as int));
            assert(sub.last() == views[j as int]);
        }
        j = j + 1;
    }
    out
}

/// The grid text for rendered, padded cells: rows of `per_row` cells, the
/// cells of a row joined with `sep`, the rows joined with line breaks.
pub open spec fn spec_grid(cells: Seq<Seq<char>>, per_row: nat, sep: Seq<char>) -> Seq<char>
    recommends
        per_row >= 1,
    decreases cells.len(),
{
    if cells.len() == 0 {
        Seq::empty()
    } else if cells.len() <= per_row || per_row == 0 {
        spec_join(cells, sep)
    } else {
        spec_join(cells.take(per_row as int), sep) + seq!['\n'] + spec_grid(
            cells.skip(per_row as int),
            per_row,
            sep,
        )
    }
}

/// Lays rendered, padded cells out as grid text.
pub fn render_grid(cells: &Vec<String>, per_row: usize, sep: &str) -> (r: String)
    requires
        per_row >= 1,
    ensures
        r@ == spec_grid(str_views(cells@), per_row as nat, sep@),
{
    let ghost views = str_views(cells@);
    let mut out = String::new();
    let mut i: usize = 0;
    proof {
        reveal_strlit("\n");
    }
    while i < cells.len()
        invariant
            per_row >= 1,
            i <= cells@.len(),
            views == str_views(cells@),
            i == 0 ==> out@ == Seq::<char>::empty(),
            0 < i < cells@.len() ==> spec_grid(views, per_row as nat, sep@) == out@ + seq!['\n']
                + spec_grid(views.skip(i as int), per_row as nat, sep@),
            i == cells@.len() && i > 0 ==> spec_grid(views, per_row as nat, sep@) == out@,
        decreases cells@.len() - i,
    {
        let end = if cells.len() - i <= per_row {
            cells.len()
        } else {
            i + per_row
        };
        let row = join_range(cells, i, end, sep);
        let ghost pre = out@;
        if i > 0 {
            out.append("\n");
        }
        out.append(row.as_str());
        proof {
            reveal_strlit("\n");
            assert("\n"@ =~= seq!['\n']);
            let g = |s: Seq<Seq<char>>| spec_grid(s, per_row as nat, sep@);
            let rest = views.skip(i as int);
            assert(views.skip(0) =~= views);
            if rest.len() <= per_row {
                // the final chunk: the rest renders as one joined row
                assert(rest =~= views.subrange(i as int, end as int));
                assert(g(rest) == spec_join(rest, sep@));
                assert(row@ == g(rest));
                if i == 0 {
                    assert(out@ =~= g(views));
                } else {
                    assert(g(views) == pre + seq!['\n'] + g(rest));
                    assert(out@ =~= pre + seq!['\n'] + g(rest));
                }
            } else {
                // a full row, with more cells to come
                assert(rest.take(per_row as int) =~= views.subrange(i as int, end as int));
                assert(rest.skip(per_row as int) =~= views.skip(end as int));
                assert(g(rest) == row@ + seq!['\n'] + g(views.skip(end as int)));
                if i == 0 {
                    assert(out@ =~= row@);
                    assert(g(views) == out@ + seq!['\n'] + g(views.skip(end as int)));
                } else {
                    assert(g(views) == pre + seq!['\n'] + g(rest));
                    assert(out@ =~= pre + seq!['\n'] + row@);
                    assert(pre + seq!['\n'] + (row@ + seq!['\n'] + g(views.skip(end as int)))
                        =~= out@ + seq!['\n'] + g(views.skip(end as int)));
                }
            }
        }
        i = end;
    }
    proof {
        if cells@.len() == 0 {
            assert(spec_grid(views, per_row as nat, sep@) == Seq::<char>::empty());
        }
    }
    out
}

/// The header line of a section: the directory's name set bold and
/// underlined, a colon, and a line break. This style uses attributes
/// only, which the styling collaborator writes whatever its colour state,
/// so one state stands for all of them here.
pub open spec fn spec_header(name: Seq<char>) -> Seq<char> {
    styled_of(Style::BoldUnderlined, true, name) + seq![':', '\n']
}

/// One renderer section: a header where the listing has several sections,
/// the section's body, a closing line break, and a separating blank line
/// everywhere but after the last section.
pub open spec fn spec_section(body: Seq<char>, name: Seq<char>, many: bool, last: bool) -> Seq<
    char,
> {
    (if many {
        spec_header(name)
    } else {
        Seq::empty()
    }) + body + seq!['\n'] + (if !last {
        seq!['\n']
    } else {
        Seq::empty()
    })
}

/// Wraps a section body with its header and separators.
pub fn build_section(body: &str, name: &str, many: bool, last: bool) -> (r: String)
    ensures
        r@ == spec_section(body@, name@, many, last),
{
    proof {
        reveal_strlit(":\n");
        reveal_strlit("\n");
    }
    let mut out = String::new();
    if many {
        let styled = crate::style::style_bold_underlined(name);
        out.append(styled.as_str());
        out.append(":\n");
    }
    out.append(body);
    out.append("\n");
    if !last {
        out.append("\n");
    }
    proof {
        assert(seq![':', '\n'] =~= ":\n"@);
        assert(seq!['\n'] =~= "\n"@);
    }
    out
}

/// One planned section per displayed entry: each entry together with
/// whether the listing prints headers (it has more than one section in
/// all) and whether this entry closes the whole listing.
pub open spec fn spec_group_plan(group: Seq<crate::files::FsEntry>) -> Seq<
    (crate::files::FsEntry, bool, bool),
> {
    Seq::new(group.len(), |i: int| (group[i], group.len() > 1, i == group.len() - 1))
}

/// The entries a recursive listing displays: for each root in turn, every
/// known directory below it.
pub open spec fn spec_recurse_entries(roots: Seq<crate::files::FsEntry>) -> Seq<
    crate::files::FsEntry,
>
    decreases roots.len(),
{
    if roots.len() == 0 {
        Seq::empty()
    } else {
        spec_recurse_entries(roots.drop_last()) + roots.last().spec_all_dirs()
    }
}

/// The entries a renderer displays: the roots themselves, or, with
/// recursion, every known directory below each root.
pub open spec fn spec_display_entries(roots: Seq<crate::files::FsEntry>, recurse: bool) -> Seq<
    crate::files::FsEntry,
> {
    if recurse {
        spec_recurse_entries(roots)
    } else {
        roots
    }
}

/// The display plan of a renderer: one section per displayed entry, with
/// headers and the closing flag decided over the whole listing.
pub open spec fn spec_display_plan(roots: Seq<crate::files::FsEntry>, recurse: bool) -> Seq<
    (crate::files::FsEntry, bool, bool),
> {
    spec_group_plan(spec_display_entries(roots, recurse))
}

/// The concatenation of the planned sections, given the body text of each.
pub open spec fn spec_plan_sections(
    plan: Seq<(crate::files::FsEntry, bool, bool)>,
    bodies: Seq<Seq<char>>,
) -> Seq<char>
    recommends
        plan.len() == bodies.len(),
    decreases plan.len(),
{
    if plan.len() == 0 {
        Seq::empty()
    } else {
        spec_plan_sections(plan.drop_last(), bodies.drop_last()) + spec_section(
            bodies.last(),
            plan.last().0.name@,
            plan.last().1,
            plan.last().2,
        )
    }
}

/// Relies on crossterm::terminal::size: the terminal's current width and
/// height in cells, or `None` where they cannot be determined. The result
/// depends on the terminal, so nothing is promised of it.
#[verifier::external_body]
pub(crate) fn term_size() -> (r: Option<(u16, u16)>) {
    match crossterm::terminal::size() {
        Ok(wh) => Some(wh),
        Err(_) => None,
    }
}

/// The width the grid renderer works with: the reported width, or the
/// default 160 columns where no width was reported or the report was zero.
pub open spec fn spec_effective_width(size: Option<(u16, u16)>) -> u16 {
    match size {
        Option::Some((w, _h)) => if w == 0 {
            160
        } else {
            w
        },
        Option::None => 160,
    }
}

/// Picks the terminal width to lay the grid out in: the reported width,
/// with 160 as the fallback for an unknown or zero report.
pub fn effective_width(size: Option<(u16, u16)>) -> (r: u16)
    ensures
        r == spec_effective_width(size),
        r != 0,
{
    match size {
        Option::Some((w, _h)) => if w == 0 {
            160
        } else {
            w
        },
        Option::None => 160,
    }
}

/// How many cells of width `col_width` fit in a row of `width` columns:
/// the integer quotient, and at least one.
pub open spec fn spec_columns_per_row(width: u16, col_width: nat) -> nat
    recommends
        col_width >= 1,
{
    let q = (width as nat) / col_width;
    if q == 0 {
        1nat
    } else {
        q
    }
}

/// The grid's column count for a terminal width and a column width.
pub fn columns_per_row(width: u16, col_width: usize) -> (r: usize)
    requires
        col_width >= 1,
    ensures
        r == spec_columns_per_row(width, col_width as nat),
        r >= 1,
{
    let q = width as usize / col_width;
    if q == 0 {
        1
    } else {
        q
    }
}

} // verus!
