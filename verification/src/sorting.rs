//! The sort engine: orders a flat list of sibling entries by one of several
//! keys, optionally reversed, without mutating its input.

use vstd::prelude::*;
use std::rc::Rc;

use crate::files::{stat_path, walk_dir, EntryChildren, EntryType, FsEntry, Timestamp};

verus! {

/// The sort key. `Unsorted` keeps the order in which the traversal produced
/// the siblings (directory-read order).
#[derive(Debug, Clone, Copy, PartialEq, Eq, Structural)]
pub enum SortingMode {
    Time,
    Name,
    Size,
    Unsorted,
}

/// The bytes of the locale-naive lowercase fold of a string: a function of
/// the characters alone.
pub uninterp spec fn lower_bytes_of(s: Seq<char>) -> Seq<u8>;

/// Relies on str::to_lowercase: the lowercase fold of `s`, which depends on
/// the characters of `s` alone, here taken as its raw bytes.
#[verifier::external_body]
fn lower_bytes(s: &str) -> (r: Vec<u8>)
    ensures
        r@ == lower_bytes_of(s@),
{
    s.to_lowercase().into_bytes()
}

/// Lexicographic order on byte sequences: the order `Ord` gives two byte
/// strings, with a prefix before every extension of it.
pub open spec fn lex_le(a: Seq<u8>, b: Seq<u8>) -> bool
    decreases a.len(),
{
    if a.len() == 0 {
        true
    } else if b.len() == 0 {
        false
    } else if a[0] < b[0] {
        true
    } else if a[0] > b[0] {
        false
    } else {
        lex_le(a.drop_first(), b.drop_first())
    }
}

/// `lex_le` is total.
pub proof fn lemma_lex_le_total(a: Seq<u8>, b: Seq<u8>)
    ensures
        lex_le(a, b) || lex_le(b, a),
    decreases a.len(),
{
    if a.len() == 0 {
    } else if b.len() == 0 {
    } else if a[0] == b[0] {
        lemma_lex_le_total(a.drop_first(), b.drop_first());
    }
}

/// `lex_le` is transitive.
pub proof fn lemma_lex_le_trans(a: Seq<u8>, b: Seq<u8>, c: Seq<u8>)
    requires
        lex_le(a, b),
        lex_le(b, c),
    ensures
        lex_le(a, c),
    decreases a.len(),
{
    if a.len() == 0 {
    } else if b.len() == 0 {
    } else if c.len() == 0 {
    } else if a[0] == b[0] && b[0] == c[0] {
        lemma_lex_le_trans(a.drop_first(), b.drop_first(), c.drop_first());
    }
}

/// Compares two byte strings lexicographically.
fn lex_le_exec(a: &Vec<u8>, b: &Vec<u8>) -> (r: bool)
    ensures
        r == lex_le(a@, b@),
{
    let mut i: usize = 0;
    proof {
        assert(a@.skip(0) =~= a@);
        assert(b@.skip(0) =~= b@);
    }
    while i < a.len() && i < b.len()
        invariant
            i <= a@.len(),
            i <= b@.len(),
            lex_le(a@, b@) == lex_le(a@.skip(i as int), b@.skip(i as int)),
        decreases a@.len() - i,
    {
        proof {
            assert(a@.skip(i as int).drop_first() =~= a@.skip(i + 1));
            assert(b@.skip(i as int).drop_first() =~= b@.skip(i + 1));
        }
        if a[i] < b[i] {
            return true;
        }
        if a[i] > b[i] {
            return false;
        }
        i = i + 1;
    }
    i == a.len()
}

/// Inserts `x` into `s` behind every element `e` with `leq(e, x)`: the
/// one insertion that keeps a sorted sequence sorted and stable.
pub open spec fn spec_ordered_insert<T>(s: Seq<T>, x: T, leq: spec_fn(T, T) -> bool) -> Seq<T>
    decreases s.len(),
{
    if s.len() == 0 {
        seq![x]
    } else if leq(s.last(), x) {
        s.push(x)
    } else {
        spec_ordered_insert(s.drop_last(), x, leq).push(s.last())
    }
}

/// Stable insertion sort of `s` under `leq`.
pub open spec fn spec_sort_by<T>(s: Seq<T>, leq: spec_fn(T, T) -> bool) -> Seq<T>
    decreases s.len(),
{
    if s.len() == 0 {
        Seq::empty()
    } else {
        spec_ordered_insert(spec_sort_by(s.drop_last(), leq), s.last(), leq)
    }
}

/// The position at which [`spec_ordered_insert`] places its element.
pub open spec fn spec_insert_pos<T>(s: Seq<T>, x: T, leq: spec_fn(T, T) -> bool) -> int
    decreases s.len(),
{
    if s.len() == 0 {
        0
    } else if leq(s.last(), x) {
        s.len() as int
    } else {
        spec_insert_pos(s.drop_last(), x, leq)
    }
}

/// What [`spec_ordered_insert`] builds: `x` goes in at
/// [`spec_insert_pos`], everything from there on fails `leq(_, x)`, and
/// the element just before (if any) satisfies it.
pub proof fn lemma_ordered_insert_structure<T>(s: Seq<T>, x: T, leq: spec_fn(T, T) -> bool)
    ensures
        0 <= spec_insert_pos(s, x, leq) <= s.len(),
        spec_ordered_insert(s, x, leq) == s.insert(spec_insert_pos(s, x, leq), x),
        forall|k: int| spec_insert_pos(s, x, leq) <= k < s.len() ==> !leq(#[trigger] s[k], x),
        spec_insert_pos(s, x, leq) > 0 ==> leq(s[spec_insert_pos(s, x, leq) - 1], x),
    decreases s.len(),
{
    let p = spec_insert_pos(s, x, leq);
    if s.len() == 0 {
        assert(spec_ordered_insert(s, x, leq) =~= s.insert(0, x));
    } else if leq(s.last(), x) {
        assert(spec_ordered_insert(s, x, leq) =~= s.insert(s.len() as int, x));
    } else {
        let dl = s.drop_last();
        lemma_ordered_insert_structure(dl, x, leq);
        assert(spec_ordered_insert(s, x, leq) == dl.insert(p, x).push(s.last()));
        assert(dl.insert(p, x).push(s.last()) =~= s.insert(p, x));
        assert(forall|k: int| p <= k < s.len() - 1 ==> !leq(#[trigger] s[k], x)) by {
            assert(forall|k: int| p <= k < dl.len() ==> dl[k] == #[trigger] s[k]);
        }
    }
}

/// Stable insertion sort of `v` by an executable comparator whose results
/// agree with the order `leq`.
fn insertion_sort_by<T, F: Fn(&T, &T) -> bool>(
    v: Vec<T>,
    cmp: &F,
    Ghost(leq): Ghost<spec_fn(T, T) -> bool>,
) -> (r: Vec<T>)
    requires
        forall|a: &T, b: &T| #[trigger] call_requires(*cmp, (a, b)),
        forall|a: &T, b: &T, o: bool| #[trigger] call_ensures(*cmp, (a, b), o) ==> o == leq(*a, *b),
    ensures
        r@ == spec_sort_by(v@, leq),
{
    let ghost input = v@;
    let mut rest = v;
    let mut out: Vec<T> = Vec::new();
    let ghost mut i: int = 0;
    while rest.len() > 0
        invariant
            0 <= i <= input.len(),
            rest@ == input.skip(i),
            out@ == spec_sort_by(input.take(i), leq),
            forall|a: &T, b: &T| #[trigger] call_requires(*cmp, (a, b)),
            forall|a: &T, b: &T, o: bool| #[trigger] call_ensures(*cmp, (a, b), o) ==> o == leq(
                *a,
                *b,
            ),
        decreases rest@.len(),
    {
        let x = rest.remove(0);
        proof {
            assert(x == input[i]);
            assert(rest@ =~= input.skip(i + 1));
        }
        let ghost pre = out@;
        let mut pos: usize = out.len();
        proof {
            assert(out@.take(out@.len() as int) =~= out@);
        }
        loop
            invariant_except_break
                pos <= out@.len(),
                out@ == pre,
                spec_insert_pos(out@, x, leq) == spec_insert_pos(out@.take(pos as int), x, leq),
                forall|a: &T, b: &T| #[trigger] call_requires(*cmp, (a, b)),
                forall|a: &T, b: &T, o: bool| #[trigger] call_ensures(*cmp, (a, b), o) ==> o == leq(
                    *a,
                    *b,
                ),
            ensures
                out@ == pre,
                pos == spec_insert_pos(out@, x, leq),
            decreases pos,
        {
            if pos == 0 {
                proof {
                    assert(out@.take(0) =~= Seq::<T>::empty());
                }
                break ;
            }
            let keep = cmp(&out[pos - 1], &x);
            proof {
                assert(out@.take(pos as int).last() == out@[pos - 1]);
                assert(out@.take(pos as int).drop_last() =~= out@.take(pos - 1));
            }
            if keep {
                proof {
                    assert(spec_insert_pos(out@.take(pos as int), x, leq) == pos as int);
                }
                break ;
            }
            pos = pos - 1;
        }
        proof {
            lemma_ordered_insert_structure(out@, x, leq);
        }
        out.insert(pos, x);
        proof {
            assert(input.take(i + 1).drop_last() =~= input.take(i));
            assert(input.take(i + 1).last() == input[i]);
            assert(out@ == spec_sort_by(input.take(i + 1), leq));
            i = i + 1;
        }
    }
    proof {
        assert(input.take(input.len() as int) =~= input);
    }
    out
}

/// `a` at or before `b` in case-insensitive name order: the lowercase folds
/// of the names compared byte by byte.
pub open spec fn name_le(a: FsEntry, b: FsEntry) -> bool {
    lex_le(lower_bytes_of(a.name@), lower_bytes_of(b.name@))
}

/// `a` at or before `b` in time.
pub open spec fn ts_le(a: Timestamp, b: Timestamp) -> bool {
    a.sec < b.sec || (a.sec == b.sec && a.nsec <= b.nsec)
}

/// The name ordering on shared entry nodes.
pub open spec fn name_leq() -> spec_fn(Rc<FsEntry>, Rc<FsEntry>) -> bool {
    |a: Rc<FsEntry>, b: Rc<FsEntry>| name_le(*a, *b)
}

/// The modification-time ordering on shared entry nodes, ascending.
pub open spec fn time_leq() -> spec_fn(Rc<FsEntry>, Rc<FsEntry>) -> bool {
    |a: Rc<FsEntry>, b: Rc<FsEntry>| ts_le((*a).times.modified, (*b).times.modified)
}

/// The size ordering on entries paired with their byte sizes: descending by
/// size, deliberately inverted relative to the other modes.
pub open spec fn size_leq() -> spec_fn((Rc<FsEntry>, u64), (Rc<FsEntry>, u64)) -> bool {
    |a: (Rc<FsEntry>, u64), b: (Rc<FsEntry>, u64)| a.1 >= b.1
}

/// Each entry paired with its size.
pub open spec fn spec_zip_sizes(files: Seq<Rc<FsEntry>>, sizes: Seq<u64>) -> Seq<
    (Rc<FsEntry>, u64),
> {
    Seq::new(files.len(), |i: int| (files[i], sizes[i]))
}

/// The entry of an entry-size pair.
pub open spec fn proj_entry() -> spec_fn((Rc<FsEntry>, u64)) -> Rc<FsEntry> {
    |p: (Rc<FsEntry>, u64)| p.0
}

/// Compares two entries by name, case-insensitively.
fn name_le_exec(a: &Rc<FsEntry>, b: &Rc<FsEntry>) -> (r: bool)
    ensures
        r == name_le(**a, **b),
{
    let la = lower_bytes(a.name.as_str());
    let lb = lower_bytes(b.name.as_str());
    lex_le_exec(&la, &lb)
}

/// Compares two entries by modification time.
fn time_le_exec(a: &Rc<FsEntry>, b: &Rc<FsEntry>) -> (r: bool)
    ensures
        r == ts_le((**a).times.modified, (**b).times.modified),
{
    let ta = &a.times.modified;
    let tb = &b.times.modified;
    ta.sec < tb.sec || (ta.sec == tb.sec && ta.nsec <= tb.nsec)
}

/// A fresh sibling list holding the same shared nodes.
fn clone_children(files: &EntryChildren) -> (r: EntryChildren)
    ensures
        r@ == files@,
{
    let mut out: EntryChildren = Vec::new();
    let mut i: usize = 0;
    while i < files.len()
        invariant
            i <= files@.len(),
            out@ == files@.take(i as int),
        decreases files@.len() - i,
    {
        out.push(files[i].clone());
        proof {
            assert(out@ =~= files@.take(i + 1));
        }
        i = i + 1;
    }
    proof {
        assert(files@.take(files@.len() as int) =~= files@);
    }
    out
}

/// A fresh sibling list holding the same shared nodes in reverse order.
fn reverse_children(files: &EntryChildren) -> (r: EntryChildren)
    ensures
        r@ == files@.reverse(),
{
    let mut out: EntryChildren = Vec::new();
    let mut i: usize = files.len();
    while i > 0
        invariant
            i <= files@.len(),
            out@ == files@.skip(i as int).reverse(),
        decreases i,
    {
        i = i - 1;
        out.push(files[i].clone());
        proof {
            assert(out@ =~= files@.skip(i as int).reverse());
        }
    }
    proof {
        assert(files@.skip(0) =~= files@);
    }
    out
}

/// Sorts siblings by case-insensitive name, ascending, stably.
fn name_sort(files: &EntryChildren) -> (r: EntryChildren)
    ensures
        r@ == spec_sort_by(files@, name_leq()),
{
    let cloned = clone_children(files);
    let cmp = |a: &Rc<FsEntry>, b: &Rc<FsEntry>| -> (o: bool)
        ensures
            o == name_leq()(*a, *b),
        { name_le_exec(a, b) };
    insertion_sort_by(cloned, &cmp, Ghost(name_leq()))
}

/// Sorts siblings by modification time, ascending, stably.
fn time_sort(files: &EntryChildren) -> (r: EntryChildren)
    ensures
        r@ == spec_sort_by(files@, time_leq()),
{
    let cloned = clone_children(files);
    let cmp = |a: &Rc<FsEntry>, b: &Rc<FsEntry>| -> (o: bool)
        ensures
            o == time_leq()(*a, *b),
        { time_le_exec(a, b) };
    insertion_sort_by(cloned, &cmp, Ghost(time_leq()))
}

/// Sorts siblings by given byte sizes, descending, stably: the exact,
/// size-for-size contract behind Size mode, for any size assignment.
pub fn sort_by_sizes(files: &EntryChildren, sizes: &Vec<u64>) -> (r: EntryChildren)
    requires
        files@.len() == sizes@.len(),
    ensures
        r@ == spec_sort_by(spec_zip_sizes(files@, sizes@), size_leq()).map_values(proj_entry()),
{
    let ghost zipped = spec_zip_sizes(files@, sizes@);
    let mut pairs: Vec<(Rc<FsEntry>, u64)> = Vec::new();
    let mut i: usize = 0;
    while i < files.len()
        invariant
            i <= files@.len(),
            files@.len() == sizes@.len(),
            zipped == spec_zip_sizes(files@, sizes@),
            pairs@ == zipped.take(i as int),
        decreases files@.len() - i,
    {
        pairs.push((files[i].clone(), sizes[i]));
        proof {
            assert(pairs@ =~= zipped.take(i + 1));
        }
        i = i + 1;
    }
    proof {
        assert(zipped.take(zipped.len() as int) =~= zipped);
    }
    let cmp = |a: &(Rc<FsEntry>, u64), b: &(Rc<FsEntry>, u64)| -> (o: bool)
        ensures
            o == size_leq()(*a, *b),
        { a.1 >= b.1 };
    let sorted = insertion_sort_by(pairs, &cmp, Ghost(size_leq()));
    let ghost sorted_pairs = spec_sort_by(zipped, size_leq());
    let mut out: EntryChildren = Vec::new();
    let mut k: usize = 0;
    while k < sorted.len()
        invariant
            k <= sorted@.len(),
            sorted@ == sorted_pairs,
            out@ == sorted_pairs.map_values(proj_entry()).take(k as int),
        decreases sorted@.len() - k,
    {
        out.push(sorted[k].0.clone());
        proof {
            assert(out@ =~= sorted_pairs.map_values(proj_entry()).take(k + 1));
        }
        k = k + 1;
    }
    proof {
        let m = sorted_pairs.map_values(proj_entry());
        assert(m.take(m.len() as int) =~= m);
    }
    out
}

/// The byte length of the object at `path`: a file's own length; for a
/// directory, the sum of the lengths of all files below it, re-statted on
/// demand by walking the filesystem directly; `0` where it cannot be read.
/// The sum saturates rather than overflows.
fn get_file_size(path: &str) -> u64 {
    match stat_path(path) {
        Option::Some(st) => {
            if matches!(EntryType::from_mode(st.mode), EntryType::Directory) {
                get_dir_size(path)
            } else {
                clamp_size(st.size)
            }
        },
        Option::None => 0,
    }
}

/// A reported byte length as an unsigned size; a negative report counts as
/// zero.
fn clamp_size(s: i64) -> (r: u64)
    ensures
        s >= 0 ==> r == s,
        s < 0 ==> r == 0,
{
    if s < 0 {
        0
    } else {
        s as u64
    }
}

/// The saturating sum of a list of byte sizes: the exact sum where it
/// fits in a `u64`, the largest `u64` where it does not.
pub open spec fn spec_sum_sat(sizes: Seq<u64>) -> u64
    decreases sizes.len(),
{
    if sizes.len() == 0 {
        0u64
    } else {
        let rest = spec_sum_sat(sizes.drop_last());
        if rest + sizes.last() <= u64::MAX {
            (rest + sizes.last()) as u64
        } else {
            u64::MAX
        }
    }
}

/// Adds up byte sizes, saturating rather than overflowing: the stated
/// core of the directory-size computation.
pub fn sum_sizes_saturating(sizes: &Vec<u64>) -> (r: u64)
    ensures
        r == spec_sum_sat(sizes@),
{
    let mut total: u64 = 0;
    let mut i: usize = 0;
    proof {
        assert(sizes@.take(0) =~= Seq::<u64>::empty());
    }
    while i < sizes.len()
        invariant
            i <= sizes@.len(),
            total == spec_sum_sat(sizes@.take(i as int)),
        decreases sizes@.len() - i,
    {
        let sz = sizes[i];
        total = if total <= u64::MAX - sz {
            total + sz
        } else {
            u64::MAX
        };
        proof {
            assert(sizes@.take(i + 1).drop_last() =~= sizes@.take(i as int));
            assert(sizes@.take(i + 1).last() == sizes@[i as int]);
        }
        i = i + 1;
    }
    proof {
        assert(sizes@.take(sizes@.len() as int) =~= sizes@);
    }
    total
}

/// The recursive byte size of the directory at `path`: every non-directory
/// entry below it is statted, and the lengths that were read are added by
/// [`sum_sizes_saturating`], whose contract pins the summation exactly;
/// what the lengths are depends on the disk. Unreadable entries are
/// skipped.
fn get_dir_size(path: &str) -> u64 {
    let items = walk_dir(path, false, false, None);
    let mut sizes: Vec<u64> = Vec::new();
    let mut i: usize = 0;
    while i < items.len()
        invariant
            i <= items@.len(),
        decreases items@.len() - i,
    {
        if let Option::Some((d, p)) = &items[i] {
            if *d >= 1 {
                if let Option::Some(st) = stat_path(p.as_str()) {
                    if !matches!(EntryType::from_mode(st.mode), EntryType::Directory) {
                        sizes.push(clamp_size(st.size));
                    }
                }
            }
        }
        i = i + 1;
    }
    sum_sizes_saturating(&sizes)
}

/// Sorts siblings by their on-disk byte size, descending, stably. The
/// sizes come from the filesystem at call time; the result is the exact
/// size-sorted order for the sizes that were read.
fn size_sort(files: &EntryChildren) -> (r: EntryChildren)
    ensures
        exists|sizes: Seq<u64>|
            sizes.len() == files@.len() && r@ == spec_sort_by(
                spec_zip_sizes(files@, sizes),
                size_leq(),
            ).map_values(proj_entry()),
{
    let mut sizes: Vec<u64> = Vec::new();
    let mut i: usize = 0;
    while i < files.len()
        invariant
            i <= files@.len(),
            sizes@.len() == i,
        decreases files@.len() - i,
    {
        sizes.push(get_file_size(files[i].path.as_str()));
        i = i + 1;
    }
    let r = sort_by_sizes(files, &sizes);
    proof {
        assert(sizes@.len() == files@.len() && r@ == spec_sort_by(
            spec_zip_sizes(files@, sizes@),
            size_leq(),
        ).map_values(proj_entry()));
    }
    r
}

/// The elements equivalent to `pivot` under the order `leq`.
pub open spec fn eqv_class<T>(leq: spec_fn(T, T) -> bool, pivot: T) -> spec_fn(T) -> bool {
    |e: T| leq(e, pivot) && leq(pivot, e)
}

/// `leq` relates every pair, one way or the other.
pub open spec fn total_order<T>(leq: spec_fn(T, T) -> bool) -> bool {
    &&& forall|a: T, b: T| #[trigger] leq(a, b) || #[trigger] leq(b, a)
    &&& forall|a: T, b: T, c: T| #[trigger] leq(a, b) && #[trigger] leq(b, c) ==> leq(a, c)
}

/// Filtering a sequence none of whose elements pass gives the empty
/// sequence.
proof fn lemma_filter_none<T>(s: Seq<T>, q: spec_fn(T) -> bool)
    requires
        forall|k: int| 0 <= k < s.len() ==> !q(#[trigger] s[k]),
    ensures
        s.filter(q) == Seq::<T>::empty(),
    decreases s.len(),
{
    reveal(Seq::filter);
    if s.len() > 0 {
        lemma_filter_none(s.drop_last(), q);
    }
}

/// An ordered insertion adds `x` behind its whole equivalence class and
/// leaves every class otherwise untouched.
proof fn lemma_ordered_insert_filter<T>(s: Seq<T>, x: T, leq: spec_fn(T, T) -> bool, pivot: T)
    requires
        total_order(leq),
    ensures
        spec_ordered_insert(s, x, leq).filter(eqv_class(leq, pivot)) == if eqv_class(leq, pivot)(
            x,
        ) {
            s.filter(eqv_class(leq, pivot)).push(x)
        } else {
            s.filter(eqv_class(leq, pivot))
        },
{
    let q = eqv_class(leq, pivot);
    let p = spec_insert_pos(s, x, leq);
    lemma_ordered_insert_structure(s, x, leq);
    let front = s.take(p);
    let back = s.skip(p);
    assert(s.insert(p, x) == front.push(x) + back) by {
        assert(s.insert(p, x) =~= front.push(x) + back);
    }
    Seq::filter_distributes_over_add(front.push(x), back, q);
    Seq::filter_distributes_over_add(front, back, q);
    assert(front + back =~= s);
    reveal(Seq::filter);
    assert(front.push(x).drop_last() =~= front);
    if q(x) {
        assert(back.filter(q) == Seq::<T>::empty()) by {
            assert forall|k: int| 0 <= k < back.len() implies !q(#[trigger] back[k]) by {
                assert(back[k] == s[p + k]);
                assert(!leq(s[p + k], x));
                if q(back[k]) {
                    assert(leq(back[k], pivot) && leq(pivot, x));
                }
            }
            lemma_filter_none(back, q);
        }
        assert(front.push(x).filter(q) == front.filter(q).push(x));
        assert(front.filter(q).push(x) + Seq::<T>::empty() =~= front.filter(q).push(x));
        assert((front.filter(q) + back.filter(q)).push(x) =~= front.filter(q).push(x));
    } else {
        assert(front.push(x).filter(q) == front.filter(q));
    }
}

/// LAW (sort stability): under a total, transitive ordering the sort is
/// stable — restricted to any one equivalence class of the ordering, the
/// output is the input: siblings with equal sort keys keep their input
/// order.
pub proof fn lemma_sort_by_stable<T>(s: Seq<T>, leq: spec_fn(T, T) -> bool, pivot: T)
    requires
        total_order(leq),
    ensures
        spec_sort_by(s, leq).filter(eqv_class(leq, pivot)) == s.filter(eqv_class(leq, pivot)),
    decreases s.len(),
{
    let q = eqv_class(leq, pivot);
    reveal(Seq::filter);
    if s.len() > 0 {
        lemma_sort_by_stable(s.drop_last(), leq, pivot);
        lemma_ordered_insert_filter(spec_sort_by(s.drop_last(), leq), s.last(), leq, pivot);
    }
}

/// An ordered insertion of `x` into a sorted sequence is sorted.
proof fn lemma_ordered_insert_sorted<T>(s: Seq<T>, x: T, leq: spec_fn(T, T) -> bool)
    requires
        total_order(leq),
        forall|i: int, j: int| 0 <= i <= j < s.len() ==> leq(#[trigger] s[i], #[trigger] s[j]),
    ensures
        spec_ordered_insert(s, x, leq).len() == s.len() + 1,
        forall|i: int, j: int|
            0 <= i <= j < s.len() + 1 ==> leq(
                #[trigger] spec_ordered_insert(s, x, leq)[i],
                #[trigger] spec_ordered_insert(s, x, leq)[j],
            ),
{
    let p = spec_insert_pos(s, x, leq);
    lemma_ordered_insert_structure(s, x, leq);
    let t = spec_ordered_insert(s, x, leq);
    assert(t == s.insert(p, x));
    s.insert_ensures(p, x);
    assert forall|i: int, j: int| 0 <= i <= j < s.len() + 1 implies leq(
        #[trigger] t[i],
        #[trigger] t[j],
    ) by {
        if i == j {
        } else if j < p {
            assert(t[i] == s[i] && t[j] == s[j]);
        } else if i > p {
            assert(t[i] == s[i - 1] && t[j] == s[j - 1]);
        } else if i == p && j == p {
        } else if i == p {
            // x before a later element: that element was at or past the
            // insert position, so it does not come at or before x
            assert(t[j] == s[j - 1]);
            assert(!leq(s[j - 1], x));
        } else if j == p {
            // an earlier element before x: the element just before the
            // position satisfies leq(_, x); everything earlier reaches it
            assert(t[i] == s[i]);
            assert(leq(s[p - 1], x));
            assert(leq(s[i], s[p - 1]));
        } else {
            // i < p < j
            assert(t[i] == s[i] && t[j] == s[j - 1]);
            assert(!leq(s[j - 1], x));
            if p > 0 {
                assert(leq(s[i], s[p - 1]) && leq(s[p - 1], x));
            } else {
                assert(leq(s[i], s[j - 1]) || leq(s[j - 1], s[i]));
                assert(!leq(s[j - 1], x));
            }
        }
    }
}

/// LAW (sort correctness): under a total, transitive ordering the output
/// of the sort is sorted and has the input's length.
pub proof fn lemma_sort_by_sorted<T>(s: Seq<T>, leq: spec_fn(T, T) -> bool)
    requires
        total_order(leq),
    ensures
        spec_sort_by(s, leq).len() == s.len(),
        forall|i: int, j: int|
            0 <= i <= j < s.len() ==> leq(
                #[trigger] spec_sort_by(s, leq)[i],
                #[trigger] spec_sort_by(s, leq)[j],
            ),
    decreases s.len(),
{
    if s.len() > 0 {
        lemma_sort_by_sorted(s.drop_last(), leq);
        lemma_ordered_insert_sorted(spec_sort_by(s.drop_last(), leq), s.last(), leq);
    }
}

/// LAW (permutation): the sort returns exactly the input's elements, as a
/// multiset.
pub proof fn lemma_sort_by_permutation<T>(s: Seq<T>, leq: spec_fn(T, T) -> bool)
    ensures
        spec_sort_by(s, leq).to_multiset() == s.to_multiset(),
    decreases s.len(),
{
    broadcast use vstd::seq_lib::group_to_multiset_ensures;

    if s.len() > 0 {
        let dl = s.drop_last();
        let x = s.last();
        lemma_sort_by_permutation(dl, leq);
        let t = spec_sort_by(dl, leq);
        let p = spec_insert_pos(t, x, leq);
        lemma_ordered_insert_structure(t, x, leq);
        vstd::seq_lib::lemma_multiset_commutative(t.take(p).push(x), t.skip(p));
        vstd::seq_lib::lemma_multiset_commutative(t.take(p), t.skip(p));
        assert(t.insert(p, x) == t.take(p).push(x) + t.skip(p)) by {
            assert(t.insert(p, x) =~= t.take(p).push(x) + t.skip(p));
        }
        assert(t.take(p) + t.skip(p) =~= t);
        assert(dl.push(x) =~= s);
        assert(t.take(p).push(x).to_multiset() =~= t.take(p).to_multiset().insert(x));
        assert(spec_sort_by(s, leq).to_multiset() =~= s.to_multiset());
    } else {
        assert(spec_sort_by(s, leq).to_multiset() =~= s.to_multiset());
    }
}

/// The case-insensitive name ordering is a total, transitive order.
pub proof fn lemma_name_leq_total_order()
    ensures
        total_order(name_leq()),
{
    assert forall|a: Rc<FsEntry>, b: Rc<FsEntry>| #[trigger] name_leq()(a, b) || #[trigger] name_leq()(
        b,
        a,
    ) by {
        lemma_lex_le_total(lower_bytes_of((*a).name@), lower_bytes_of((*b).name@));
    }
    assert forall|a: Rc<FsEntry>, b: Rc<FsEntry>, c: Rc<FsEntry>|
        #[trigger] name_leq()(a, b) && #[trigger] name_leq()(b, c) implies name_leq()(a, c) by {
        lemma_lex_le_trans(
            lower_bytes_of((*a).name@),
            lower_bytes_of((*b).name@),
            lower_bytes_of((*c).name@),
        );
    }
}

/// The modification-time ordering is a total, transitive order.
pub proof fn lemma_time_leq_total_order()
    ensures
        total_order(time_leq()),
{
}

/// The descending size ordering is a total, transitive order.
pub proof fn lemma_size_leq_total_order()
    ensures
        total_order(size_leq()),
{
}

/// LAW (sort stability, Name mode): siblings whose lowercase-folded names
/// are equal keep their input order.
pub proof fn lemma_name_sort_stable(files: Seq<Rc<FsEntry>>, pivot: Rc<FsEntry>)
    ensures
        spec_sort_by(files, name_leq()).filter(eqv_class(name_leq(), pivot)) == files.filter(
            eqv_class(name_leq(), pivot),
        ),
{
    lemma_name_leq_total_order();
    lemma_sort_by_stable(files, name_leq(), pivot);
}

/// LAW (sort stability, Time mode): siblings with equal modification times
/// keep their input order.
pub proof fn lemma_time_sort_stable(files: Seq<Rc<FsEntry>>, pivot: Rc<FsEntry>)
    ensures
        spec_sort_by(files, time_leq()).filter(eqv_class(time_leq(), pivot)) == files.filter(
            eqv_class(time_leq(), pivot),
        ),
{
    lemma_time_leq_total_order();
    lemma_sort_by_stable(files, time_leq(), pivot);
}

/// LAW (sort stability, Size mode): sibling-size pairs with equal sizes
/// keep their input order; Unsorted mode is the identity and trivially
/// stable.
pub proof fn lemma_size_sort_stable(pairs: Seq<(Rc<FsEntry>, u64)>, pivot: (Rc<FsEntry>, u64))
    ensures
        spec_sort_by(pairs, size_leq()).filter(eqv_class(size_leq(), pivot)) == pairs.filter(
            eqv_class(size_leq(), pivot),
        ),
{
    lemma_size_leq_total_order();
    lemma_sort_by_stable(pairs, size_leq(), pivot);
}

/// LAW (sort stability, Unsorted mode): without `reverse`, Unsorted mode
/// returns the input itself — traversal order is kept exactly.
pub proof fn lemma_unsorted_is_identity(files: Seq<Rc<FsEntry>>, sizes: Seq<u64>)
    ensures
        spec_sort(files, SortingMode::Unsorted, sizes, false) == files,
{
}

/// The sort keeps the input's length, whatever the order.
proof fn lemma_sort_by_len<T>(s: Seq<T>, leq: spec_fn(T, T) -> bool)
    ensures
        spec_sort_by(s, leq).len() == s.len(),
    decreases s.len(),
{
    if s.len() > 0 {
        lemma_sort_by_len(s.drop_last(), leq);
        lemma_ordered_insert_structure(spec_sort_by(s.drop_last(), leq), s.last(), leq);
    }
}

/// LAW (length): sorting never adds or drops entries, in any mode,
/// reversed or not.
pub proof fn lemma_sort_preserves_length(
    files: Seq<Rc<FsEntry>>,
    mode: SortingMode,
    sizes: Seq<u64>,
    reverse: bool,
)
    requires
        mode is Size ==> sizes.len() == files.len(),
    ensures
        spec_sort(files, mode, sizes, reverse).len() == files.len(),
{
    match mode {
        SortingMode::Time => lemma_sort_by_len(files, time_leq()),
        SortingMode::Name => lemma_sort_by_len(files, name_leq()),
        SortingMode::Size => lemma_sort_by_len(spec_zip_sizes(files, sizes), size_leq()),
        SortingMode::Unsorted => (),
    }
}

/// LAW (permutation at the modes): in Time, Name and Unsorted mode the
/// sort returns exactly the input's entries as a multiset, reversed or
/// not. (In Size mode the same holds of the entry-size pairs; see
/// [`lemma_sort_by_permutation`].)
pub proof fn lemma_sort_permutes(
    files: Seq<Rc<FsEntry>>,
    mode: SortingMode,
    sizes: Seq<u64>,
    reverse: bool,
)
    requires
        !(mode is Size),
    ensures
        spec_sort(files, mode, sizes, reverse).to_multiset() == files.to_multiset(),
{
    match mode {
        SortingMode::Time => lemma_sort_by_permutation(files, time_leq()),
        SortingMode::Name => lemma_sort_by_permutation(files, name_leq()),
        _ => (),
    }
    if reverse {
        let base = match mode {
            SortingMode::Time => spec_sort_by(files, time_leq()),
            SortingMode::Name => spec_sort_by(files, name_leq()),
            _ => files,
        };
        base.lemma_reverse_to_multiset();
    }
}

/// LAW (reverse composition): for every mode and any one size assignment,
/// sorting with `reverse` set equals sorting without it and then reversing
/// the whole sequence.
pub proof fn lemma_reverse_composition(files: Seq<Rc<FsEntry>>, mode: SortingMode, sizes: Seq<u64>)
    ensures
        spec_sort(files, mode, sizes, true) == spec_sort(files, mode, sizes, false).reverse(),
{
}

/// The order `sort` produces: the mode's ordering of the input, then, when
/// `reverse` is set, the whole sequence reversed. `sizes` is the byte size
/// used for each entry in Size mode; the other modes ignore it.
pub open spec fn spec_sort(
    files: Seq<Rc<FsEntry>>,
    mode: SortingMode,
    sizes: Seq<u64>,
    reverse: bool,
) -> Seq<Rc<FsEntry>> {
    let base = match mode {
        SortingMode::Time => spec_sort_by(files, time_leq()),
        SortingMode::Name => spec_sort_by(files, name_leq()),
        SortingMode::Size => spec_sort_by(spec_zip_sizes(files, sizes), size_leq()).map_values(
            proj_entry(),
        ),
        SortingMode::Unsorted => files,
    };
    if reverse {
        base.reverse()
    } else {
        base
    }
}

/// Orders a sibling list by `mode`, reversing the result when `reverse` is
/// set. The input is not mutated; the result shares its nodes. In Size
/// mode the sizes are read from the filesystem at call time, so the
/// contract holds for some size assignment of the right length; every
/// other mode is pinned exactly.
pub fn sort(files: &EntryChildren, mode: SortingMode, reverse: bool) -> (r: EntryChildren)
    ensures
        !(mode is Size) ==> r@ == spec_sort(files@, mode, Seq::empty(), reverse),
        mode is Size ==> exists|sizes: Seq<u64>|
            sizes.len() == files@.len() && r@ == spec_sort(files@, mode, sizes, reverse),
{
    let output = match mode {
        SortingMode::Time => time_sort(files),
        SortingMode::Name => name_sort(files),
        SortingMode::Size => size_sort(files),
        SortingMode::Unsorted => clone_children(files),
    };
    if reverse {
        let ghost base = output@;
        let rev = reverse_children(&output);
        proof {
            if mode is Size {
                let sizes = choose|sizes: Seq<u64>|
                    sizes.len() == files@.len() && base == spec_sort_by(
                        spec_zip_sizes(files@, sizes),
                        size_leq(),
                    ).map_values(proj_entry());
                assert(sizes.len() == files@.len() && rev@ == spec_sort(
                    files@,
                    mode,
                    sizes,
                    true,
                ));
            }
        }
        rev
    } else {
        proof {
            if mode is Size {
                let sizes = choose|sizes: Seq<u64>|
                    sizes.len() == files@.len() && output@ == spec_sort_by(
                        spec_zip_sizes(files@, sizes),
                        size_leq(),
                    ).map_values(proj_entry());
                assert(sizes.len() == files@.len() && output@ == spec_sort(
                    files@,
                    mode,
                    sizes,
                    false,
                ));
            }
        }
        output
    }
}

} // verus!
