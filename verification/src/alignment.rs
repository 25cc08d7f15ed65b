//! Aligning two atom sequences: each atom gets the number of its continuity
//! class, and `diffus` aligns the two sequences of numbers.

use diffus::Diffable;
use vstd::prelude::*;

use crate::atom::{continuity_match, lemma_continuity_equivalence, Atom, ParseStruct, TextAtom};

verus! {

/// One step of an alignment of two sequences of class numbers, as `diffus`
/// reports it, with the numbers it names.
#[derive(Clone, Copy, Debug, PartialEq, Eq, Structural)]
pub enum IdEdit {
    /// The next number of both sides, which is the same.
    Copy(usize),
    /// The next number of the second side.
    Insert(usize),
    /// The next number of the first side.
    Remove(usize),
    /// The next number of both sides, reported as a pair that differs.
    Change(usize, usize),
}

/// What `diffus` gives for two vectors of `usize`: `None` where it reports the
/// two as one unchanged value, else its list of edits.
pub uninterp spec fn diffus_edits(left: Seq<usize>, right: Seq<usize>) -> Option<Seq<IdEdit>>;

/// The index of the first atom of `all`, from index `from` on, that
/// continuity-matches the atom at index `k`; at the latest `k` itself.
pub open spec fn first_same(all: Seq<Atom>, k: int, from: int) -> int
    decreases k - from,
{
    if from >= k {
        k
    } else if continuity_match(all[from], all[k]) {
        from
    } else {
        first_same(all, k, from + 1)
    }
}

/// The class number of the atom at index `k` of `all`: the index of the first
/// atom of `all` that it continuity-matches.
pub open spec fn class_id(all: Seq<Atom>, k: int) -> int {
    first_same(all, k, 0)
}

/// The class numbers of the atoms of `all` from index `from` up to `to`.
pub open spec fn class_ids(all: Seq<Atom>, from: int, to: int) -> Seq<usize> {
    Seq::new((to - from) as nat, |k: int| class_id(all, from + k) as usize)
}

/// What `first_same` finds: an index between `from` and `k` whose atom
/// matches that at `k`, with no such atom between `from` and it.
pub proof fn lemma_first_same(all: Seq<Atom>, k: int, from: int)
    requires
        0 <= from <= k < all.len(),
    ensures
        from <= first_same(all, k, from) <= k,
        continuity_match(all[first_same(all, k, from)], all[k]),
        forall|m: int| from <= m < first_same(all, k, from) ==> !continuity_match(all[m], all[k]),
    decreases k - from,
{
    if from >= k {
        lemma_continuity_equivalence(all[k], all[k], all[k]);
    } else if continuity_match(all[from], all[k]) {
    } else {
        lemma_first_same(all, k, from + 1);
    }
}

/// Two atoms have the same class number exactly where they continuity-match.
pub proof fn lemma_class_id_is_continuity(all: Seq<Atom>, i: int, j: int)
    requires
        0 <= i < all.len(),
        0 <= j < all.len(),
    ensures
        class_id(all, i) == class_id(all, j) <==> continuity_match(all[i], all[j]),
{
    lemma_first_same(all, i, 0);
    lemma_first_same(all, j, 0);
    let ci = class_id(all, i);
    let cj = class_id(all, j);
    lemma_continuity_equivalence(all[ci], all[i], all[j]);
    lemma_continuity_equivalence(all[cj], all[j], all[i]);
    lemma_continuity_equivalence(all[i], all[j], all[i]);
    lemma_continuity_equivalence(all[i], all[ci], all[j]);
    lemma_continuity_equivalence(all[ci], all[cj], all[j]);
    lemma_continuity_equivalence(all[cj], all[ci], all[i]);
    if continuity_match(all[i], all[j]) {
        lemma_continuity_equivalence(all[i], all[i], all[j]);
        lemma_continuity_equivalence(all[j], all[j], all[i]);
        // Both first indices match both atoms, and both lie at or in front of
        // the smaller of `i` and `j`.
        if i <= j {
            assert(continuity_match(all[ci], all[j]));
            assert(cj <= ci);
            assert(continuity_match(all[cj], all[i]));
            assert(ci <= cj);
        } else {
            assert(continuity_match(all[cj], all[i]));
            assert(ci <= cj);
            assert(continuity_match(all[ci], all[j]));
            assert(cj <= ci);
        }
    }
}

/// The atom at index `k` of `before` followed by `after`.
fn atom_of<'a>(before: &'a ParseStruct, after: &'a ParseStruct, k: usize) -> (atom: &'a TextAtom)
    requires
        k < before@.len() + after@.len(),
    ensures
        atom@ == (before@ + after@)[k as int],
{
    if k < before.atoms.len() {
        &before.atoms[k]
    } else {
        &after.atoms[k - before.atoms.len()]
    }
}

/// The class number of the atom at index `k` of `before` followed by `after`.
fn class_of(before: &ParseStruct, after: &ParseStruct, k: usize) -> (id: usize)
    requires
        k < before@.len() + after@.len(),
    ensures
        id == class_id(before@ + after@, k as int),
        id <= k,
{
    let ghost all = before@ + after@;
    let atom = atom_of(before, after, k);
    let mut m: usize = 0;
    while m < k
        invariant
            m <= k,
            k < all.len(),
            all == before@ + after@,
            atom@ == all[k as int],
            first_same(all, k as int, 0) == first_same(all, k as int, m as int),
        decreases k - m,
    {
        if atom_of(before, after, m).same(atom) {
            return m;
        }
        m = m + 1;
    }
    k
}

/// The class numbers of the atoms of `before` followed by `after`, from index
/// `from` up to `to`.
fn class_numbers(before: &ParseStruct, after: &ParseStruct, from: usize, to: usize) -> (ids: Vec<
    usize,
>)
    requires
        from <= to <= before@.len() + after@.len(),
    ensures
        ids@ == class_ids(before@ + after@, from as int, to as int),
{
    let ghost all = before@ + after@;
    let mut ids: Vec<usize> = Vec::new();
    let mut k: usize = from;
    while k < to
        invariant
            from <= k <= to,
            to <= all.len(),
            all == before@ + after@,
            ids@ == class_ids(all, from as int, k as int),
        decreases to - k,
    {
        let id = class_of(before, after, k);
        ids.push(id);
        k = k + 1;
        assert(ids@ =~= class_ids(all, from as int, k as int));
    }
    ids
}

/// The class numbers of the atoms of `before` and of those of `after`, or
/// `None` where the two sequences together hold more atoms than a `usize`
/// counts.
pub fn continuity_classes(before: &ParseStruct, after: &ParseStruct) -> (res: Option<
    (Vec<usize>, Vec<usize>),
>)
    ensures
        res is None <==> before@.len() + after@.len() > usize::MAX,
        res matches Some(ids) ==> {
            &&& ids.0@ == class_ids(before@ + after@, 0, before@.len() as int)
            &&& ids.1@ == class_ids(
                before@ + after@,
                before@.len() as int,
                (before@ + after@).len() as int,
            )
        },
{
    let n = before.atoms.len();
    let m = after.atoms.len();
    if m > usize::MAX - n {
        return None;
    }
    let left = class_numbers(before, after, 0, n);
    let right = class_numbers(before, after, n, n + m);
    Some((left, right))
}

/// Whether sequences of the lengths `n` and `m` can be aligned. The alignment
/// fills a table with one row more than the one sequence and one column more
/// than the other has elements, and the number of its cells has to be one
/// that a `usize` counts.
pub open spec fn alignable(n: nat, m: nat) -> bool {
    (n + 1) * (m + 1) <= usize::MAX
}

/// Sequences that can be aligned hold, together, no more elements than a
/// `usize` counts.
pub proof fn lemma_alignable_sum(n: nat, m: nat)
    requires
        alignable(n, m),
    ensures
        n + m < usize::MAX,
{
    assert((n + 1) * (m + 1) == n * m + n + m + 1) by (nonlinear_arith);
    assert(n * m >= 0) by (nonlinear_arith);
}

/// Whether sequences of the lengths `n` and `m` can be aligned.
pub fn can_align(n: usize, m: usize) -> (res: bool)
    ensures
        res == alignable(n as nat, m as nat),
{
    assert((n + 1) * (m + 1) >= n + 1 && (n + 1) * (m + 1) >= m + 1) by (nonlinear_arith);
    match n.checked_add(1) {
        None => false,
        Some(rows) => match m.checked_add(1) {
            None => false,
            Some(columns) => rows.checked_mul(columns).is_some(),
        },
    }
}

/// Calls `diffus::Diffable::diff` on the two vectors and hands on what it
/// reports: `None` for `Edit::Copy`, the list of edits for `Edit::Change`,
/// each edit with the numbers that it refers to. Taken from `diffus` without
/// proof: the result depends on the two sequences alone, and two equal
/// sequences are reported as one unchanged value. `diffus` makes a table of
/// at most `(left.len() + 1) * (right.len() + 1)` cells and computes that
/// number unchecked, so the call is made only where it is one that a `usize`
/// counts.
#[verifier::external_body]
fn diff_ids(left: &Vec<usize>, right: &Vec<usize>) -> (res: Option<Vec<IdEdit>>)
    requires
        alignable(left@.len(), right@.len()),
    ensures
        match res {
            Some(edits) => diffus_edits(left@, right@) == Some(edits@),
            None => diffus_edits(left@, right@) is None,
        },
        left@ == right@ ==> res is None,
{
    match left.diff(right) {
        diffus::edit::Edit::Copy(_) => None,
        diffus::edit::Edit::Change(edits) => Some(
            edits.into_iter().map(|edit| match edit {
                diffus::edit::collection::Edit::Copy(x) => IdEdit::Copy(*x),
                diffus::edit::collection::Edit::Insert(x) => IdEdit::Insert(*x),
                diffus::edit::collection::Edit::Remove(x) => IdEdit::Remove(*x),
                diffus::edit::collection::Edit::Change((x, y)) => IdEdit::Change(*x, *y),
            }).collect(),
        ),
    }
}

/// The edits that stand for two sequences reported as unchanged: a copy of
/// each number of `left`.
pub open spec fn all_copies(left: Seq<usize>) -> Seq<IdEdit> {
    Seq::new(left.len(), |k: int| IdEdit::Copy(left[k]))
}

/// The list of edits that a report of `diffus` stands for.
pub open spec fn edits_of(report: Option<Seq<IdEdit>>, left: Seq<usize>) -> Seq<IdEdit> {
    match report {
        Some(edits) => edits,
        None => all_copies(left),
    }
}

/// The edits by which `diffus` aligns `left` and `right`, or `None` where the
/// two are too long to be aligned. Two equal sequences are aligned by a copy
/// of each number.
pub fn align(left: &Vec<usize>, right: &Vec<usize>) -> (res: Option<Vec<IdEdit>>)
    ensures
        res is Some <==> alignable(left@.len(), right@.len()),
        res matches Some(edits) ==> edits@ == edits_of(diffus_edits(left@, right@), left@),
        res matches Some(edits) ==> (left@ == right@ ==> edits@ == all_copies(left@)),
{
    if !can_align(left.len(), right.len()) {
        return None;
    }
    match diff_ids(left, right) {
        Some(edits) => Some(edits),
        None => {
            let mut edits: Vec<IdEdit> = Vec::new();
            let mut k: usize = 0;
            while k < left.len()
                invariant
                    k <= left@.len(),
                    edits@ == all_copies(left@.take(k as int)),
                decreases left@.len() - k,
            {
                edits.push(IdEdit::Copy(left[k]));
                k = k + 1;
                assert(edits@ =~= all_copies(left@.take(k as int)));
            }
            assert(left@.take(k as int) =~= left@);
            Some(edits)
        },
    }
}

} // verus!
