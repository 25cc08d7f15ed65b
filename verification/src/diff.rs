//! The edit script between two atom sequences, from their alignment.

use vstd::prelude::*;

use crate::alignment::{
    align, alignable, all_copies, class_id, class_ids, continuity_classes, diffus_edits, edits_of,
    lemma_alignable_sum, lemma_class_id_is_continuity, IdEdit,
};
use crate::atom::{lemma_continuity_equivalence, Atom, ParseStruct};
use crate::script::{diff_pair, pair_op, script_view, AtomEdit, Op};

verus! {

/// Whether the edit passes an element of the first side.
pub open spec fn takes_left(e: IdEdit) -> bool {
    !(e is Insert)
}

/// Whether the edit passes an element of the second side.
pub open spec fn takes_right(e: IdEdit) -> bool {
    !(e is Remove)
}

/// The number of elements of the first side that the edits pass.
pub open spec fn left_count(edits: Seq<IdEdit>) -> nat
    decreases edits.len(),
{
    if edits.len() == 0 {
        0
    } else {
        left_count(edits.drop_last()) + if takes_left(edits.last()) {
            1nat
        } else {
            0nat
        }
    }
}

/// The number of elements of the second side that the edits pass.
pub open spec fn right_count(edits: Seq<IdEdit>) -> nat
    decreases edits.len(),
{
    if edits.len() == 0 {
        0
    } else {
        right_count(edits.drop_last()) + if takes_right(edits.last()) {
            1nat
        } else {
            0nat
        }
    }
}

/// Whether the edit `e` agrees with the two sequences of class numbers, read
/// at index `i` of the first and index `j` of the second: the numbers that it
/// names are those that stand there, and a pair that it keeps is a pair of
/// equal numbers.
pub open spec fn edit_fits(e: IdEdit, left: Seq<usize>, right: Seq<usize>, i: int, j: int) -> bool {
    match e {
        IdEdit::Copy(x) => i < left.len() && j < right.len() && left[i] == x && right[j] == x,
        IdEdit::Insert(x) => j < right.len() && right[j] == x,
        IdEdit::Remove(x) => i < left.len() && left[i] == x,
        IdEdit::Change(_, _) => false,
    }
}

/// Whether `edits` is an edit script from `left` to `right`: each edit agrees
/// with the two sequences where it stands, and together they pass all of
/// both.
pub open spec fn valid_edits(edits: Seq<IdEdit>, left: Seq<usize>, right: Seq<usize>) -> bool {
    &&& forall|k: int|
        0 <= k < edits.len() ==> edit_fits(
            #[trigger] edits[k],
            left,
            right,
            left_count(edits.take(k)) as int,
            right_count(edits.take(k)) as int,
        )
    &&& left_count(edits) == left.len()
    &&& right_count(edits) == right.len()
}

/// The operation on atoms that the edit `e` stands for, read at index `i` of
/// `before` and index `j` of `after`.
pub open spec fn edit_op(e: IdEdit, before: Seq<Atom>, after: Seq<Atom>, i: int, j: int) -> Op {
    match e {
        IdEdit::Insert(_) => Op::Insert(after[j]),
        IdEdit::Remove(_) => Op::Remove(before[i]),
        _ => pair_op(before[i], after[j]),
    }
}

/// The operations on atoms that `edits` stand for.
pub open spec fn ops_of(edits: Seq<IdEdit>, before: Seq<Atom>, after: Seq<Atom>) -> Seq<Op> {
    Seq::new(
        edits.len(),
        |k: int|
            edit_op(
                edits[k],
                before,
                after,
                left_count(edits.take(k)) as int,
                right_count(edits.take(k)) as int,
            ),
    )
}

/// The class numbers of the atoms of `before`, among those of both sides.
pub open spec fn left_ids(before: Seq<Atom>, after: Seq<Atom>) -> Seq<usize> {
    class_ids(before + after, 0, before.len() as int)
}

/// The class numbers of the atoms of `after`, among those of both sides.
pub open spec fn right_ids(before: Seq<Atom>, after: Seq<Atom>) -> Seq<usize> {
    class_ids(before + after, before.len() as int, (before + after).len() as int)
}

/// The edit script from `before` to `after` that the alignment `edits` of
/// their class numbers stands for; `None` where the two sides together hold
/// more atoms than a `usize` counts, or where `edits` is no edit script from
/// the one sequence of class numbers to the other.
pub open spec fn script_for(before: Seq<Atom>, after: Seq<Atom>, edits: Seq<IdEdit>) -> Option<
    Seq<Op>,
> {
    if before.len() + after.len() <= usize::MAX && valid_edits(
        edits,
        left_ids(before, after),
        right_ids(before, after),
    ) {
        Some(ops_of(edits, before, after))
    } else {
        None
    }
}

/// The edit script from `before` to `after`: the one that the alignment by
/// `diffus` of their class numbers stands for; `None` where the two sides are
/// too long to be aligned.
pub open spec fn diff_script(before: Seq<Atom>, after: Seq<Atom>) -> Option<Seq<Op>> {
    if alignable(before.len(), after.len()) {
        script_for(
            before,
            after,
            edits_of(
                diffus_edits(left_ids(before, after), right_ids(before, after)),
                left_ids(before, after),
            ),
        )
    } else {
        None
    }
}

/// Adding an edit to a list adds what it passes to the counts.
pub proof fn lemma_counts_push(edits: Seq<IdEdit>, k: int)
    requires
        0 <= k < edits.len(),
    ensures
        left_count(edits.take(k + 1)) == left_count(edits.take(k)) + if takes_left(edits[k]) {
            1nat
        } else {
            0nat
        },
        right_count(edits.take(k + 1)) == right_count(edits.take(k)) + if takes_right(edits[k]) {
            1nat
        } else {
            0nat
        },
{
    assert(edits.take(k + 1).drop_last() =~= edits.take(k));
    assert(edits.take(k + 1).last() == edits[k]);
}

/// The counts of a list of edits grow along the list, and none exceeds its
/// length.
pub proof fn lemma_counts_monotone(edits: Seq<IdEdit>, a: int, b: int)
    requires
        0 <= a <= b <= edits.len(),
    ensures
        left_count(edits.take(a)) <= left_count(edits.take(b)) <= b,
        right_count(edits.take(a)) <= right_count(edits.take(b)) <= b,
    decreases b,
{
    if b > 0 {
        lemma_counts_push(edits, b - 1);
        if a < b {
            lemma_counts_monotone(edits, a, b - 1);
        } else {
            lemma_counts_monotone(edits, b - 1, b - 1);
        }
    } else {
        assert(edits.take(0) =~= Seq::<IdEdit>::empty());
    }
}

/// The edit script that the alignment `edits` stands for, from the class
/// numbers `left` of `before` and `right` of `after`.
fn build_script(
    before: &ParseStruct,
    after: &ParseStruct,
    left: &Vec<usize>,
    right: &Vec<usize>,
    edits: &Vec<IdEdit>,
) -> (res: Option<Vec<AtomEdit>>)
    requires
        left@.len() == before@.len(),
        right@.len() == after@.len(),
    ensures
        match res {
            Some(script) => valid_edits(edits@, left@, right@) && script_view(script@) == ops_of(
                edits@,
                before@,
                after@,
            ),
            None => !valid_edits(edits@, left@, right@),
        },
{
    let n = left.len();
    let m = right.len();
    let mut script: Vec<AtomEdit> = Vec::new();
    let mut i: usize = 0;
    let mut j: usize = 0;
    let mut k: usize = 0;
    assert(edits@.take(0) =~= Seq::<IdEdit>::empty());
    while k < edits.len()
        invariant
            k <= edits@.len(),
            n == left@.len(),
            m == right@.len(),
            n == before@.len(),
            m == after@.len(),
            n == before.atoms@.len(),
            m == after.atoms@.len(),
            i == left_count(edits@.take(k as int)),
            j == right_count(edits@.take(k as int)),
            i <= n,
            j <= m,
            script@.len() == k,
            forall|q: int|
                0 <= q < k ==> edit_fits(
                    #[trigger] edits@[q],
                    left@,
                    right@,
                    left_count(edits@.take(q)) as int,
                    right_count(edits@.take(q)) as int,
                ),
            forall|q: int|
                0 <= q < k ==> (#[trigger] script@[q])@ == edit_op(
                    edits@[q],
                    before@,
                    after@,
                    left_count(edits@.take(q)) as int,
                    right_count(edits@.take(q)) as int,
                ),
        decreases edits@.len() - k,
    {
        proof {
            lemma_counts_push(edits@, k as int);
        }
        let ghost fits = edit_fits(edits@[k as int], left@, right@, i as int, j as int);
        let op: Option<AtomEdit> = match edits[k] {
            IdEdit::Copy(x) => {
                if i < n && j < m && left[i] == x && right[j] == x {
                    let op = diff_pair(&before.atoms[i], &after.atoms[j]);
                    i = i + 1;
                    j = j + 1;
                    Some(op)
                } else {
                    None
                }
            },
            IdEdit::Insert(x) => {
                if j < m && right[j] == x {
                    let op = AtomEdit::Insert(after.atoms[j].clone());
                    j = j + 1;
                    Some(op)
                } else {
                    None
                }
            },
            IdEdit::Remove(x) => {
                if i < n && left[i] == x {
                    let op = AtomEdit::Remove(before.atoms[i].clone());
                    i = i + 1;
                    Some(op)
                } else {
                    None
                }
            },
            IdEdit::Change(_, _) => None,
        };
        match op {
            Some(op) => {
                assert(fits);
                script.push(op);
            },
            None => {
                assert(!fits);
                return None;
            },
        }
        k = k + 1;
    }
    assert(edits@.take(k as int) =~= edits@);
    if i == n && j == m {
        assert(script_view(script@) =~= ops_of(edits@, before@, after@));
        Some(script)
    } else {
        None
    }
}

/// The edit script from `before` to `after` that the alignment `edits` of
/// their class numbers stands for, or `None` where there is none: where the
/// two sides together hold more atoms than a `usize` counts, or `edits` is no
/// edit script between the two sequences of class numbers.
pub fn script_from_edits(before: &ParseStruct, after: &ParseStruct, edits: &Vec<IdEdit>) -> (res:
    Option<Vec<AtomEdit>>)
    ensures
        match res {
            Some(script) => script_for(before@, after@, edits@) == Some(script_view(script@)),
            None => script_for(before@, after@, edits@) is None,
        },
{
    match continuity_classes(before, after) {
        Some((left, right)) => build_script(before, after, &left, &right, edits),
        None => None,
    }
}

/// The class numbers of a sequence of atoms are the same on both sides where
/// both sides are that sequence.
pub proof fn lemma_same_sides_same_ids(side: Seq<Atom>)
    ensures
        left_ids(side, side) == right_ids(side, side),
{
    let all = side + side;
    let n = side.len() as int;
    assert(left_ids(side, side) =~= right_ids(side, side)) by {
        assert forall|k: int| 0 <= k < n implies #[trigger] class_id(all, k) == class_id(
            all,
            n + k,
        ) by {
            lemma_class_id_is_continuity(all, k, n + k);
            lemma_continuity_equivalence(side[k], side[k], side[k]);
        }
    }
}

/// The alignment that copies every number is an edit script from a sequence
/// of class numbers to itself.
pub proof fn lemma_all_copies_valid(ids: Seq<usize>, k: int)
    requires
        0 <= k <= ids.len(),
    ensures
        left_count(all_copies(ids).take(k)) == k,
        right_count(all_copies(ids).take(k)) == k,
        k == ids.len() ==> valid_edits(all_copies(ids), ids, ids),
    decreases k,
{
    let edits = all_copies(ids);
    if k == 0 {
        assert(edits.take(0) =~= Seq::<IdEdit>::empty());
    } else {
        lemma_all_copies_valid(ids, k - 1);
        lemma_counts_push(edits, k - 1);
    }
    if k == ids.len() {
        assert(edits.take(k) =~= edits);
        assert forall|q: int| 0 <= q < edits.len() implies edit_fits(
            #[trigger] edits[q],
            ids,
            ids,
            left_count(edits.take(q)) as int,
            right_count(edits.take(q)) as int,
        ) by {
            lemma_all_copies_valid(ids, q);
        }
    }
}

/// The script that keeps every atom of `side`: the edit script from `side` to
/// itself.
pub open spec fn identity_script(side: Seq<Atom>) -> Seq<Op> {
    Seq::new(side.len(), |k: int| Op::Copy(side[k]))
}

/// The alignment that copies every class number stands for the script that
/// keeps every atom.
pub proof fn lemma_identity_script(side: Seq<Atom>)
    requires
        side.len() + side.len() <= usize::MAX,
    ensures
        script_for(side, side, all_copies(left_ids(side, side))) == Some(identity_script(side)),
{
    let ids = left_ids(side, side);
    let edits = all_copies(ids);
    lemma_same_sides_same_ids(side);
    lemma_all_copies_valid(ids, ids.len() as int);
    assert(ops_of(edits, side, side) =~= identity_script(side)) by {
        assert forall|k: int| 0 <= k < side.len() implies ops_of(edits, side, side)[k]
            == identity_script(side)[k] by {
            lemma_all_copies_valid(ids, k);
        }
    }
}

/// The edit script from `before` to `after`. The two sequences are aligned by
/// continuity match: `diffus` aligns the class numbers of their atoms. A pair
/// of atoms that the alignment keeps becomes a copy where the two agree in
/// every field, a change otherwise. Two equal sides give the script that
/// keeps every atom. `None` where the two sides are too long to be aligned,
/// or where what `diffus` reports is no edit script between the two sequences
/// of class numbers.
pub fn diff(before: &ParseStruct, after: &ParseStruct) -> (res: Option<Vec<AtomEdit>>)
    ensures
        match res {
            Some(script) => diff_script(before@, after@) == Some(script_view(script@)),
            None => diff_script(before@, after@) is None,
        },
        before@ == after@ && alignable(before@.len(), after@.len()) ==> diff_script(
            before@,
            after@,
        ) == Some(identity_script(before@)),
{
    proof {
        if alignable(before@.len(), after@.len()) {
            lemma_alignable_sum(before@.len(), after@.len());
        }
    }
    match continuity_classes(before, after) {
        Some((left, right)) => match align(&left, &right) {
            Some(edits) => {
                proof {
                    if before@ == after@ {
                        lemma_same_sides_same_ids(before@);
                        lemma_identity_script(before@);
                    }
                }
                build_script(before, after, &left, &right, &edits)
            },
            None => None,
        },
        None => None,
    }
}

} // verus!
