//! What holds of the edit scripts that the library makes, and of their replay.

use vstd::prelude::*;

use crate::alignment::{lemma_class_id_is_continuity, lemma_first_same, IdEdit};
use crate::atom::{continuity_match, surface_equal, values_of, Atom};
use crate::diff::{
    edit_fits, edit_op, identity_script, left_count, left_ids, lemma_counts_monotone,
    lemma_counts_push, ops_of, right_count, right_ids, script_for, takes_left, takes_right,
    valid_edits,
};
use crate::locator::occurs_at;
use crate::patch::patched;
use crate::replay::{replay, replay_step, step_kind, PatchError, ReplayStep};
use crate::script::{
    first_side, led_to, lemma_pair_op_sides, second_side, taken_from, Op,
};

verus! {

/// A pair of atoms that an edit script between class numbers keeps is a pair
/// of atoms that continuity-match.
pub proof fn lemma_kept_pair_matches(before: Seq<Atom>, after: Seq<Atom>, i: int, j: int)
    requires
        before.len() + after.len() <= usize::MAX,
        0 <= i < before.len(),
        0 <= j < after.len(),
        left_ids(before, after)[i] == right_ids(before, after)[j],
    ensures
        continuity_match(before[i], after[j]),
{
    let all = before + after;
    let n = before.len() as int;
    lemma_first_same(all, i, 0);
    lemma_first_same(all, n + j, 0);
    lemma_class_id_is_continuity(all, i, n + j);
}

/// Where an atom that a replay puts out for the atom at index `q` of the
/// second side comes from: it is that atom itself, or it is the atom of the
/// file that stands where an atom of the first side occurs that is equal to
/// it in every field. So whitespace comes from the second side, but for atoms
/// that the hunk leaves as they are: those keep the whitespace of the file.
pub open spec fn put_out_for(
    atom: Atom,
    before: Seq<Atom>,
    after: Seq<Atom>,
    file: Seq<Atom>,
    o: int,
    q: int,
) -> bool {
    atom == after[q] || exists|i: int|
        0 <= i < before.len() && #[trigger] before[i] == after[q] && atom == file[o + i]
}

/// A script made from an alignment starts from the first side and leads to
/// the second: the atoms that its first `k` operations keep, remove or
/// change are the atoms of the first side that the alignment passes, and
/// those that they keep, insert or change into are the atoms of the second
/// side that it passes.
pub proof fn lemma_sides_of_prefix(before: Seq<Atom>, after: Seq<Atom>, edits: Seq<IdEdit>, k: int)
    requires
        before.len() + after.len() <= usize::MAX,
        valid_edits(edits, left_ids(before, after), right_ids(before, after)),
        0 <= k <= edits.len(),
    ensures
        first_side(ops_of(edits, before, after).take(k)) == before.take(
            left_count(edits.take(k)) as int,
        ),
        second_side(ops_of(edits, before, after).take(k)) == after.take(
            right_count(edits.take(k)) as int,
        ),
    decreases k,
{
    let ops = ops_of(edits, before, after);
    let left = left_ids(before, after);
    let right = right_ids(before, after);
    if k == 0 {
        assert(ops.take(0) =~= Seq::<Op>::empty());
        assert(edits.take(0) =~= Seq::<IdEdit>::empty());
        assert(before.take(0) =~= Seq::<Atom>::empty());
        assert(after.take(0) =~= Seq::<Atom>::empty());
    } else {
        lemma_sides_of_prefix(before, after, edits, k - 1);
        lemma_counts_push(edits, k - 1);
        let e = edits[k - 1];
        let i = left_count(edits.take(k - 1)) as int;
        let j = right_count(edits.take(k - 1)) as int;
        let op = ops[k - 1];
        assert(ops.take(k).drop_last() =~= ops.take(k - 1));
        assert(ops.take(k).last() == op);
        assert(edit_fits(e, left, right, i, j));
        assert(op == edit_op(e, before, after, i, j));
        lemma_op_sides(e, before, after, i, j);
        if takes_left(e) {
            assert(before.take(i + 1) =~= before.take(i).push(before[i]));
        }
        if takes_right(e) {
            assert(after.take(j + 1) =~= after.take(j).push(after[j]));
        }
    }
}

/// The operation that an edit stands for passes the atoms that the edit
/// passes.
proof fn lemma_op_sides(e: IdEdit, before: Seq<Atom>, after: Seq<Atom>, i: int, j: int)
    requires
        !(e is Change),
    ensures
        taken_from(edit_op(e, before, after, i, j)) == if takes_left(e) {
            Some(before[i])
        } else {
            None
        },
        led_to(edit_op(e, before, after, i, j)) == if takes_right(e) {
            Some(after[j])
        } else {
            None
        },
{
    if e is Copy {
        lemma_pair_op_sides(before[i], after[j]);
    }
}

/// An edit script between two sides starts from the first and leads to the
/// second.
pub proof fn lemma_sides_of_script(before: Seq<Atom>, after: Seq<Atom>, edits: Seq<IdEdit>)
    requires
        script_for(before, after, edits) is Some,
    ensures
        first_side(script_for(before, after, edits)->0) == before,
        second_side(script_for(before, after, edits)->0) == after,
{
    let ops = ops_of(edits, before, after);
    lemma_sides_of_prefix(before, after, edits, edits.len() as int);
    assert(ops.take(edits.len() as int) =~= ops);
    assert(edits.take(edits.len() as int) =~= edits);
    assert(before.take(before.len() as int) =~= before);
    assert(after.take(after.len() as int) =~= after);
}

/// The replay of the first `k` operations of a script made from an alignment
/// goes through where the first side occurs in the file: it passes one atom
/// of the file for each that the alignment passes on the first side, and puts
/// out, for each atom that the alignment passes on the second side, an atom
/// with the text of that one: that atom itself, or the atom of the file that
/// stands for an equal atom of the first side.
pub proof fn lemma_replay_of_prefix(
    before: Seq<Atom>,
    after: Seq<Atom>,
    file: Seq<Atom>,
    edits: Seq<IdEdit>,
    o: int,
    k: int,
)
    requires
        before.len() + after.len() <= usize::MAX,
        valid_edits(edits, left_ids(before, after), right_ids(before, after)),
        occurs_at(before, file, o),
        0 <= k <= edits.len(),
    ensures
        ({
            let r = replay(ops_of(edits, before, after).take(k), file, o, after);
            &&& r.error is None
            &&& r.consumed == left_count(edits.take(k))
            &&& r.taken == right_count(edits.take(k))
            &&& r.consumed <= before.len()
            &&& r.taken <= after.len()
            &&& r.emitted.len() == r.taken
            &&& forall|q: int| 0 <= q < r.taken ==> (#[trigger] r.emitted[q]).value == after[q].value
            &&& forall|q: int|
                0 <= q < r.taken ==> put_out_for(#[trigger] r.emitted[q], before, after, file, o, q)
        }),
    decreases k,
{
    let ops = ops_of(edits, before, after);
    let left = left_ids(before, after);
    let right = right_ids(before, after);
    lemma_counts_monotone(edits, k, edits.len() as int);
    assert(edits.take(edits.len() as int) =~= edits);
    if k == 0 {
        assert(ops.take(0) =~= Seq::<Op>::empty());
        assert(edits.take(0) =~= Seq::<IdEdit>::empty());
    } else {
        lemma_replay_of_prefix(before, after, file, edits, o, k - 1);
        lemma_counts_push(edits, k - 1);
        assert(ops.take(k).drop_last() =~= ops.take(k - 1));
        assert(ops.take(k).last() == ops[k - 1]);
        let prev = replay(ops.take(k - 1), file, o, after);
        let next = replay(ops.take(k), file, o, after);
        let e = edits[k - 1];
        let i = left_count(edits.take(k - 1)) as int;
        let j = right_count(edits.take(k - 1)) as int;
        let op = ops[k - 1];
        assert(op == edit_op(e, before, after, i, j));
        assert(edit_fits(e, left, right, i, j));
        assert(next == replay_step(prev, op, file, o, after));
        match e {
            IdEdit::Copy(x) => {
                lemma_kept_pair_matches(before, after, i, j);
                assert(surface_equal(before[i], file[o + i]));
                if before[i] == after[j] {
                    assert(op == Op::Copy(before[i]));
                } else {
                    assert(step_kind(op) == ReplayStep::ApplyField);
                }
            },
            IdEdit::Insert(x) => {},
            IdEdit::Remove(x) => {
                assert(surface_equal(before[i], file[o + i]));
            },
            IdEdit::Change(_, _) => {},
        }
    }
}

/// The replay of a script made from an alignment, where the first side occurs
/// in the file, goes through: it passes as many atoms of the file as the first
/// side has, and puts out one atom for each atom of the second side, with the
/// text of that one: that atom itself, or the atom of the file that stands for
/// an equal atom of the first side.
pub proof fn lemma_replay_of_script(
    before: Seq<Atom>,
    after: Seq<Atom>,
    file: Seq<Atom>,
    edits: Seq<IdEdit>,
    o: int,
)
    requires
        script_for(before, after, edits) is Some,
        occurs_at(before, file, o),
    ensures
        ({
            let r = replay(script_for(before, after, edits)->0, file, o, after);
            &&& r.error is None
            &&& r.consumed == before.len()
            &&& r.taken == after.len()
            &&& r.emitted.len() == after.len()
            &&& values_of(r.emitted) == values_of(after)
            &&& forall|q: int|
                0 <= q < after.len() ==> put_out_for(
                    #[trigger] r.emitted[q],
                    before,
                    after,
                    file,
                    o,
                    q,
                )
        }),
{
    let ops = ops_of(edits, before, after);
    lemma_replay_of_prefix(before, after, file, edits, o, edits.len() as int);
    assert(ops.take(edits.len() as int) =~= ops);
    assert(edits.take(edits.len() as int) =~= edits);
    let r = replay(ops, file, o, after);
    assert(values_of(r.emitted) =~= values_of(after));
}

/// What a hunk does to the token texts of a file: where its first side occurs
/// at offset `o`, and an alignment gives a script between its sides, the
/// patched file reads as the file in front of `o`, then the second side, then
/// the file behind the first side.
pub proof fn lemma_patched_values(
    before: Seq<Atom>,
    after: Seq<Atom>,
    file: Seq<Atom>,
    edits: Seq<IdEdit>,
    o: int,
)
    requires
        script_for(before, after, edits) is Some,
        occurs_at(before, file, o),
    ensures
        patched(file, o, after, script_for(before, after, edits)->0) is Ok,
        values_of(patched(file, o, after, script_for(before, after, edits)->0)->Ok_0) == values_of(
            file.take(o),
        ) + values_of(after) + values_of(file.skip(o + before.len())),
{
    lemma_replay_of_script(before, after, file, edits, o);
    let r = replay(script_for(before, after, edits)->0, file, o, after);
    let out = file.take(o) + r.emitted + file.skip(o + before.len());
    assert(values_of(r.emitted).len() == r.emitted.len());
    assert(values_of(after).len() == after.len());
    assert forall|q: int| 0 <= q < r.emitted.len() implies r.emitted[q].value == after[q].value by {
        assert(values_of(r.emitted)[q] == r.emitted[q].value);
        assert(values_of(after)[q] == after[q].value);
    }
    assert(values_of(out) =~= values_of(file.take(o)) + values_of(after) + values_of(
        file.skip(o + before.len()),
    ));
}

/// A hunk whose two sides are the same sequence changes nothing: replayed
/// where that sequence occurs in the file, the script that keeps every atom
/// gives the file back as it is.
pub proof fn lemma_identity_hunk_keeps_file(side: Seq<Atom>, file: Seq<Atom>, o: int)
    requires
        occurs_at(side, file, o),
    ensures
        patched(file, o, side, identity_script(side)) == Ok::<Seq<Atom>, PatchError>(file),
{
    let n = side.len() as int;
    let ops = identity_script(side);
    lemma_copies_replay(side, file, o, n);
    assert(ops.take(n) =~= ops);
    let r = replay(ops, file, o, side);
    assert(file.take(o) + r.emitted + file.skip(o + r.consumed) =~= file);
}

/// The replay of the first `k` operations of the script that keeps every atom
/// of `side` puts out the atoms of the file that stand there.
proof fn lemma_copies_replay(side: Seq<Atom>, file: Seq<Atom>, o: int, k: int)
    requires
        occurs_at(side, file, o),
        0 <= k <= side.len(),
    ensures
        ({
            let r = replay(identity_script(side).take(k), file, o, side);
            &&& r.error is None
            &&& r.consumed == k
            &&& r.taken == k
            &&& r.emitted == file.subrange(o, o + k)
        }),
    decreases k,
{
    let ops = identity_script(side);
    if k == 0 {
        assert(ops.take(0) =~= Seq::<Op>::empty());
        assert(replay(ops.take(0), file, o, side).emitted =~= file.subrange(o, o));
    } else {
        lemma_copies_replay(side, file, o, k - 1);
        assert(ops.take(k).drop_last() =~= ops.take(k - 1));
        assert(ops.take(k).last() == ops[k - 1]);
        assert(ops[k - 1] == Op::Copy(side[k - 1]));
        assert(surface_equal(side[k - 1], file[o + (k - 1)]));
        let prev = replay(ops.take(k - 1), file, o, side);
        let next = replay(ops.take(k), file, o, side);
        assert(next == replay_step(prev, ops[k - 1], file, o, side));
        assert(next.emitted =~= file.subrange(o, o + k));
    }
}

} // verus!
