//! Replaying an edit script against the atoms of a file.

use vstd::prelude::*;

use crate::atom::{surface_equal, Atom, ParseStruct, TextAtom};
use crate::script::{script_view, AtomEdit, FieldChange, FieldEdit, Op};

verus! {

/// Why a hunk could not be applied.
#[derive(Clone, Copy, Debug, PartialEq, Eq, Structural)]
pub enum PatchError {
    /// The atoms of the hunk's first side occur nowhere in the file.
    ContextNotFound,
    /// The edit script does not agree with the atoms it is replayed against:
    /// an atom that it keeps, removes or changes is not the one that the file
    /// holds there, or it runs past the end of a sequence.
    ConsistencyViolation,
    /// The edit script changes the text of a token. A token is removed and
    /// another inserted; it is never rewritten.
    UnsupportedIdentityEdit,
}

/// What the replay does for one operation of the script.
#[derive(Clone, Copy, Debug, PartialEq, Eq, Structural)]
pub enum ReplayStep {
    /// Keep the atom of the file.
    ApplyCopy,
    /// Put in an atom of the second side.
    ApplyInsert,
    /// Drop the atom of the file.
    ApplyRemove,
    /// Replace the atom of the file by that of the second side, which has the
    /// same text.
    ApplyField,
    /// The text of the token changed: nothing can be done.
    ApplyUnsupported,
}

/// What the replay does for `op`.
pub open spec fn step_kind(op: Op) -> ReplayStep {
    match op {
        Op::Copy(_) => ReplayStep::ApplyCopy,
        Op::Insert(_) => ReplayStep::ApplyInsert,
        Op::Remove(_) => ReplayStep::ApplyRemove,
        Op::Change(c) => match c.value {
            FieldChange::Copy(_) => ReplayStep::ApplyField,
            FieldChange::Change(_, _) => ReplayStep::ApplyUnsupported,
        },
    }
}

/// What the replay does for `op`.
pub fn classify(op: &AtomEdit) -> (kind: ReplayStep)
    ensures
        kind == step_kind(op@),
{
    match op {
        AtomEdit::Copy(_) => ReplayStep::ApplyCopy,
        AtomEdit::Insert(_) => ReplayStep::ApplyInsert,
        AtomEdit::Remove(_) => ReplayStep::ApplyRemove,
        AtomEdit::Change(c) => match &c.token_value {
            FieldEdit::Copy(_) => ReplayStep::ApplyField,
            FieldEdit::Change(_, _) => ReplayStep::ApplyUnsupported,
        },
    }
}

/// The state of a replay: what it has put out, how many atoms of the file and
/// of the second side it has passed, and the reason it stopped, if it did.
pub struct Replay {
    pub emitted: Seq<Atom>,
    pub consumed: nat,
    pub taken: nat,
    pub error: Option<PatchError>,
}

/// The replay stopped in state `prev` for the reason `e`.
pub open spec fn stopped(prev: Replay, e: PatchError) -> Replay {
    Replay { emitted: prev.emitted, consumed: prev.consumed, taken: prev.taken, error: Some(e) }
}

/// One step of the replay: the state after `op`, from the state `prev` before
/// it. The file is read at `p + prev.consumed`, the second side at
/// `prev.taken`.
pub open spec fn replay_step(prev: Replay, op: Op, file: Seq<Atom>, p: int, after: Seq<Atom>) -> Replay {
    let c = p + prev.consumed;
    match op {
        Op::Copy(elem) => if 0 <= c < file.len() && surface_equal(file[c], elem) {
            Replay {
                emitted: prev.emitted.push(file[c]),
                consumed: prev.consumed + 1,
                taken: prev.taken + 1,
                error: None,
            }
        } else {
            stopped(prev, PatchError::ConsistencyViolation)
        },
        Op::Insert(elem) => Replay {
            emitted: prev.emitted.push(elem),
            consumed: prev.consumed,
            taken: prev.taken + 1,
            error: None,
        },
        Op::Remove(elem) => if 0 <= c < file.len() && surface_equal(file[c], elem) {
            Replay {
                emitted: prev.emitted,
                consumed: prev.consumed + 1,
                taken: prev.taken,
                error: None,
            }
        } else {
            stopped(prev, PatchError::ConsistencyViolation)
        },
        Op::Change(_) => if step_kind(op) == ReplayStep::ApplyUnsupported {
            stopped(prev, PatchError::UnsupportedIdentityEdit)
        } else if prev.taken < after.len() && 0 <= c < file.len() && surface_equal(
            file[c],
            after[prev.taken as int],
        ) {
            Replay {
                emitted: prev.emitted.push(after[prev.taken as int]),
                consumed: prev.consumed + 1,
                taken: prev.taken + 1,
                error: None,
            }
        } else {
            stopped(prev, PatchError::ConsistencyViolation)
        },
    }
}

/// The replay of `script` against `file` from offset `p`, with `after` as the
/// second side of the hunk. It goes through the script from left to right and
/// stops at the first operation that fails.
pub open spec fn replay(script: Seq<Op>, file: Seq<Atom>, p: int, after: Seq<Atom>) -> Replay
    decreases script.len(),
{
    if script.len() == 0 {
        Replay { emitted: Seq::empty(), consumed: 0, taken: 0, error: None }
    } else {
        let prev = replay(script.drop_last(), file, p, after);
        if prev.error is Some {
            prev
        } else {
            replay_step(prev, script.last(), file, p, after)
        }
    }
}

/// Whether the file holds, at `p + skip`, an atom with the text of `elem`.
fn file_holds(src_file: &ParseStruct, p: usize, skip: usize, elem: &TextAtom) -> (res: bool)
    ensures
        res == (p + skip < src_file@.len() && surface_equal(src_file@[p + skip], elem@)),
{
    let n = src_file.atoms.len();
    if p < n && skip < n - p {
        src_file.atoms[p + skip] == *elem
    } else {
        false
    }
}

/// Replays `diff` against `src_file` from offset `p` and appends what it puts
/// out to `out_file`. `right` is the second side of the hunk. Returns the
/// number of atoms of the file that the script passed, or the reason why the
/// replay stopped; `out_file` then holds what was put out until then.
pub fn apply_patch(
    out_file: &mut ParseStruct,
    src_file: &ParseStruct,
    p: usize,
    right: &ParseStruct,
    diff: &Vec<AtomEdit>,
) -> (res: Result<usize, PatchError>)
    ensures
        final(out_file)@ == old(out_file)@ + replay(
            script_view(diff@),
            src_file@,
            p as int,
            right@,
        ).emitted,
        match res {
            Ok(n) => {
                let r = replay(script_view(diff@), src_file@, p as int, right@);
                r.error is None && n == r.consumed
            },
            Err(e) => replay(script_view(diff@), src_file@, p as int, right@).error == Some(e),
        },
        !(res matches Err(PatchError::ContextNotFound)),
{
    let ghost start = out_file@;
    let ghost script = script_view(diff@);
    let file_len = src_file.atoms.len();
    proof {
        lemma_replay_errors(script, src_file@, p as int, right@);
    }
    let mut atom_index: usize = 0;
    let mut src_skip: usize = 0;
    let mut i: usize = 0;
    assert(start + replay(script.take(0), src_file@, p as int, right@).emitted =~= start);
    while i < diff.len()
        invariant
            i <= diff.len(),
            script == script_view(diff@),
            start == old(out_file)@,
            src_file@.len() == file_len,
            right@.len() == right.atoms@.len(),
            src_skip <= i,
            atom_index <= i,
            replay(script.take(i as int), src_file@, p as int, right@).error is None,
            replay(script.take(i as int), src_file@, p as int, right@).consumed == src_skip,
            replay(script.take(i as int), src_file@, p as int, right@).taken == atom_index,
            out_file@ == start + replay(script.take(i as int), src_file@, p as int, right@).emitted,
        decreases diff.len() - i,
    {
        let ghost prev = replay(script.take(i as int), src_file@, p as int, right@);
        let ghost next = replay(script.take(i + 1), src_file@, p as int, right@);
        let ghost before_push = out_file@;
        proof {
            assert(script.take(i + 1).drop_last() =~= script.take(i as int));
            assert(script.take(i + 1).last() == diff@[i as int]@);
            assert(next == replay_step(prev, diff@[i as int]@, src_file@, p as int, right@));
        }
        let failure: Option<PatchError> = match &diff[i] {
            AtomEdit::Copy(elem) => {
                if file_holds(src_file, p, src_skip, elem) {
                    out_file.atoms.push(src_file.atoms[p + src_skip].clone());
                    atom_index = atom_index + 1;
                    src_skip = src_skip + 1;
                    None
                } else {
                    Some(PatchError::ConsistencyViolation)
                }
            },
            AtomEdit::Insert(elem) => {
                out_file.atoms.push(elem.clone());
                atom_index = atom_index + 1;
                None
            },
            AtomEdit::Remove(elem) => {
                if file_holds(src_file, p, src_skip, elem) {
                    src_skip = src_skip + 1;
                    None
                } else {
                    Some(PatchError::ConsistencyViolation)
                }
            },
            AtomEdit::Change(_) => {
                match classify(&diff[i]) {
                    ReplayStep::ApplyUnsupported => Some(PatchError::UnsupportedIdentityEdit),
                    _ => {
                        if atom_index < right.atoms.len() && file_holds(
                            src_file,
                            p,
                            src_skip,
                            &right.atoms[atom_index],
                        ) {
                            out_file.atoms.push(right.atoms[atom_index].clone());
                            atom_index = atom_index + 1;
                            src_skip = src_skip + 1;
                            None
                        } else {
                            Some(PatchError::ConsistencyViolation)
                        }
                    },
                }
            },
        };
        proof {
            assert(next.error == failure);
            if failure is None {
                assert(out_file@ =~= before_push + next.emitted.skip(prev.emitted.len() as int));
            }
            assert(out_file@ =~= start + next.emitted);
        }
        if let Some(e) = failure {
            proof {
                lemma_replay_stays_stopped(script, i + 1, src_file@, p as int, right@);
            }
            return Err(e);
        }
        i += 1;
    }
    assert(script.take(i as int) =~= script);
    Ok(src_skip)
}

/// A replay never stops for want of context: that is for the locator to say.
pub proof fn lemma_replay_errors(script: Seq<Op>, file: Seq<Atom>, p: int, after: Seq<Atom>)
    ensures
        replay(script, file, p, after).error != Some(PatchError::ContextNotFound),
    decreases script.len(),
{
    if script.len() > 0 {
        lemma_replay_errors(script.drop_last(), file, p, after);
    }
}

/// Once the replay of a prefix of the script has stopped, the replay of the
/// whole script is in that same state.
pub proof fn lemma_replay_stays_stopped(
    script: Seq<Op>,
    k: int,
    file: Seq<Atom>,
    p: int,
    after: Seq<Atom>,
)
    requires
        0 <= k <= script.len(),
        replay(script.take(k), file, p, after).error is Some,
    ensures
        replay(script, file, p, after) == replay(script.take(k), file, p, after),
    decreases script.len() - k,
{
    if k == script.len() {
        assert(script.take(k) =~= script);
    } else {
        assert(script.take(k + 1).drop_last() =~= script.take(k));
        lemma_replay_stays_stopped(script, k + 1, file, p, after);
    }
}

} // verus!
