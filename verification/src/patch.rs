//! Applying a hunk: the edit script between its two sides, replayed where its
//! first side occurs in the file.

use vstd::prelude::*;

use crate::alignment::{alignable, diffus_edits, edits_of};
use crate::atom::{values_of, Atom, ParseStruct};
use crate::diff::{diff, diff_script, left_ids, right_ids};
use crate::laws::{lemma_identity_hunk_keeps_file, lemma_patched_values};
use crate::locator::{locate, location};
use crate::replay::{apply_patch, replay, PatchError};
use crate::script::{script_view, AtomEdit, Op};

verus! {

/// The file after the replay of `script` from offset `p`: the atoms in front
/// of `p`, what the replay put out, and the atoms behind those that it
/// passed; or the reason why the replay stopped. An offset past the end of
/// the file is a violation, whatever the script.
pub open spec fn patched(file: Seq<Atom>, p: int, after: Seq<Atom>, script: Seq<Op>) -> Result<
    Seq<Atom>,
    PatchError,
> {
    let r = replay(script, file, p, after);
    if p < 0 || p > file.len() {
        Err(PatchError::ConsistencyViolation)
    } else {
        match r.error {
            Some(e) => Err(e),
            None => Ok(file.take(p) + r.emitted + file.skip(p + r.consumed)),
        }
    }
}

/// The file after the hunk with the sides `before` and `after` is applied, or
/// the reason why it cannot be.
pub open spec fn apply_result(before: Seq<Atom>, after: Seq<Atom>, file: Seq<Atom>) -> Result<
    Seq<Atom>,
    PatchError,
> {
    match location(before, file) {
        None => Err(PatchError::ContextNotFound),
        Some(p) => match diff_script(before, after) {
            None => Err(PatchError::ConsistencyViolation),
            Some(script) => patched(file, p, after, script),
        },
    }
}

/// A replay that has not stopped has passed atoms that the file holds.
pub proof fn lemma_replay_in_file(script: Seq<Op>, file: Seq<Atom>, p: int, after: Seq<Atom>)
    requires
        0 <= p <= file.len(),
        replay(script, file, p, after).error is None,
    ensures
        p + replay(script, file, p, after).consumed <= file.len(),
        replay(script, file, p, after).taken <= script.len(),
    decreases script.len(),
{
    if script.len() > 0 {
        let prev = replay(script.drop_last(), file, p, after);
        lemma_replay_in_file(script.drop_last(), file, p, after);
    }
}

/// The atoms of `file` from index `from` up to `to`, appended to `out`.
fn append_atoms(out: &mut ParseStruct, file: &ParseStruct, from: usize, to: usize)
    requires
        from <= to <= file@.len(),
    ensures
        final(out)@ == old(out)@ + file@.subrange(from as int, to as int),
{
    let ghost start = out@;
    let mut k: usize = from;
    assert(out@ =~= start + file@.subrange(from as int, k as int));
    while k < to
        invariant
            from <= k <= to,
            to <= file@.len(),
            file@.len() == file.atoms@.len(),
            out@ == start + file@.subrange(from as int, k as int),
        decreases to - k,
    {
        let ghost prev = out@;
        out.atoms.push(file.atoms[k].clone());
        k = k + 1;
        assert(out@ =~= prev.push(file@[k - 1]));
        assert(out@ =~= start + file@.subrange(from as int, k as int));
    }
}

/// Replays `script` against `file` from offset `p`, with `right` as the second
/// side of the hunk, and puts the file together again round what the replay
/// put out. Fails with the reason why the replay stopped, and with
/// `ConsistencyViolation` where `p` lies past the end of the file.
pub fn apply_script(file: &ParseStruct, p: usize, right: &ParseStruct, script: &Vec<AtomEdit>) -> (res:
    Result<ParseStruct, PatchError>)
    ensures
        match res {
            Ok(out) => patched(file@, p as int, right@, script_view(script@)) == Ok::<
                Seq<Atom>,
                PatchError,
            >(out@),
            Err(e) => patched(file@, p as int, right@, script_view(script@)) == Err::<
                Seq<Atom>,
                PatchError,
            >(e),
        },
        !(res matches Err(PatchError::ContextNotFound)),
{
    if p > file.atoms.len() {
        return Err(PatchError::ConsistencyViolation);
    }
    let mut out_file = ParseStruct { atoms: Vec::new() };
    assert(out_file@ =~= Seq::<Atom>::empty());
    append_atoms(&mut out_file, file, 0, p);
    match apply_patch(&mut out_file, file, p, right, script) {
        Ok(src_skip) => {
            proof {
                lemma_replay_in_file(script_view(script@), file@, p as int, right@);
            }
            let n = file.atoms.len();
            append_atoms(&mut out_file, file, p + src_skip, n);
            proof {
                let r = replay(script_view(script@), file@, p as int, right@);
                assert(out_file@ =~= file@.take(p as int) + r.emitted + file@.skip(
                    p + r.consumed,
                ));
            }
            Ok(out_file)
        },
        Err(e) => Err(e),
    }
}

/// Applies the hunk with the sides `before` and `after` to `file`: the edit
/// script between the two sides is replayed at the first offset where `before`
/// occurs in `file`.
///
/// The hunk is refused with `ContextNotFound` exactly where `before` occurs
/// nowhere in `file`, and with `ConsistencyViolation` exactly where it occurs
/// and there is no edit script between the two sides: they are too long to be
/// aligned, or `diffus` reports what is none. Otherwise it is applied,
/// and the patched file reads, token by token, as the file in front of the
/// occurrence, then `after`, then the file behind the occurrence. Where the two
/// sides are equal the patched file is the file itself.
pub fn apply(before: &ParseStruct, after: &ParseStruct, file: &ParseStruct) -> (res: Result<
    ParseStruct,
    PatchError,
>)
    ensures
        match res {
            Ok(out) => apply_result(before@, after@, file@) == Ok::<Seq<Atom>, PatchError>(out@),
            Err(e) => apply_result(before@, after@, file@) == Err::<Seq<Atom>, PatchError>(e),
        },
        res matches Err(PatchError::ContextNotFound) <==> location(before@, file@) is None,
        res matches Err(PatchError::ConsistencyViolation) <==> location(before@, file@) is Some
            && diff_script(before@, after@) is None,
        !(res matches Err(PatchError::UnsupportedIdentityEdit)),
        res matches Ok(out) ==> {
            let o = location(before@, file@)->0;
            values_of(out@) == values_of(file@.take(o)) + values_of(after@) + values_of(
                file@.skip(o + before@.len()),
            )
        },
        before@ == after@ ==> (res matches Ok(out) ==> out@ == file@),
        before@ == after@ && location(before@, file@) is Some && alignable(
            before@.len(),
            after@.len(),
        ) ==> res is Ok,
{
    let script = diff(before, after);
    match locate(before, file) {
        None => Err(PatchError::ContextNotFound),
        Some(p) => match script {
            None => Err(PatchError::ConsistencyViolation),
            Some(script) => {
                proof {
                    let edits = edits_of(
                        diffus_edits(left_ids(before@, after@), right_ids(before@, after@)),
                        left_ids(before@, after@),
                    );
                    lemma_patched_values(before@, after@, file@, edits, p as int);
                    if before@ == after@ {
                        lemma_identity_hunk_keeps_file(before@, file@, p as int);
                    }
                }
                apply_script(file, p, after, &script)
            },
        },
    }
}

} // verus!
