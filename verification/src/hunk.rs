//! Hunks as lists of lines, and the patching of a text by a list of hunks.

use vstd::prelude::*;
use vstd::std_specs::iter::IteratorSpec;
use vstd::string::*;

use crate::alignment::alignable;
use crate::atom::{parse_struct2str, text_of, values_of, Atom, ParseStruct};
use crate::chars::white_space;
use crate::diff::diff_script;
use crate::locator::location;
use crate::patch::{apply, apply_result};
use crate::replay::PatchError;
use crate::tokenizer::{parse_string, tokens};

verus! {

/// The mathematical value of a [`Hunk`]: the lines of its two sides.
pub struct HunkLines {
    pub source: Seq<Seq<char>>,
    pub target: Seq<Seq<char>>,
}

/// One hunk of a patch: the lines of the text before the change, context
/// included, and the lines of the text after it.
#[derive(Debug)]
pub struct Hunk {
    pub source_lines: Vec<String>,
    pub target_lines: Vec<String>,
}

/// The lines as texts.
pub open spec fn lines_view(lines: Seq<String>) -> Seq<Seq<char>> {
    Seq::new(lines.len(), |i: int| lines[i]@)
}

impl View for Hunk {
    type V = HunkLines;

    open spec fn view(&self) -> HunkLines {
        HunkLines {
            source: lines_view(self.source_lines@),
            target: lines_view(self.target_lines@),
        }
    }
}

/// The lines with a newline between each two.
pub open spec fn separated(lines: Seq<Seq<char>>) -> Seq<char>
    decreases lines.len(),
{
    if lines.len() == 0 {
        Seq::empty()
    } else if lines.len() == 1 {
        lines[0]
    } else {
        separated(lines.drop_last()) + seq!['\n'] + lines.last()
    }
}

/// A newline, then the lines with a newline between each two.
pub open spec fn joined(lines: Seq<Seq<char>>) -> Seq<char> {
    seq!['\n'] + separated(lines)
}

/// The length of `s` without the whitespace at its end.
pub open spec fn trimmed_len(s: Seq<char>) -> nat
    decreases s.len(),
{
    if s.len() > 0 && white_space(s.last()) {
        trimmed_len(s.drop_last())
    } else {
        s.len()
    }
}

/// The text `s` without the whitespace at its end.
pub open spec fn trim_end(s: Seq<char>) -> Seq<char> {
    s.take(trimmed_len(s) as int)
}

/// The atoms of one side of a hunk: its lines are joined, the whitespace at
/// the end is dropped, and what is left is tokenized.
pub open spec fn side_atoms(lines: Seq<Seq<char>>) -> Seq<Atom> {
    tokens(trim_end(joined(lines)))
}

/// The file after the hunk is applied, or the reason why it cannot be.
pub open spec fn hunk_result(file: Seq<Atom>, hunk: HunkLines) -> Result<Seq<Atom>, PatchError> {
    apply_result(side_atoms(hunk.source), side_atoms(hunk.target), file)
}

/// The file after the hunks are applied one after another, each to what the
/// one before it left, or the reason why the first that fails cannot be.
pub open spec fn hunks_result(file: Seq<Atom>, hunks: Seq<HunkLines>) -> Result<
    Seq<Atom>,
    PatchError,
>
    decreases hunks.len(),
{
    if hunks.len() == 0 {
        Ok(file)
    } else {
        match hunks_result(file, hunks.drop_last()) {
            Ok(so_far) => hunk_result(so_far, hunks.last()),
            Err(e) => Err(e),
        }
    }
}

/// What cutting the whitespace at the end leaves is a part of the text.
pub proof fn lemma_trimmed_len_bound(s: Seq<char>)
    ensures
        trimmed_len(s) <= s.len(),
    decreases s.len(),
{
    if s.len() > 0 && white_space(s.last()) {
        lemma_trimmed_len_bound(s.drop_last());
    }
}

/// A text without the whitespace at its end ends in no whitespace, and what
/// was cut is whitespace throughout.
pub proof fn lemma_trim_end(s: Seq<char>)
    ensures
        trim_end(s).len() > 0 ==> !white_space(trim_end(s).last()),
        forall|i: int| trimmed_len(s) <= i < s.len() ==> white_space(#[trigger] s[i]),
    decreases s.len(),
{
    lemma_trimmed_len_bound(s);
    if s.len() > 0 && white_space(s.last()) {
        let t = s.drop_last();
        lemma_trim_end(t);
        lemma_trimmed_len_bound(t);
        assert(trim_end(s) =~= trim_end(t));
        assert forall|i: int| trimmed_len(s) <= i < s.len() implies white_space(
            #[trigger] s[i],
        ) by {
            if i < t.len() {
                assert(s[i] == t[i]);
            }
        }
    } else {
        assert(trim_end(s) =~= s);
    }
}

/// A newline, then the lines with a newline between each two.
pub fn join_lines(lines: &Vec<String>) -> (res: String)
    ensures
        res@ == joined(lines_view(lines@)),
{
    let ghost all = lines_view(lines@);
    let mut out = String::new();
    out.push('\n');
    let mut k: usize = 0;
    assert(all.take(0) =~= Seq::<Seq<char>>::empty());
    assert(out@ =~= joined(all.take(0)));
    while k < lines.len()
        invariant
            k <= lines@.len(),
            all == lines_view(lines@),
            out@ == joined(all.take(k as int)),
        decreases lines@.len() - k,
    {
        if k > 0 {
            out.push('\n');
        }
        out.append(lines[k].as_str());
        proof {
            let next = all.take(k + 1);
            assert(next.drop_last() =~= all.take(k as int));
            assert(next.last() == lines@[k as int]@);
            assert(out@ =~= joined(next));
        }
        k = k + 1;
    }
    assert(all.take(k as int) =~= all);
    out
}

/// The text without the whitespace at its end.
pub fn trim_trailing_whitespace(text: &str) -> (res: String)
    ensures
        res@ == trim_end(text@),
{
    let mut chars: Vec<char> = Vec::new();
    for c in it: text.chars()
        invariant
            it.seq() == text@,
            chars@ == it.seq().take(it.index()),
    {
        chars.push(c);
    }
    assert(chars@ =~= text@);
    let mut n: usize = chars.len();
    assert(chars@.take(n as int) =~= chars@);
    while n > 0 && chars[n - 1].is_whitespace()
        invariant
            n <= chars@.len(),
            trimmed_len(chars@) == trimmed_len(chars@.take(n as int)),
        decreases n,
    {
        assert(chars@.take(n as int).drop_last() =~= chars@.take(n - 1));
        n = n - 1;
    }
    assert(trimmed_len(chars@) == n);
    let mut out = String::new();
    let mut k: usize = 0;
    while k < n
        invariant
            k <= n <= chars@.len(),
            out@ == chars@.take(k as int),
        decreases n - k,
    {
        out.push(chars[k]);
        k = k + 1;
        assert(out@ =~= chars@.take(k as int));
    }
    out
}

/// The atoms of one side of a hunk, from its lines.
pub fn hunk_side(lines: &Vec<String>) -> (res: ParseStruct)
    ensures
        res@ == side_atoms(lines_view(lines@)),
{
    let text = join_lines(lines);
    let text = trim_trailing_whitespace(text.as_str());
    parse_string(text.as_str())
}

/// Whether the hunk is one that leaves the file as it is and can be applied:
/// its two sides are the same lines, their atoms occur in the file, and they
/// are not too long to be aligned.
pub open spec fn keeps_file(file: Seq<Atom>, hunk: HunkLines) -> bool {
    &&& hunk.source == hunk.target
    &&& location(side_atoms(hunk.source), file) is Some
    &&& alignable(side_atoms(hunk.source).len(), side_atoms(hunk.source).len())
}

/// Whether each of the hunks leaves the file as it is and can be applied.
pub open spec fn all_keep_file(file: Seq<Atom>, hunks: Seq<HunkLines>) -> bool {
    forall|k: int| 0 <= k < hunks.len() ==> keeps_file(file, #[trigger] hunks[k])
}

/// Whether the hunk at `index` is the first that cannot be applied, for the
/// reason `error`: the hunks in front of it can be, and it cannot be applied
/// to what they leave.
pub open spec fn fails_at(file: Seq<Atom>, hunks: Seq<HunkLines>, index: int, error: PatchError) -> bool {
    &&& 0 <= index < hunks.len()
    &&& hunks_result(file, hunks.take(index)) is Ok
    &&& hunk_result(hunks_result(file, hunks.take(index))->Ok_0, hunks[index]) == Err::<
        Seq<Atom>,
        PatchError,
    >(error)
}

/// The hunks as lists of lines.
pub open spec fn hunks_view(hunks: Seq<Hunk>) -> Seq<HunkLines> {
    Seq::new(hunks.len(), |i: int| hunks[i]@)
}

/// A hunk that could not be applied: its index in the list of hunks, and the
/// reason.
#[derive(Clone, Copy, Debug, PartialEq, Eq, Structural)]
pub struct HunkFailure {
    pub index: usize,
    pub error: PatchError,
}

/// Applies one hunk to the atoms of a file.
///
/// The hunk is refused with `ContextNotFound` exactly where the atoms of its
/// first side occur nowhere in the file, and with `ConsistencyViolation`
/// exactly where they occur and there is no edit script between the two
/// sides. Otherwise the patched file reads, token by token, as the file in
/// front of the occurrence, then the second side, then the file behind the
/// occurrence. A hunk whose two sides are the same lines is applied wherever
/// they occur and can be aligned, and gives the file back as it is.
pub fn do_patch(src_file: &ParseStruct, hunk: &Hunk) -> (res: Result<ParseStruct, PatchError>)
    ensures
        match res {
            Ok(out) => hunk_result(src_file@, hunk@) == Ok::<Seq<Atom>, PatchError>(out@),
            Err(e) => hunk_result(src_file@, hunk@) == Err::<Seq<Atom>, PatchError>(e),
        },
        res matches Err(PatchError::ContextNotFound) <==> location(
            side_atoms(hunk@.source),
            src_file@,
        ) is None,
        res matches Err(PatchError::ConsistencyViolation) <==> location(
            side_atoms(hunk@.source),
            src_file@,
        ) is Some && diff_script(side_atoms(hunk@.source), side_atoms(hunk@.target)) is None,
        !(res matches Err(PatchError::UnsupportedIdentityEdit)),
        res matches Ok(out) ==> {
            let before = side_atoms(hunk@.source);
            let o = location(before, src_file@)->0;
            values_of(out@) == values_of(src_file@.take(o)) + values_of(side_atoms(hunk@.target))
                + values_of(src_file@.skip(o + before.len()))
        },
        hunk@.source == hunk@.target ==> (res matches Ok(out) ==> out@ == src_file@),
        keeps_file(src_file@, hunk@) ==> res is Ok,
{
    let src = hunk_side(&hunk.source_lines);
    let dst = hunk_side(&hunk.target_lines);
    apply(&src, &dst, src_file)
}

/// Applies the hunks to the atoms of a file, one after another, each to what
/// the one before it left. Stops at the first hunk that cannot be applied,
/// and says which it is and why. Hunks whose two sides are the same lines,
/// all of which occur in the file and can be aligned, are applied and give
/// the file back as it is.
pub fn apply_hunks(src_file: ParseStruct, hunks: &Vec<Hunk>) -> (res: Result<
    ParseStruct,
    HunkFailure,
>)
    ensures
        match res {
            Ok(out) => hunks_result(src_file@, hunks_view(hunks@)) == Ok::<Seq<Atom>, PatchError>(
                out@,
            ),
            Err(failure) => {
                &&& fails_at(
                    src_file@,
                    hunks_view(hunks@),
                    failure.index as int,
                    failure.error,
                )
                &&& hunks_result(src_file@, hunks_view(hunks@)) == Err::<Seq<Atom>, PatchError>(
                    failure.error,
                )
            },
        },
        hunks@.len() == 0 ==> res is Ok,
        all_keep_file(src_file@, hunks_view(hunks@)) ==> (res matches Ok(out) && out@ == src_file@),
{
    let ghost start = src_file@;
    let ghost all = hunks_view(hunks@);
    let mut file = src_file;
    let mut k: usize = 0;
    assert(all.take(0) =~= Seq::<HunkLines>::empty());
    while k < hunks.len()
        invariant
            k <= hunks@.len(),
            all == hunks_view(hunks@),
            start == src_file@,
            hunks_result(start, all.take(k as int)) == Ok::<Seq<Atom>, PatchError>(file@),
            all_keep_file(start, all) ==> file@ == start,
        decreases hunks@.len() - k,
    {
        proof {
            assert(all.take(k + 1).drop_last() =~= all.take(k as int));
            assert(all.take(k + 1).last() == hunks@[k as int]@);
            assert(all[k as int] == hunks@[k as int]@);
        }
        match do_patch(&file, &hunks[k]) {
            Ok(next) => {
                file = next;
            },
            Err(e) => {
                proof {
                    lemma_hunks_result_stays_failed(start, all, k + 1);
                }
                return Err(HunkFailure { index: k, error: e });
            },
        }
        k = k + 1;
    }
    assert(all.take(k as int) =~= all);
    Ok(file)
}

/// Once a hunk has failed, the hunks behind it change nothing about that.
pub proof fn lemma_hunks_result_stays_failed(file: Seq<Atom>, hunks: Seq<HunkLines>, k: int)
    requires
        0 <= k <= hunks.len(),
        hunks_result(file, hunks.take(k)) is Err,
    ensures
        hunks_result(file, hunks) == hunks_result(file, hunks.take(k)),
    decreases hunks.len() - k,
{
    if k == hunks.len() {
        assert(hunks.take(k) =~= hunks);
    } else {
        assert(hunks.take(k + 1).drop_last() =~= hunks.take(k));
        lemma_hunks_result_stays_failed(file, hunks, k + 1);
    }
}

/// Patches a text: tokenizes it, applies the hunks one after another, and
/// gives the text of the atoms that are left. Where a hunk cannot be applied
/// no text is returned: the result says which hunk it is and why. Hunks whose
/// two sides are the same lines, all of which occur in the text and can be
/// aligned, give the text back as it is.
pub fn patch_text(text: &str, hunks: &Vec<Hunk>) -> (res: Result<String, HunkFailure>)
    ensures
        match res {
            Ok(out) => {
                let atoms = hunks_result(tokens(text@), hunks_view(hunks@));
                atoms is Ok && out@ == text_of(atoms->Ok_0)
            },
            Err(failure) => {
                &&& fails_at(
                    tokens(text@),
                    hunks_view(hunks@),
                    failure.index as int,
                    failure.error,
                )
                &&& hunks_result(tokens(text@), hunks_view(hunks@)) == Err::<
                    Seq<Atom>,
                    PatchError,
                >(failure.error)
            },
        },
        hunks@.len() == 0 ==> res is Ok && res->Ok_0@ == text@,
        all_keep_file(tokens(text@), hunks_view(hunks@)) ==> res is Ok && res->Ok_0@ == text@,
{
    let file = parse_string(text);
    match apply_hunks(file, hunks) {
        Ok(out) => Ok(parse_struct2str(&out)),
        Err(failure) => Err(failure),
    }
}

} // verus!
