//! An edit script as pieces of text, each with the way it is to be shown.

use vstd::prelude::*;
use vstd::string::*;

use crate::atom::{atom2str, atom_text, Atom};
use crate::replay::{classify, step_kind, ReplayStep};
use crate::script::{field_after, pair_op, script_view, AtomEdit, FieldEdit, Op};

verus! {

/// How a piece of a rendered edit script is to be shown.
#[derive(Clone, Copy, Debug, PartialEq, Eq, Structural)]
pub enum Highlight {
    /// An atom that is kept.
    Plain,
    /// An atom that is new.
    Inserted,
    /// An atom that is gone.
    Removed,
    /// An atom that is kept as a token while its whitespace or tag changed.
    Changed,
    /// An atom whose token text changed.
    Unsupported,
}

/// The mathematical value of a [`Segment`].
pub struct Piece {
    pub highlight: Highlight,
    pub text: Seq<char>,
}

/// A piece of text with the way it is to be shown.
#[derive(Debug)]
pub struct Segment {
    pub highlight: Highlight,
    pub text: String,
}

impl View for Segment {
    type V = Piece;

    open spec fn view(&self) -> Piece {
        Piece { highlight: self.highlight, text: self.text@ }
    }
}

/// The piece that stands for one operation: the text of the atom for a copy,
/// an insertion or a removal; for a change the whitespace and the token of
/// the second side, or the new token alone where the token text changed.
pub open spec fn piece_of(op: Op) -> Piece {
    match op {
        Op::Copy(atom) => Piece { highlight: Highlight::Plain, text: atom_text(atom) },
        Op::Insert(atom) => Piece { highlight: Highlight::Inserted, text: atom_text(atom) },
        Op::Remove(atom) => Piece { highlight: Highlight::Removed, text: atom_text(atom) },
        Op::Change(change) => if step_kind(op) == ReplayStep::ApplyUnsupported {
            Piece { highlight: Highlight::Unsupported, text: field_after(change.value) }
        } else {
            Piece {
                highlight: Highlight::Changed,
                text: field_after(change.ws) + field_after(change.value),
            }
        },
    }
}

/// The pieces that stand for the operations of a script, in order.
pub open spec fn pieces_of(script: Seq<Op>) -> Seq<Piece> {
    Seq::new(script.len(), |k: int| piece_of(script[k]))
}

/// The text of a field on the second side.
pub fn text_after(edit: &FieldEdit) -> (res: String)
    ensures
        res@ == field_after(edit@),
{
    match edit {
        FieldEdit::Copy(text) => text.clone(),
        FieldEdit::Change(_, text) => text.clone(),
    }
}

/// The piece that stands for one operation.
pub fn render_edit(edit: &AtomEdit) -> (res: Segment)
    ensures
        res@ == piece_of(edit@),
{
    match edit {
        AtomEdit::Copy(atom) => Segment { highlight: Highlight::Plain, text: atom2str(atom) },
        AtomEdit::Insert(atom) => Segment { highlight: Highlight::Inserted, text: atom2str(atom) },
        AtomEdit::Remove(atom) => Segment { highlight: Highlight::Removed, text: atom2str(atom) },
        AtomEdit::Change(change) => match classify(edit) {
            ReplayStep::ApplyUnsupported => Segment {
                highlight: Highlight::Unsupported,
                text: text_after(&change.token_value),
            },
            _ => {
                let mut text = text_after(&change.leading_ws);
                let token = text_after(&change.token_value);
                text.append(token.as_str());
                Segment { highlight: Highlight::Changed, text }
            },
        },
    }
}

/// The pieces that stand for the operations of a script, in order.
pub fn render_diff(diff: &Vec<AtomEdit>) -> (res: Vec<Segment>)
    ensures
        segments_view(res@) == pieces_of(script_view(diff@)),
{
    let mut res: Vec<Segment> = Vec::new();
    let mut k: usize = 0;
    while k < diff.len()
        invariant
            k <= diff@.len(),
            res@.len() == k,
            forall|q: int| 0 <= q < k ==> (#[trigger] res@[q])@ == piece_of(diff@[q]@),
        decreases diff@.len() - k,
    {
        res.push(render_edit(&diff[k]));
        k = k + 1;
    }
    assert(segments_view(res@) =~= pieces_of(script_view(diff@)));
    res
}

/// The mathematical value of a list of segments.
pub open spec fn segments_view(segments: Seq<Segment>) -> Seq<Piece> {
    Seq::new(segments.len(), |k: int| segments[k]@)
}

/// For a pair of atoms that is the same token on both sides, the piece shows
/// the atom of the second side: its whitespace, then its token.
pub proof fn lemma_pair_piece_shows_second_side(before: Atom, after: Atom)
    requires
        before.value == after.value,
    ensures
        piece_of(pair_op(before, after)).text == atom_text(after),
        piece_of(pair_op(before, after)).highlight == if before == after {
            Highlight::Plain
        } else {
            Highlight::Changed
        },
{
}

} // verus!
