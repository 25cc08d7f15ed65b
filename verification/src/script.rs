//! Edit scripts over atoms: the operations that turn one atom sequence into
//! another.

use vstd::prelude::*;

use crate::atom::{Atom, TextAtom};

verus! {

/// The mathematical value of a [`FieldEdit`].
pub enum FieldChange {
    /// The field is the same on both sides.
    Copy(Seq<char>),
    /// The field changed from the first text to the second.
    Change(Seq<char>, Seq<char>),
}

/// The mathematical value of an [`EditedTextAtom`].
pub struct AtomChange {
    pub value: FieldChange,
    pub tag: FieldChange,
    pub ws: FieldChange,
}

/// The mathematical value of an [`AtomEdit`].
pub enum Op {
    /// The atom is kept.
    Copy(Atom),
    /// The atom is new on the second side.
    Insert(Atom),
    /// The atom is gone on the second side.
    Remove(Atom),
    /// The atom is kept as a token, and some of its fields differ.
    Change(AtomChange),
}

/// What became of one field of an atom.
#[derive(Debug)]
pub enum FieldEdit {
    Copy(String),
    Change(String, String),
}

impl View for FieldEdit {
    type V = FieldChange;

    open spec fn view(&self) -> FieldChange {
        match self {
            FieldEdit::Copy(s) => FieldChange::Copy(s@),
            FieldEdit::Change(a, b) => FieldChange::Change(a@, b@),
        }
    }
}

/// What became of each field of an atom that is kept as a token.
#[derive(Debug)]
pub struct EditedTextAtom {
    pub token_value: FieldEdit,
    pub token_uuid: FieldEdit,
    pub leading_ws: FieldEdit,
}

impl View for EditedTextAtom {
    type V = AtomChange;

    open spec fn view(&self) -> AtomChange {
        AtomChange { value: self.token_value@, tag: self.token_uuid@, ws: self.leading_ws@ }
    }
}

/// One operation of an edit script.
#[derive(Debug)]
pub enum AtomEdit {
    Copy(TextAtom),
    Insert(TextAtom),
    Remove(TextAtom),
    Change(EditedTextAtom),
}

impl View for AtomEdit {
    type V = Op;

    open spec fn view(&self) -> Op {
        match self {
            AtomEdit::Copy(a) => Op::Copy(a@),
            AtomEdit::Insert(a) => Op::Insert(a@),
            AtomEdit::Remove(a) => Op::Remove(a@),
            AtomEdit::Change(c) => Op::Change(c@),
        }
    }
}

/// The mathematical value of an edit script.
pub open spec fn script_view(script: Seq<AtomEdit>) -> Seq<Op> {
    Seq::new(script.len(), |i: int| script[i]@)
}

/// The text of a field on the first side.
pub open spec fn field_before(change: FieldChange) -> Seq<char> {
    match change {
        FieldChange::Copy(text) => text,
        FieldChange::Change(text, _) => text,
    }
}

/// The text of a field on the second side.
pub open spec fn field_after(change: FieldChange) -> Seq<char> {
    match change {
        FieldChange::Copy(text) => text,
        FieldChange::Change(_, text) => text,
    }
}

/// The atom that a change starts from.
pub open spec fn change_before(change: AtomChange) -> Atom {
    Atom {
        value: field_before(change.value),
        tag: field_before(change.tag),
        ws: field_before(change.ws),
    }
}

/// The atom that a change leads to.
pub open spec fn change_after(change: AtomChange) -> Atom {
    Atom {
        value: field_after(change.value),
        tag: field_after(change.tag),
        ws: field_after(change.ws),
    }
}

/// The atom of the first side that an operation passes, if it passes one.
pub open spec fn taken_from(op: Op) -> Option<Atom> {
    match op {
        Op::Copy(atom) => Some(atom),
        Op::Insert(_) => None,
        Op::Remove(atom) => Some(atom),
        Op::Change(change) => Some(change_before(change)),
    }
}

/// The atom of the second side that an operation passes, if it passes one.
pub open spec fn led_to(op: Op) -> Option<Atom> {
    match op {
        Op::Copy(atom) => Some(atom),
        Op::Insert(atom) => Some(atom),
        Op::Remove(_) => None,
        Op::Change(change) => Some(change_after(change)),
    }
}

/// The sequence that a script starts from: the atoms that it keeps, removes
/// or changes, in order, as they are before the change.
pub open spec fn first_side(script: Seq<Op>) -> Seq<Atom>
    decreases script.len(),
{
    if script.len() == 0 {
        Seq::empty()
    } else {
        match taken_from(script.last()) {
            Some(atom) => first_side(script.drop_last()).push(atom),
            None => first_side(script.drop_last()),
        }
    }
}

/// The sequence that a script leads to: the atoms that it keeps, inserts or
/// changes, in order, as they are after the change.
pub open spec fn second_side(script: Seq<Op>) -> Seq<Atom>
    decreases script.len(),
{
    if script.len() == 0 {
        Seq::empty()
    } else {
        match led_to(script.last()) {
            Some(atom) => second_side(script.drop_last()).push(atom),
            None => second_side(script.drop_last()),
        }
    }
}

/// The change of one field between two texts.
pub open spec fn field_change(before: Seq<char>, after: Seq<char>) -> FieldChange {
    if before == after {
        FieldChange::Copy(before)
    } else {
        FieldChange::Change(before, after)
    }
}

/// The operation for a pair of atoms that are the same token on both sides:
/// a copy where they agree in every field, a change otherwise.
pub open spec fn pair_op(before: Atom, after: Atom) -> Op {
    if before == after {
        Op::Copy(before)
    } else {
        Op::Change(
            AtomChange {
                value: field_change(before.value, after.value),
                tag: field_change(before.tag, after.tag),
                ws: field_change(before.ws, after.ws),
            },
        )
    }
}

/// The operation for a pair of atoms starts from the first and leads to the
/// second.
pub proof fn lemma_pair_op_sides(before: Atom, after: Atom)
    ensures
        taken_from(pair_op(before, after)) == Some(before),
        led_to(pair_op(before, after)) == Some(after),
{
    if before != after {
        let change = pair_op(before, after)->Change_0;
        assert(change_before(change).value =~= before.value);
        assert(change_before(change).tag =~= before.tag);
        assert(change_before(change).ws =~= before.ws);
        assert(change_after(change).value =~= after.value);
        assert(change_after(change).tag =~= after.tag);
        assert(change_after(change).ws =~= after.ws);
    }
}

/// The change of one field between two texts.
pub fn diff_field(before: &String, after: &String) -> (res: FieldEdit)
    ensures
        res@ == field_change(before@, after@),
{
    if *before == *after {
        FieldEdit::Copy(before.clone())
    } else {
        FieldEdit::Change(before.clone(), after.clone())
    }
}

/// The operation for a pair of atoms that are the same token on both sides.
pub fn diff_pair(before: &TextAtom, after: &TextAtom) -> (res: AtomEdit)
    ensures
        res@ == pair_op(before@, after@),
{
    if before.identical(after) {
        AtomEdit::Copy(before.clone())
    } else {
        AtomEdit::Change(
            EditedTextAtom {
                token_value: diff_field(&before.token_value, &after.token_value),
                token_uuid: diff_field(&before.token_uuid, &after.token_uuid),
                leading_ws: diff_field(&before.leading_ws, &after.leading_ws),
            },
        )
    }
}

} // verus!
