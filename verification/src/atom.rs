//! Atoms: lexical tokens together with the whitespace in front of them and an
//! optional identity tag, and the two relations by which atoms are compared.

use vstd::prelude::*;
use vstd::std_specs::cmp::PartialEqSpecImpl;
use vstd::string::StringExecFns;

verus! {

/// The mathematical value of a [`TextAtom`].
pub struct Atom {
    /// The visible text of the token.
    pub value: Seq<char>,
    /// The identity tag; empty for an untagged atom.
    pub tag: Seq<char>,
    /// The whitespace that stands directly in front of the token.
    pub ws: Seq<char>,
}

/// Two atoms denote the same token across versions: untagged atoms with equal
/// text, or tagged atoms with equal tag and equal text. A tagged atom and an
/// untagged one never do.
pub open spec fn continuity_match(a: Atom, b: Atom) -> bool {
    if a.tag.len() == 0 {
        b.tag.len() == 0 && a.value == b.value
    } else {
        b.tag.len() != 0 && a.tag == b.tag && a.value == b.value
    }
}

/// Two atoms are interchangeable where content is checked: their text is
/// equal, whatever their tags and whitespace.
pub open spec fn surface_equal(a: Atom, b: Atom) -> bool {
    a.value == b.value
}

/// The text that one atom stands for: its whitespace, then its token.
pub open spec fn atom_text(a: Atom) -> Seq<char> {
    a.ws + a.value
}

/// The text that a sequence of atoms stands for.
pub open spec fn text_of(atoms: Seq<Atom>) -> Seq<char>
    decreases atoms.len(),
{
    if atoms.len() == 0 {
        Seq::empty()
    } else {
        text_of(atoms.drop_last()) + atom_text(atoms.last())
    }
}

/// The token texts of a sequence of atoms, in order.
pub open spec fn values_of(atoms: Seq<Atom>) -> Seq<Seq<char>> {
    Seq::new(atoms.len(), |i: int| atoms[i].value)
}

/// A lexical token with the whitespace in front of it and an optional tag.
#[derive(Debug)]
pub struct TextAtom {
    pub token_value: String,
    pub token_uuid: String,
    pub leading_ws: String,
}

impl View for TextAtom {
    type V = Atom;

    open spec fn view(&self) -> Atom {
        Atom { value: self.token_value@, tag: self.token_uuid@, ws: self.leading_ws@ }
    }
}

impl Clone for TextAtom {
    fn clone(&self) -> (res: Self)
        ensures
            res == *self,
    {
        TextAtom {
            token_value: self.token_value.clone(),
            token_uuid: self.token_uuid.clone(),
            leading_ws: self.leading_ws.clone(),
        }
    }
}

impl PartialEq for TextAtom {
    /// Surface equality: `==` on atoms compares the token text alone.
    fn eq(&self, other: &Self) -> (res: bool) {
        self.token_value == other.token_value
    }
}

impl PartialEqSpecImpl for TextAtom {
    open spec fn obeys_eq_spec() -> bool {
        true
    }

    open spec fn eq_spec(&self, other: &Self) -> bool {
        surface_equal(self@, other@)
    }
}

impl TextAtom {
    /// Continuity match: whether `self` and `other` are the same token in two
    /// versions of a text.
    pub fn same(&self, other: &Self) -> (res: bool)
        ensures
            res == continuity_match(self@, other@),
    {
        if self.token_uuid.as_str().is_empty() {
            if other.token_uuid.as_str().is_empty() {
                self.token_value == other.token_value
            } else {
                false
            }
        } else {
            if other.token_uuid.as_str().is_empty() {
                false
            } else {
                self.token_uuid == other.token_uuid && self.token_value == other.token_value
            }
        }
    }

    /// Whether the two atoms agree in text, tag and whitespace.
    pub fn identical(&self, other: &Self) -> (res: bool)
        ensures
            res == (self@ == other@),
    {
        self.token_value == other.token_value && self.token_uuid == other.token_uuid
            && self.leading_ws == other.leading_ws
    }
}

/// An ordered sequence of atoms: one version of a file, or one side of a hunk.
#[derive(Debug)]
pub struct ParseStruct {
    pub atoms: Vec<TextAtom>,
}

impl View for ParseStruct {
    type V = Seq<Atom>;

    open spec fn view(&self) -> Seq<Atom> {
        Seq::new(self.atoms@.len(), |i: int| self.atoms@[i]@)
    }
}

impl Clone for ParseStruct {
    fn clone(&self) -> (res: Self)
        ensures
            res@ == self@,
    {
        let mut atoms: Vec<TextAtom> = Vec::new();
        let mut i: usize = 0;
        while i < self.atoms.len()
            invariant
                i <= self.atoms.len(),
                atoms@.len() == i,
                forall|k: int| 0 <= k < i ==> atoms@[k]@ == self.atoms@[k]@,
            decreases self.atoms.len() - i,
        {
            atoms.push(self.atoms[i].clone());
            i += 1;
        }
        let res = ParseStruct { atoms };
        assert(res@ =~= self@);
        res
    }
}

/// The text of one atom.
pub fn atom2str(atom: &TextAtom) -> (res: String)
    ensures
        res@ == atom_text(atom@),
{
    let mut res = atom.leading_ws.clone();
    res.append(atom.token_value.as_str());
    res
}

/// The text of a sequence of atoms: the texts of its atoms, one after another.
pub fn parse_struct2str(p: &ParseStruct) -> (res: String)
    ensures
        res@ == text_of(p@),
{
    let mut out_acc = String::new();
    let mut i: usize = 0;
    while i < p.atoms.len()
        invariant
            i <= p.atoms.len(),
            out_acc@ == text_of(p@.take(i as int)),
        decreases p.atoms.len() - i,
    {
        let piece = atom2str(&p.atoms[i]);
        proof {
            let next = p@.take(i + 1);
            assert(next.drop_last() =~= p@.take(i as int));
            assert(next.last() == p@[i as int]);
        }
        out_acc.append(piece.as_str());
        i += 1;
    }
    assert(p@.take(i as int) =~= p@);
    out_acc
}

/// A tagged atom and an untagged atom never continuity-match, whatever their
/// text.
pub proof fn lemma_tagged_never_matches_untagged(a: Atom, b: Atom)
    requires
        a.tag.len() > 0,
        b.tag.len() == 0,
    ensures
        !continuity_match(a, b),
        !continuity_match(b, a),
{
}

/// Continuity match is agreement in tag and text.
pub proof fn lemma_continuity_is_tag_and_value(a: Atom, b: Atom)
    ensures
        continuity_match(a, b) <==> (a.tag == b.tag && a.value == b.value),
{
    if a.tag.len() == 0 && b.tag.len() == 0 {
        assert(a.tag =~= b.tag);
    }
}

/// Continuity match is an equivalence relation.
pub proof fn lemma_continuity_equivalence(a: Atom, b: Atom, c: Atom)
    ensures
        continuity_match(a, a),
        continuity_match(a, b) ==> continuity_match(b, a),
        continuity_match(a, b) && continuity_match(b, c) ==> continuity_match(a, c),
{
    lemma_continuity_is_tag_and_value(a, b);
    lemma_continuity_is_tag_and_value(b, c);
    lemma_continuity_is_tag_and_value(a, c);
}

/// Surface equality looks at the text alone: atoms with equal text are
/// surface-equal whatever their tags and whitespace, and atoms that
/// continuity-match are surface-equal.
pub proof fn lemma_surface_ignores_tag_and_ws(a: Atom, b: Atom)
    ensures
        a.value == b.value ==> surface_equal(a, b),
        surface_equal(a, b) <==> surface_equal(
            Atom { value: a.value, tag: Seq::empty(), ws: Seq::empty() },
            Atom { value: b.value, tag: Seq::empty(), ws: Seq::empty() },
        ),
        continuity_match(a, b) ==> surface_equal(a, b),
{
}

/// The text of a concatenation is the concatenation of the texts.
pub proof fn lemma_text_of_concat(a: Seq<Atom>, b: Seq<Atom>)
    ensures
        text_of(a + b) == text_of(a) + text_of(b),
    decreases b.len(),
{
    if b.len() == 0 {
        assert(a + b =~= a);
        assert(text_of(a) + text_of(b) =~= text_of(a));
    } else {
        lemma_text_of_concat(a, b.drop_last());
        assert((a + b).drop_last() =~= a + b.drop_last());
        assert((a + b).last() == b.last());
        assert(text_of(a + b) =~= text_of(a) + text_of(b));
    }
}

} // verus!
