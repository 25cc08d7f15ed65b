//! The tokenizer: from a text to its atoms.

use vstd::prelude::*;
use vstd::std_specs::iter::IteratorSpec;
use vstd::string::*;
use vstd::utf8::*;

use crate::atom::{atom_text, text_of, lemma_text_of_concat, Atom, ParseStruct, TextAtom};
use crate::chars::{blank_char, ident_char, is_blank, is_ident, white_space};
use crate::utf8::{lemma_advance, lemma_boundary_after_prefix, lemma_encode_concat, text_from};

verus! {

/// The number of characters from index `i` of `s` on that may stand in front
/// of a token, up to the first that may not.
pub open spec fn blank_run(s: Seq<char>, i: int) -> nat
    decreases s.len() - i,
{
    if 0 <= i < s.len() && blank_char(s[i]) {
        1 + blank_run(s, i + 1)
    } else {
        0
    }
}

/// Whether `c` goes on a token whose first character is an identifier
/// character (`ident`) or is none.
pub open spec fn token_char(c: char, ident: bool) -> bool {
    !white_space(c) && ident_char(c) == ident
}

/// The number of characters from index `i` of `s` on that go on a token of
/// the class `ident`, up to the first that does not.
pub open spec fn token_run(s: Seq<char>, i: int, ident: bool) -> nat
    decreases s.len() - i,
{
    if 0 <= i < s.len() && token_char(s[i], ident) {
        1 + token_run(s, i + 1, ident)
    } else {
        0
    }
}

/// The number of characters of the first atom of `s`: its whitespace, then, if
/// the text goes on, the character after it and all that follow of its class.
pub open spec fn first_token_len(s: Seq<char>) -> nat {
    let w = blank_run(s, 0);
    if w < s.len() {
        w + 1 + token_run(s, w as int + 1, ident_char(s[w as int]))
    } else {
        w
    }
}

/// The first atom of a text that is not empty.
pub open spec fn first_token(s: Seq<char>) -> Atom {
    let w = blank_run(s, 0) as int;
    Atom { value: s.subrange(w, first_token_len(s) as int), tag: Seq::empty(), ws: s.take(w) }
}

/// The atoms of a text.
pub open spec fn tokens(s: Seq<char>) -> Seq<Atom>
    decreases s.len(),
{
    if s.len() == 0 {
        Seq::empty()
    } else {
        proof {
            lemma_first_token_len_bounds(s);
        }
        seq![first_token(s)] + tokens(s.skip(first_token_len(s) as int))
    }
}

/// A run of blank characters ends inside the text.
pub proof fn lemma_blank_run_bound(s: Seq<char>, i: int)
    requires
        0 <= i <= s.len(),
    ensures
        i + blank_run(s, i) <= s.len(),
    decreases s.len() - i,
{
    if i < s.len() && blank_char(s[i]) {
        lemma_blank_run_bound(s, i + 1);
    }
}

/// A run of token characters ends inside the text.
pub proof fn lemma_token_run_bound(s: Seq<char>, i: int, ident: bool)
    requires
        0 <= i <= s.len(),
    ensures
        i + token_run(s, i, ident) <= s.len(),
    decreases s.len() - i,
{
    if i < s.len() && token_char(s[i], ident) {
        lemma_token_run_bound(s, i + 1, ident);
    }
}

/// The first atom of a text that is not empty takes at least one character,
/// and no more than the text has.
pub proof fn lemma_first_token_len_bounds(s: Seq<char>)
    requires
        s.len() > 0,
    ensures
        0 < first_token_len(s) <= s.len(),
        blank_run(s, 0) <= first_token_len(s),
{
    lemma_blank_run_bound(s, 0);
    let w = blank_run(s, 0);
    if w < s.len() {
        lemma_token_run_bound(s, w as int + 1, ident_char(s[w as int]));
    }
}

/// A run of blank characters holds blank characters alone, and ends in front
/// of a character that is not blank or at the end of the text.
pub proof fn lemma_blank_run(s: Seq<char>, i: int)
    requires
        0 <= i <= s.len(),
    ensures
        forall|k: int| i <= k < i + blank_run(s, i) ==> blank_char(#[trigger] s[k]),
        i + blank_run(s, i) < s.len() ==> !blank_char(s[i + blank_run(s, i)]),
    decreases s.len() - i,
{
    if i < s.len() && blank_char(s[i]) {
        lemma_blank_run(s, i + 1);
    }
}

/// A run of token characters holds characters of its class alone, none of
/// them whitespace, and ends in front of a character that is whitespace or of
/// the other class, or at the end of the text.
pub proof fn lemma_token_run(s: Seq<char>, i: int, ident: bool)
    requires
        0 <= i <= s.len(),
    ensures
        forall|k: int| i <= k < i + token_run(s, i, ident) ==> token_char(#[trigger] s[k], ident),
        i + token_run(s, i, ident) < s.len() ==> !token_char(s[i + token_run(s, i, ident)], ident),
    decreases s.len() - i,
{
    if i < s.len() && token_char(s[i], ident) {
        lemma_token_run(s, i + 1, ident);
    }
}

/// The shape of the first atom of a text. Its whitespace is all blank and
/// ends in front of the first character that is not. Its token holds no
/// whitespace and characters of one class alone, and ends in front of
/// whitespace, of a character of the other class, or at the end of the text.
/// It has no token only where the whole text is blank.
pub proof fn lemma_first_token_shape(s: Seq<char>)
    requires
        s.len() > 0,
    ensures
        ({
            let t = first_token(s);
            let e = first_token_len(s) as int;
            &&& t.tag.len() == 0
            &&& t.ws.len() + t.value.len() == e
            &&& forall|k: int| 0 <= k < t.ws.len() ==> blank_char(#[trigger] t.ws[k])
            &&& t.value.len() > 0 ==> !blank_char(t.value[0])
            &&& forall|k: int|
                0 <= k < t.value.len() ==> token_char(#[trigger] t.value[k], ident_char(t.value[0]))
            &&& t.value.len() == 0 ==> t.ws == s
            &&& t.value.len() > 0 && e < s.len() ==> !token_char(s[e], ident_char(t.value[0]))
        }),
{
    let w = blank_run(s, 0) as int;
    let e = first_token_len(s) as int;
    let t = first_token(s);
    lemma_first_token_len_bounds(s);
    lemma_blank_run(s, 0);
    assert forall|k: int| 0 <= k < t.ws.len() implies blank_char(#[trigger] t.ws[k]) by {
        assert(t.ws[k] == s[k]);
    }
    if w < s.len() {
        let ident = ident_char(s[w]);
        lemma_token_run(s, w + 1, ident);
        assert(t.value[0] == s[w]);
        assert forall|k: int| 0 <= k < t.value.len() implies token_char(
            #[trigger] t.value[k],
            ident_char(t.value[0]),
        ) by {
            assert(t.value[k] == s[w + k]);
        }
    } else {
        assert(t.ws =~= s);
    }
}

/// The text of the atoms of `s` is `s`: nothing is lost, nothing added.
pub proof fn lemma_tokens_round_trip(s: Seq<char>)
    ensures
        text_of(tokens(s)) == s,
    decreases s.len(),
{
    if s.len() == 0 {
        assert(text_of(tokens(s)) =~= s);
    } else {
        lemma_first_token_len_bounds(s);
        let e = first_token_len(s) as int;
        let first = seq![first_token(s)];
        let rest = tokens(s.skip(e));
        reveal_with_fuel(text_of, 2);
        lemma_tokens_round_trip(s.skip(e));
        lemma_text_of_concat(first, rest);
        assert(first.drop_last() =~= Seq::<Atom>::empty());
        assert(text_of(first) =~= atom_text(first_token(s)));
        assert(atom_text(first_token(s)) =~= s.take(e));
        assert(s.take(e) + s.skip(e) =~= s);
    }
}

/// Atoms from the tokenizer carry no tag.
pub proof fn lemma_tokens_untagged(s: Seq<char>, k: int)
    requires
        0 <= k < tokens(s).len(),
    ensures
        tokens(s)[k].tag.len() == 0,
    decreases s.len(),
{
    if s.len() > 0 {
        lemma_first_token_len_bounds(s);
        if k > 0 {
            lemma_tokens_untagged(s.skip(first_token_len(s) as int), k - 1);
        }
    }
}

/// The empty text has no atoms.
pub proof fn lemma_tokens_of_empty()
    ensures
        tokens(Seq::<char>::empty()) == Seq::<Atom>::empty(),
{
}

/// Where the tokenizer stands inside one atom.
#[derive(Clone, Copy, Debug, PartialEq, Eq, Structural)]
pub enum ParseTokenState {
    LeadingWhiteSpace,
    TokenValue,
}

/// The number of bytes that the whitespace and the text of `ws` and `value` take.
fn byte_len(ws: &String, value: &String) -> (n: usize)
    requires
        encode_utf8(ws@ + value@).len() <= usize::MAX,
    ensures
        n == encode_utf8(ws@ + value@).len(),
{
    proof {
        lemma_encode_concat(ws@, value@);
    }
    ws.as_str().as_bytes().len() + value.as_str().as_bytes().len()
}

/// Reads one atom from `input`, from the byte offset `i` on. Returns the atom
/// and the number of bytes that it takes, or `None` and 0 where `i` is at or
/// past the end of the text. An offset inside the text has to be one at which
/// a character begins.
pub fn parse_token(input: &str, i: usize) -> (res: (Option<TextAtom>, usize))
    requires
        0 < i < input.spec_bytes().len() ==> is_char_boundary(input.spec_bytes(), i as int),
    ensures
        i >= input.spec_bytes().len() ==> res.0 is None && res.1 == 0,
        i < input.spec_bytes().len() ==> ({
            let rest = text_from(input@, i as int);
            &&& rest.len() > 0
            &&& res.0 is Some
            &&& res.0->0@ == first_token(rest)
            &&& res.1 == encode_utf8(rest.take(first_token_len(rest) as int)).len()
        }),
{
    let total = input.as_bytes().len();
    if i >= total {
        return (None, 0);
    }
    proof {
        encode_utf8_valid_utf8(input@);
        is_char_boundary_start_end_of_seq(input.spec_bytes());
    }
    let (_, tail) = input.split_at(i);
    let ghost rest = tail@;
    proof {
        encode_utf8_decode_utf8(rest);
        assert(rest == text_from(input@, i as int));
        assert(tail.spec_bytes().len() == total - i);
        assert(rest.len() > 0) by {
            if rest.len() == 0 {
                assert(encode_utf8(rest).len() == 0);
            }
        }
        lemma_first_token_len_bounds(rest);
    }
    let mut ws = String::new();
    let mut value = String::new();
    let mut state = ParseTokenState::LeadingWhiteSpace;
    let mut is_id = false;
    let ghost mut w: int = 0;

    for ch in it: tail.chars()
        invariant
            it.seq() == rest,
            rest.len() > 0,
            rest == text_from(input@, i as int),
            encode_utf8(rest).len() == total - i,
            total == input.spec_bytes().len(),
            i < total,
            state == ParseTokenState::LeadingWhiteSpace ==> {
                &&& blank_run(rest, 0) == it.index() + blank_run(rest, it.index())
                &&& ws@ == rest.take(it.index())
                &&& value@ == Seq::<char>::empty()
            },
            state == ParseTokenState::TokenValue ==> {
                &&& 0 <= w < it.index()
                &&& blank_run(rest, 0) == w
                &&& is_id == ident_char(rest[w])
                &&& token_run(rest, w + 1, is_id) == it.index() - (w + 1) + token_run(
                    rest,
                    it.index(),
                    is_id,
                )
                &&& ws@ == rest.take(w)
                &&& value@ == rest.subrange(w, it.index())
            },
    {
        let ghost k = it.index();
        match state {
            ParseTokenState::LeadingWhiteSpace => {
                if is_blank(ch) {
                    ws.push(ch);
                    assert(ws@ =~= rest.take(k + 1));
                } else {
                    value.push(ch);
                    is_id = is_ident(ch);
                    state = ParseTokenState::TokenValue;
                    proof {
                        w = k;
                        assert(value@ =~= rest.subrange(w, k + 1));
                    }
                }
            },
            ParseTokenState::TokenValue => {
                if ch.is_whitespace() || is_id != is_ident(ch) {
                    proof {
                        assert(token_run(rest, k, is_id) == 0);
                        assert(first_token_len(rest) == k);
                        assert(ws@ + value@ =~= rest.take(k));
                        lemma_boundary_after_prefix(rest.take(k), rest.skip(k));
                        assert(rest.take(k) + rest.skip(k) =~= rest);
                    }
                    let n = byte_len(&ws, &value);
                    let atom = TextAtom {
                        token_value: value,
                        token_uuid: String::new(),
                        leading_ws: ws,
                    };
                    assert(atom@.ws =~= first_token(rest).ws);
                    assert(atom@.value =~= first_token(rest).value);
                    assert(atom@.tag =~= first_token(rest).tag);
                    return (Some(atom), n);
                } else {
                    value.push(ch);
                    assert(value@ =~= rest.subrange(w, k + 1));
                }
            },
        }
    }
    proof {
        let k = rest.len() as int;
        assert(first_token_len(rest) == k);
        assert(ws@ + value@ =~= rest.take(k));
        assert(rest.take(k) =~= rest);
    }
    let n = byte_len(&ws, &value);
    let atom = TextAtom { token_value: value, token_uuid: String::new(), leading_ws: ws };
    assert(atom@.ws =~= first_token(rest).ws);
    assert(atom@.value =~= first_token(rest).value);
    assert(atom@.tag =~= first_token(rest).tag);
    (Some(atom), n)
}

/// The atoms of `input`.
pub fn parse_string(input: &str) -> (res: ParseStruct)
    ensures
        res@ == tokens(input@),
        text_of(res@) == input@,
{
    let mut atoms: Vec<TextAtom> = Vec::new();
    let mut i: usize = 0;
    let ghost s = input@;
    let ghost bytes = input.spec_bytes();
    let total = input.as_bytes().len();
    proof {
        encode_utf8_valid_utf8(s);
        encode_utf8_decode_utf8(s);
        is_char_boundary_start_end_of_seq(bytes);
        assert(bytes.subrange(0, bytes.len() as int) =~= bytes);
        assert(Seq::new(atoms@.len(), |k: int| atoms@[k]@) + tokens(text_from(s, 0)) =~= tokens(s));
    }
    loop
        invariant
            s == input@,
            bytes == encode_utf8(s),
            total == bytes.len(),
            i <= total,
            is_char_boundary(bytes, i as int),
            Seq::new(atoms@.len(), |k: int| atoms@[k]@) + tokens(text_from(s, i as int)) == tokens(
                s,
            ),
        ensures
            Seq::new(atoms@.len(), |k: int| atoms@[k]@) == tokens(s),
        decreases total - i,
    {
        let ghost before = Seq::new(atoms@.len(), |k: int| atoms@[k]@);
        let ghost rest = text_from(s, i as int);
        let (token, delta_i) = parse_token(input, i);
        match token {
            Some(token) => {
                proof {
                    let e = first_token_len(rest) as int;
                    lemma_first_token_len_bounds(rest);
                    lemma_advance(s, i as int, e);
                    assert(rest.take(e).len() > 0);
                    assert(encode_utf8(rest.take(e)).len() > 0);
                }
                atoms.push(token);
                i = i + delta_i;
                proof {
                    assert(Seq::new(atoms@.len(), |k: int| atoms@[k]@) =~= before + seq![
                        first_token(rest),
                    ]);
                    assert((before + seq![first_token(rest)]) + tokens(text_from(s, i as int))
                        =~= before + tokens(rest));
                }
            },
            None => {
                proof {
                    assert(i == total);
                    assert(bytes.subrange(i as int, bytes.len() as int) =~= Seq::<u8>::empty());
                    assert(text_from(s, i as int) =~= Seq::<char>::empty());
                    assert(before + tokens(text_from(s, i as int)) =~= before);
                    assert(before == tokens(s));
                }
                break ;
            },
        }
    }
    let res = ParseStruct { atoms };
    proof {
        assert(res@ =~= tokens(s));
        lemma_tokens_round_trip(s);
    }
    res
}

} // verus!
