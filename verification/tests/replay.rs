use token_patch::atom::{parse_struct2str, ParseStruct, TextAtom};
use token_patch::patch::apply_script;
use token_patch::replay::{apply_patch, classify, PatchError, ReplayStep};
use token_patch::script::{AtomEdit, EditedTextAtom, FieldEdit};
use token_patch::tokenizer::parse_string;

fn atom(value: &str, tag: &str, ws: &str) -> TextAtom {
    TextAtom {
        token_value: value.to_string(),
        token_uuid: tag.to_string(),
        leading_ws: ws.to_string(),
    }
}

fn copy_field(s: &str) -> FieldEdit {
    FieldEdit::Copy(s.to_string())
}

fn change_field(a: &str, b: &str) -> FieldEdit {
    FieldEdit::Change(a.to_string(), b.to_string())
}

fn ws_change(value: &str, from: &str, to: &str) -> AtomEdit {
    AtomEdit::Change(EditedTextAtom {
        token_value: copy_field(value),
        token_uuid: copy_field(""),
        leading_ws: change_field(from, to),
    })
}

fn value_change(from: &str, to: &str) -> AtomEdit {
    AtomEdit::Change(EditedTextAtom {
        token_value: change_field(from, to),
        token_uuid: copy_field(""),
        leading_ws: copy_field(""),
    })
}

fn empty() -> ParseStruct {
    ParseStruct { atoms: vec![] }
}

#[test]
fn steps_by_kind_of_operation() {
    assert_eq!(classify(&AtomEdit::Copy(atom("a", "", ""))), ReplayStep::ApplyCopy);
    assert_eq!(classify(&AtomEdit::Insert(atom("a", "", ""))), ReplayStep::ApplyInsert);
    assert_eq!(classify(&AtomEdit::Remove(atom("a", "", ""))), ReplayStep::ApplyRemove);
    assert_eq!(classify(&ws_change("a", " ", "")), ReplayStep::ApplyField);
    assert_eq!(classify(&value_change("a", "b")), ReplayStep::ApplyUnsupported);
}

#[test]
fn empty_script_passes_nothing() {
    let file = parse_string("a b");
    let mut out = empty();
    assert_eq!(apply_patch(&mut out, &file, 1, &empty(), &vec![]), Ok(0));
    assert!(out.atoms.is_empty());
}

#[test]
fn copy_keeps_the_atom_of_the_file() {
    let file = parse_string("a    b");
    let mut out = empty();
    let script = vec![AtomEdit::Copy(atom("b", "tag", "\n"))];
    assert_eq!(apply_patch(&mut out, &file, 1, &parse_string("\nb"), &script), Ok(1));
    assert_eq!(out.atoms.len(), 1);
    assert_eq!(out.atoms[0].leading_ws, "    ");
    assert_eq!(out.atoms[0].token_value, "b");
    assert_eq!(out.atoms[0].token_uuid, "");
}

#[test]
fn insert_passes_no_atom_of_the_file() {
    let file = parse_string("a b");
    let mut out = empty();
    let script = vec![AtomEdit::Insert(atom("x", "id", "\t")), AtomEdit::Insert(atom("y", "", ""))];
    assert_eq!(apply_patch(&mut out, &file, 0, &empty(), &script), Ok(0));
    assert_eq!(out.atoms.len(), 2);
    assert_eq!(out.atoms[0].leading_ws, "\t");
    assert_eq!(out.atoms[0].token_value, "x");
    assert_eq!(out.atoms[0].token_uuid, "id");
    assert_eq!(out.atoms[1].token_value, "y");
}

#[test]
fn remove_puts_nothing_out() {
    let file = parse_string("a b c");
    let mut out = empty();
    let script = vec![AtomEdit::Remove(atom("b", "", "")), AtomEdit::Remove(atom("c", "", ""))];
    assert_eq!(apply_patch(&mut out, &file, 1, &empty(), &script), Ok(2));
    assert!(out.atoms.is_empty());
}

#[test]
fn change_puts_out_the_atom_of_the_second_side() {
    let file = parse_string("a  b");
    let right = ParseStruct { atoms: vec![atom("q", "", ""), atom("b", "new", "\n")] };
    let mut out = empty();
    let script = vec![AtomEdit::Insert(atom("q", "", "")), ws_change("b", " ", "\n")];
    assert_eq!(apply_patch(&mut out, &file, 1, &right, &script), Ok(1));
    assert_eq!(out.atoms.len(), 2);
    assert_eq!(out.atoms[1].leading_ws, "\n");
    assert_eq!(out.atoms[1].token_value, "b");
    assert_eq!(out.atoms[1].token_uuid, "new");
}

#[test]
fn output_is_appended() {
    let file = parse_string("a b");
    let mut out = parse_string("x y");
    let script = vec![AtomEdit::Copy(atom("a", "", "")), AtomEdit::Insert(atom("z", "", " "))];
    assert_eq!(apply_patch(&mut out, &file, 0, &empty(), &script), Ok(1));
    assert_eq!(parse_struct2str(&out), "x ya z");
}

#[test]
fn copy_of_another_atom_is_a_violation() {
    let file = parse_string("a b");
    let mut out = empty();
    let script = vec![AtomEdit::Copy(atom("a", "", "")), AtomEdit::Copy(atom("c", "", ""))];
    assert_eq!(
        apply_patch(&mut out, &file, 0, &empty(), &script),
        Err(PatchError::ConsistencyViolation)
    );
    assert_eq!(parse_struct2str(&out), "a");
}

#[test]
fn remove_of_another_atom_is_a_violation() {
    let file = parse_string("a b");
    let mut out = empty();
    let script = vec![AtomEdit::Remove(atom("b", "", ""))];
    assert_eq!(
        apply_patch(&mut out, &file, 0, &empty(), &script),
        Err(PatchError::ConsistencyViolation)
    );
}

#[test]
fn change_against_another_atom_is_a_violation() {
    let file = parse_string("a b");
    let mut out = empty();
    let script = vec![ws_change("b", "", " ")];
    assert_eq!(
        apply_patch(&mut out, &file, 0, &parse_string(" b"), &script),
        Err(PatchError::ConsistencyViolation)
    );
}

#[test]
fn running_past_the_file_is_a_violation() {
    let file = parse_string("a b");
    let script = vec![AtomEdit::Copy(atom("b", "", "")), AtomEdit::Copy(atom("c", "", ""))];
    let mut out = empty();
    assert_eq!(
        apply_patch(&mut out, &file, 1, &empty(), &script),
        Err(PatchError::ConsistencyViolation)
    );
    let mut out = empty();
    assert_eq!(
        apply_patch(&mut out, &file, 2, &empty(), &vec![AtomEdit::Remove(atom("a", "", ""))]),
        Err(PatchError::ConsistencyViolation)
    );
    let mut out = empty();
    assert_eq!(
        apply_patch(&mut out, &file, usize::MAX, &empty(), &vec![AtomEdit::Copy(atom("a", "", ""))]),
        Err(PatchError::ConsistencyViolation)
    );
}

#[test]
fn change_past_the_second_side_is_a_violation() {
    let file = parse_string("a");
    let mut out = empty();
    assert_eq!(
        apply_patch(&mut out, &file, 0, &empty(), &vec![ws_change("a", "", " ")]),
        Err(PatchError::ConsistencyViolation)
    );
}

#[test]
fn changed_token_text_is_unsupported() {
    let file = parse_string("foo bar baz");
    let right = parse_string("qux");
    let mut out = empty();
    let script = vec![value_change("bar", "qux")];
    assert_eq!(
        apply_patch(&mut out, &file, 1, &right, &script),
        Err(PatchError::UnsupportedIdentityEdit)
    );
    assert!(out.atoms.is_empty());
    assert_eq!(parse_struct2str(&file), "foo bar baz");
}

#[test]
fn changed_token_text_is_unsupported_whatever_the_file_holds() {
    let mut out = empty();
    assert_eq!(
        apply_patch(&mut out, &empty(), 0, &empty(), &vec![value_change("a", "b")]),
        Err(PatchError::UnsupportedIdentityEdit)
    );
}

#[test]
fn replay_stops_at_the_first_failure() {
    let file = parse_string("a b");
    let mut out = empty();
    let script = vec![
        AtomEdit::Copy(atom("a", "", "")),
        value_change("b", "c"),
        AtomEdit::Copy(atom("zzz", "", "")),
    ];
    assert_eq!(
        apply_patch(&mut out, &file, 0, &parse_string("a c"), &script),
        Err(PatchError::UnsupportedIdentityEdit)
    );
    assert_eq!(parse_struct2str(&out), "a");
}

#[test]
fn script_is_replayed_inside_the_file() {
    let file = parse_string("a b c d");
    let script = vec![
        AtomEdit::Copy(atom("b", "", "")),
        AtomEdit::Remove(atom("c", "", "")),
        AtomEdit::Insert(atom("x", "", " ")),
    ];
    let out = apply_script(&file, 1, &parse_string("b x"), &script).unwrap();
    assert_eq!(parse_struct2str(&out), "a b x d");
}

#[test]
fn script_at_the_end_of_the_file() {
    let file = parse_string("a b");
    let script = vec![AtomEdit::Insert(atom("c", "", " "))];
    let out = apply_script(&file, 2, &parse_string(" c"), &script).unwrap();
    assert_eq!(parse_struct2str(&out), "a b c");
}

#[test]
fn script_that_fails_gives_no_file() {
    let file = parse_string("foo bar baz");
    let res = apply_script(&file, 1, &parse_string("qux"), &vec![value_change("bar", "qux")]);
    assert_eq!(res.err(), Some(PatchError::UnsupportedIdentityEdit));
    let res = apply_script(&file, 0, &parse_string("x"), &vec![AtomEdit::Copy(atom("x", "", ""))]);
    assert_eq!(res.err(), Some(PatchError::ConsistencyViolation));
    assert_eq!(parse_struct2str(&file), "foo bar baz");
}

#[test]
fn offset_past_the_file_is_a_violation() {
    let file = parse_string("a b");
    let script = vec![AtomEdit::Insert(atom("c", "", " "))];
    let res = apply_script(&file, 3, &parse_string(" c"), &script);
    assert_eq!(res.err(), Some(PatchError::ConsistencyViolation));
    let res = apply_script(&file, usize::MAX, &parse_string(""), &vec![]);
    assert_eq!(res.err(), Some(PatchError::ConsistencyViolation));
    let out = apply_script(&file, 2, &parse_string(""), &vec![]).unwrap();
    assert_eq!(parse_struct2str(&out), "a b");
}
