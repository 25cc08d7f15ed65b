use token_patch::alignment::{align, can_align, continuity_classes, IdEdit};
use token_patch::atom::{ParseStruct, TextAtom};
use token_patch::diff::{diff, script_from_edits};
use token_patch::script::{diff_field, diff_pair, AtomEdit, FieldEdit};
use token_patch::tokenizer::parse_string;

fn atom(value: &str, tag: &str, ws: &str) -> TextAtom {
    TextAtom {
        token_value: value.to_string(),
        token_uuid: tag.to_string(),
        leading_ws: ws.to_string(),
    }
}

/// One line for each operation: its kind, and the whitespace and the text of
/// the atom, or the three fields of a change.
fn show(script: &[AtomEdit]) -> Vec<String> {
    script
        .iter()
        .map(|op| match op {
            AtomEdit::Copy(a) => format!("copy {:?} {:?}", a.leading_ws, a.token_value),
            AtomEdit::Insert(a) => format!("insert {:?} {:?}", a.leading_ws, a.token_value),
            AtomEdit::Remove(a) => format!("remove {:?} {:?}", a.leading_ws, a.token_value),
            AtomEdit::Change(c) => format!(
                "change value={} tag={} ws={}",
                field(&c.token_value),
                field(&c.token_uuid),
                field(&c.leading_ws)
            ),
        })
        .collect()
}

fn field(edit: &FieldEdit) -> String {
    match edit {
        FieldEdit::Copy(s) => format!("{:?}", s),
        FieldEdit::Change(a, b) => format!("{:?}->{:?}", a, b),
    }
}

#[test]
fn class_numbers_follow_continuity() {
    let before = parse_string("a b a c");
    let after = parse_string("c a d d");
    let (left, right) = continuity_classes(&before, &after).unwrap();
    assert_eq!(left, vec![0, 1, 0, 3]);
    assert_eq!(right, vec![3, 0, 6, 6]);
}

#[test]
fn class_numbers_tell_tags_apart() {
    let before = ParseStruct { atoms: vec![atom("a", "", ""), atom("a", "x", ""), atom("a", "y", "")] };
    let after = ParseStruct { atoms: vec![atom("a", "x", " "), atom("a", "", " "), atom("b", "x", "")] };
    let (left, right) = continuity_classes(&before, &after).unwrap();
    assert_eq!(left, vec![0, 1, 2]);
    assert_eq!(right, vec![1, 0, 5]);
}

#[test]
fn alignment_of_equal_sequences_copies_all() {
    let edits = align(&vec![4, 2, 4], &vec![4, 2, 4]).unwrap();
    assert_eq!(edits, vec![IdEdit::Copy(4), IdEdit::Copy(2), IdEdit::Copy(4)]);
    assert_eq!(align(&vec![], &vec![]), Some(vec![]));
}

#[test]
fn alignment_of_different_sequences() {
    let edits = align(&vec![0, 1, 2], &vec![0, 3, 2]).unwrap();
    assert_eq!(
        edits,
        vec![IdEdit::Copy(0), IdEdit::Remove(1), IdEdit::Insert(3), IdEdit::Copy(2)]
    );
}

#[test]
fn alignment_from_nothing_and_to_nothing() {
    assert_eq!(align(&vec![], &vec![5, 6]), Some(vec![IdEdit::Insert(5), IdEdit::Insert(6)]));
    assert_eq!(align(&vec![5, 6], &vec![]), Some(vec![IdEdit::Remove(5), IdEdit::Remove(6)]));
}

#[test]
fn alignment_keeps_the_longest_common_subsequence() {
    // X M J Y A U Z against M Z J A W X U.
    let left = vec![0, 1, 2, 3, 4, 5, 6];
    let right = vec![1, 6, 2, 4, 7, 0, 5];
    let edits = align(&left, &right).unwrap();
    assert_eq!(
        edits,
        vec![
            IdEdit::Remove(0),
            IdEdit::Copy(1),
            IdEdit::Insert(6),
            IdEdit::Copy(2),
            IdEdit::Remove(3),
            IdEdit::Copy(4),
            IdEdit::Insert(7),
            IdEdit::Insert(0),
            IdEdit::Copy(5),
            IdEdit::Remove(6),
        ]
    );
}

#[test]
fn field_edits() {
    let same = diff_field(&"a".to_string(), &"a".to_string());
    assert_eq!(field(&same), "\"a\"");
    let changed = diff_field(&"a".to_string(), &"b".to_string());
    assert_eq!(field(&changed), "\"a\"->\"b\"");
}

#[test]
fn pair_of_identical_atoms_is_a_copy() {
    let op = diff_pair(&atom("a", "t", " "), &atom("a", "t", " "));
    assert_eq!(show(&[op]), vec!["copy \" \" \"a\""]);
}

#[test]
fn pair_that_differs_in_whitespace_is_a_change() {
    let op = diff_pair(&atom("a", "t", " "), &atom("a", "t", "\n"));
    assert_eq!(show(&[op]), vec!["change value=\"a\" tag=\"t\" ws=\" \"->\"\\n\""]);
}

#[test]
fn script_of_equal_sides_copies_all() {
    let side = parse_string("a + b");
    let script = diff(&side, &parse_string("a + b")).unwrap();
    assert_eq!(show(&script), vec!["copy \"\" \"a\"", "copy \" \" \"+\"", "copy \" \" \"b\""]);
}

#[test]
fn script_of_two_empty_sides_is_empty() {
    let script = diff(&parse_string(""), &parse_string("")).unwrap();
    assert!(script.is_empty());
}

#[test]
fn script_replaces_a_token() {
    let script = diff(&parse_string("a b c"), &parse_string("a x c")).unwrap();
    assert_eq!(
        show(&script),
        vec!["copy \"\" \"a\"", "remove \" \" \"b\"", "insert \" \" \"x\"", "copy \" \" \"c\""]
    );
}

#[test]
fn script_inserts_and_removes() {
    let script = diff(&parse_string("a c"), &parse_string("a b c")).unwrap();
    assert_eq!(show(&script), vec!["copy \"\" \"a\"", "insert \" \" \"b\"", "copy \" \" \"c\""]);
    let script = diff(&parse_string("a b c"), &parse_string("a c")).unwrap();
    assert_eq!(show(&script), vec!["copy \"\" \"a\"", "remove \" \" \"b\"", "copy \" \" \"c\""]);
}

#[test]
fn script_marks_changed_whitespace() {
    let script = diff(&parse_string("a b"), &parse_string("a\n  b")).unwrap();
    assert_eq!(
        show(&script),
        vec!["copy \"\" \"a\"", "change value=\"b\" tag=\"\" ws=\" \"->\"\\n  \""]
    );
}

#[test]
fn script_never_pairs_tagged_with_untagged() {
    let before = ParseStruct { atoms: vec![atom("a", "x", "")] };
    let after = ParseStruct { atoms: vec![atom("a", "", "")] };
    let script = diff(&before, &after).unwrap();
    assert_eq!(show(&script), vec!["remove \"\" \"a\"", "insert \"\" \"a\""]);
}

#[test]
fn script_pairs_atoms_of_one_tag() {
    let before = ParseStruct { atoms: vec![atom("a", "x", ""), atom("a", "y", " ")] };
    let after = ParseStruct { atoms: vec![atom("a", "y", "\t")] };
    let script = diff(&before, &after).unwrap();
    assert_eq!(
        show(&script),
        vec!["remove \"\" \"a\"", "change value=\"a\" tag=\"y\" ws=\" \"->\"\\t\""]
    );
}

#[test]
fn script_from_a_given_alignment() {
    let before = parse_string("a b");
    let after = parse_string("a  c");
    let edits = vec![IdEdit::Copy(0), IdEdit::Remove(1), IdEdit::Insert(3)];
    let script = script_from_edits(&before, &after, &edits).unwrap();
    assert_eq!(
        show(&script),
        vec!["copy \"\" \"a\"", "remove \" \" \"b\"", "insert \"  \" \"c\""]
    );
}

#[test]
fn alignment_that_does_not_fit_gives_no_script() {
    let before = parse_string("a b");
    let after = parse_string("a c");
    // Passes too little of the first side.
    assert!(script_from_edits(&before, &after, &vec![IdEdit::Copy(0), IdEdit::Insert(3)]).is_none());
    // Passes too much of the second side.
    assert!(script_from_edits(
        &before,
        &after,
        &vec![IdEdit::Copy(0), IdEdit::Remove(1), IdEdit::Insert(3), IdEdit::Insert(3)]
    )
    .is_none());
    // Names a number that does not stand there.
    assert!(script_from_edits(
        &before,
        &after,
        &vec![IdEdit::Copy(0), IdEdit::Remove(3), IdEdit::Insert(3)]
    )
    .is_none());
    // Keeps a pair of atoms that do not match.
    assert!(script_from_edits(&before, &after, &vec![IdEdit::Copy(0), IdEdit::Copy(1)]).is_none());
    // Reports a pair of numbers as changed.
    assert!(script_from_edits(&before, &after, &vec![IdEdit::Copy(0), IdEdit::Change(1, 3)]).is_none());
    // Nothing at all for two sides that are not empty.
    assert!(script_from_edits(&before, &after, &vec![]).is_none());
}

#[test]
fn lengths_that_can_be_aligned() {
    assert!(can_align(0, 0));
    assert!(can_align(1000, 1000));
    assert!(can_align(usize::MAX - 1, 0));
    assert!(can_align(0, usize::MAX - 1));
    assert!(!can_align(usize::MAX, 0));
    assert!(!can_align(0, usize::MAX));
    assert!(!can_align(usize::MAX / 2, 1));
    assert!(can_align(usize::MAX / 2 - 1, 1));
    assert!(!can_align(usize::MAX, usize::MAX));
}
