use token_patch::diff::diff;
use token_patch::render::{render_diff, render_edit, text_after, Highlight, Segment};
use token_patch::script::{AtomEdit, EditedTextAtom, FieldEdit};
use token_patch::tokenizer::parse_string;

fn shown(segments: &[Segment]) -> Vec<(Highlight, String)> {
    segments.iter().map(|s| (s.highlight, s.text.clone())).collect()
}

#[test]
fn field_on_the_second_side() {
    assert_eq!(text_after(&FieldEdit::Copy("a".to_string())), "a");
    assert_eq!(text_after(&FieldEdit::Change("a".to_string(), "b".to_string())), "b");
}

#[test]
fn pieces_of_a_script() {
    let script = diff(&parse_string("a b  c d"), &parse_string("a x c\n d")).unwrap();
    assert_eq!(
        shown(&render_diff(&script)),
        vec![
            (Highlight::Plain, "a".to_string()),
            (Highlight::Removed, " b".to_string()),
            (Highlight::Inserted, " x".to_string()),
            (Highlight::Changed, " c".to_string()),
            (Highlight::Changed, "\n d".to_string()),
        ]
    );
}

#[test]
fn pieces_of_an_empty_script() {
    assert!(render_diff(&vec![]).is_empty());
}

#[test]
fn piece_of_a_changed_token_text() {
    let edit = AtomEdit::Change(EditedTextAtom {
        token_value: FieldEdit::Change("old".to_string(), "new".to_string()),
        token_uuid: FieldEdit::Copy(String::new()),
        leading_ws: FieldEdit::Copy(" ".to_string()),
    });
    let segment = render_edit(&edit);
    assert_eq!(segment.highlight, Highlight::Unsupported);
    assert_eq!(segment.text, "new");
}
