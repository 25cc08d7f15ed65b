use token_patch::atom::{atom2str, parse_struct2str, ParseStruct, TextAtom};

fn atom(value: &str, tag: &str, ws: &str) -> TextAtom {
    TextAtom {
        token_value: value.to_string(),
        token_uuid: tag.to_string(),
        leading_ws: ws.to_string(),
    }
}

#[test]
fn untagged_atoms_match_by_text() {
    assert!(atom("a", "", " ").same(&atom("a", "", "\n")));
    assert!(!atom("a", "", "").same(&atom("b", "", "")));
}

#[test]
fn tagged_never_matches_untagged() {
    assert!(!atom("a", "x", "").same(&atom("a", "", "")));
    assert!(!atom("a", "", "").same(&atom("a", "x", "")));
}

#[test]
fn tagged_atoms_match_by_tag_and_text() {
    assert!(atom("a", "x", "").same(&atom("a", "x", "  ")));
    assert!(!atom("a", "x", "").same(&atom("a", "y", "")));
    assert!(!atom("a", "x", "").same(&atom("b", "x", "")));
}

#[test]
fn surface_equality_ignores_tag_and_whitespace() {
    assert!(atom("a", "x", " ") == atom("a", "", ""));
    assert!(atom("a", "x", "") == atom("a", "y", "\t"));
    assert!(atom("a", "", "") != atom("b", "", ""));
}

#[test]
fn surface_equal_atoms_need_not_match() {
    let tagged = atom("a", "x", "");
    let plain = atom("a", "", "");
    assert!(tagged == plain);
    assert!(!tagged.same(&plain));
}

#[test]
fn identical_compares_every_field() {
    assert!(atom("a", "x", " ").identical(&atom("a", "x", " ")));
    assert!(!atom("a", "x", " ").identical(&atom("a", "x", "")));
    assert!(!atom("a", "x", " ").identical(&atom("a", "", " ")));
    assert!(!atom("a", "x", " ").identical(&atom("b", "x", " ")));
}

#[test]
fn clone_keeps_every_field() {
    let a = atom("tok", "id", " \n");
    let b = a.clone();
    assert_eq!(b.token_value, "tok");
    assert_eq!(b.token_uuid, "id");
    assert_eq!(b.leading_ws, " \n");
    let p = ParseStruct { atoms: vec![a, atom("x", "", "")] };
    let q = p.clone();
    assert_eq!(q.atoms.len(), 2);
    assert!(q.atoms[0].identical(&p.atoms[0]));
    assert!(q.atoms[1].identical(&p.atoms[1]));
}

#[test]
fn atom_text_is_whitespace_then_token() {
    assert_eq!(atom2str(&atom("foo", "tag", "  ")), "  foo");
    assert_eq!(atom2str(&atom("", "", "\n")), "\n");
    assert_eq!(atom2str(&atom("", "", "")), "");
}

#[test]
fn sequence_text_is_the_atoms_in_order() {
    let p = ParseStruct { atoms: vec![atom("a", "", ""), atom("+", "t", " "), atom("b", "", "\n")] };
    assert_eq!(parse_struct2str(&p), "a +\nb");
    assert_eq!(parse_struct2str(&ParseStruct { atoms: vec![] }), "");
}
