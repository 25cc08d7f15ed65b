use token_patch::atom::{parse_struct2str, ParseStruct};
use token_patch::chars::{is_blank, is_ident};
use token_patch::tokenizer::{parse_string, parse_token};

fn values(p: &ParseStruct) -> Vec<String> {
    p.atoms.iter().map(|a| a.token_value.clone()).collect()
}

fn spaces(p: &ParseStruct) -> Vec<String> {
    p.atoms.iter().map(|a| a.leading_ws.clone()).collect()
}

fn round_trips(text: &str) {
    let p = parse_string(text);
    assert_eq!(parse_struct2str(&p), text);
}

#[test]
fn identifier_characters() {
    for c in ['a', 'z', 'A', 'Z', '0', '9', '_'] {
        assert!(is_ident(c));
    }
    for c in ['+', ' ', '\n', '-', '\\', 'é', '{', '@', '`', '[', '/', ':'] {
        assert!(!is_ident(c));
    }
}

#[test]
fn blank_characters() {
    for c in [' ', '\t', '\n', '\r', '\\', '\u{a0}', '\u{3000}'] {
        assert!(is_blank(c));
    }
    for c in ['a', '_', '+', '/', '0'] {
        assert!(!is_blank(c));
    }
}

#[test]
fn empty_text_has_no_atoms() {
    let p = parse_string("");
    assert!(p.atoms.is_empty());
    assert_eq!(parse_struct2str(&p), "");
}

#[test]
fn words_and_whitespace() {
    let p = parse_string("foo bar  baz");
    assert_eq!(values(&p), vec!["foo", "bar", "baz"]);
    assert_eq!(spaces(&p), vec!["", " ", "  "]);
    assert!(p.atoms.iter().all(|a| a.token_uuid.is_empty()));
}

#[test]
fn class_change_ends_a_token() {
    let p = parse_string("foo+bar");
    assert_eq!(values(&p), vec!["foo", "+", "bar"]);
    assert_eq!(spaces(&p), vec!["", "", ""]);
}

#[test]
fn punctuation_runs_stay_together() {
    let p = parse_string("a += b_1;");
    assert_eq!(values(&p), vec!["a", "+=", "b_1", ";"]);
    assert_eq!(spaces(&p), vec!["", " ", " ", ""]);
}

#[test]
fn whitespace_at_the_end_is_an_atom_without_text() {
    let p = parse_string("x \n");
    assert_eq!(values(&p), vec!["x", ""]);
    assert_eq!(spaces(&p), vec!["", " \n"]);
}

#[test]
fn only_whitespace_is_one_atom_without_text() {
    let p = parse_string(" \t ");
    assert_eq!(values(&p), vec![""]);
    assert_eq!(spaces(&p), vec![" \t "]);
}

#[test]
fn backslash_in_front_of_a_token_is_whitespace() {
    let p = parse_string("a \\\n  b");
    assert_eq!(values(&p), vec!["a", "b"]);
    assert_eq!(spaces(&p), vec!["", " \\\n  "]);
}

#[test]
fn backslash_inside_punctuation_is_text() {
    let p = parse_string("+\\b");
    assert_eq!(values(&p), vec!["+\\", "b"]);
    assert_eq!(spaces(&p), vec!["", ""]);
}

#[test]
fn backslash_behind_an_identifier_starts_the_next_atom() {
    let p = parse_string("a\\b");
    assert_eq!(values(&p), vec!["a", "b"]);
    assert_eq!(spaces(&p), vec!["", "\\"]);
}

#[test]
fn letters_outside_ascii_are_not_identifier_characters() {
    let p = parse_string("é1 añb");
    assert_eq!(values(&p), vec!["é", "1", "a", "ñ", "b"]);
    assert_eq!(spaces(&p), vec!["", "", " ", "", ""]);
}

#[test]
fn unicode_whitespace_separates() {
    let p = parse_string("a\u{a0}b\u{2003}c");
    assert_eq!(values(&p), vec!["a", "b", "c"]);
    assert_eq!(spaces(&p), vec!["", "\u{a0}", "\u{2003}"]);
}

#[test]
fn round_trip_reproduces_the_text() {
    round_trips("");
    round_trips("foo bar baz");
    round_trips("  leading and trailing \n");
    round_trips("int main(void) {\n\treturn a+b*c; /* x */\n}\n");
    round_trips("#define X \\\n    1\n");
    round_trips("héllo → wörld ✓\u{a0}end");
    round_trips("\\\\ \\");
    round_trips("\n\n\n");
}

#[test]
fn parse_token_at_the_start() {
    let (atom, delta) = parse_token("  foo+bar", 0);
    let atom = atom.unwrap();
    assert_eq!(atom.leading_ws, "  ");
    assert_eq!(atom.token_value, "foo");
    assert_eq!(atom.token_uuid, "");
    assert_eq!(delta, 5);
}

#[test]
fn parse_token_in_the_middle() {
    let (atom, delta) = parse_token("  foo+bar", 5);
    let atom = atom.unwrap();
    assert_eq!(atom.leading_ws, "");
    assert_eq!(atom.token_value, "+");
    assert_eq!(delta, 1);
    let (atom, delta) = parse_token("  foo+bar", 6);
    let atom = atom.unwrap();
    assert_eq!(atom.token_value, "bar");
    assert_eq!(delta, 3);
}

#[test]
fn parse_token_at_and_past_the_end() {
    let (atom, delta) = parse_token("abc", 3);
    assert!(atom.is_none());
    assert_eq!(delta, 0);
    let (atom, delta) = parse_token("abc", 17);
    assert!(atom.is_none());
    assert_eq!(delta, 0);
    let (atom, delta) = parse_token("", 0);
    assert!(atom.is_none());
    assert_eq!(delta, 0);
}

#[test]
fn parse_token_counts_bytes() {
    // 'é' takes two bytes, '→' three, U+00A0 two.
    let text = "\u{a0}é→ x";
    let (atom, delta) = parse_token(text, 0);
    let atom = atom.unwrap();
    assert_eq!(atom.leading_ws, "\u{a0}");
    assert_eq!(atom.token_value, "é→");
    assert_eq!(delta, 7);
    let (atom, delta) = parse_token(text, 7);
    let atom = atom.unwrap();
    assert_eq!(atom.leading_ws, " ");
    assert_eq!(atom.token_value, "x");
    assert_eq!(delta, 2);
    assert_eq!(7 + 2, text.len());
}

#[test]
fn whitespace_is_the_unicode_property() {
    let listed = |c: char| {
        ('\u{9}'..='\u{d}').contains(&c)
            || c == ' '
            || c == '\u{85}'
            || c == '\u{a0}'
            || c == '\u{1680}'
            || ('\u{2000}'..='\u{200a}').contains(&c)
            || c == '\u{2028}'
            || c == '\u{2029}'
            || c == '\u{202f}'
            || c == '\u{205f}'
            || c == '\u{3000}'
    };
    let mut count = 0;
    for code in 0..=0x10ffffu32 {
        if let Some(c) = char::from_u32(code) {
            assert_eq!(is_blank(c), listed(c) || c == '\\');
            if listed(c) {
                count += 1;
            }
        }
    }
    assert_eq!(count, 25);
}

#[test]
fn characters_beside_whitespace_are_text() {
    let p = parse_string("a\u{8}b\u{e}c\u{200b}d\u{180e}e\u{feff}f");
    assert_eq!(values(&p), vec!["a", "\u{8}", "b", "\u{e}", "c", "\u{200b}", "d", "\u{180e}", "e", "\u{feff}", "f"]);
}
