//! Diagnostics: every rejected input yields a string node with exact text.

use fnky_parser::arena::{CtorTable, GCString, NodeData};
use fnky_parser::parse_bytes;
use fnky_parser::parse_str;
use fnky_parser::ParseOutcome;

fn message_text(t: &CtorTable, r: ParseOutcome) -> String {
    let g = match r {
        ParseOutcome::Message(g) => g,
        ParseOutcome::Tree(_) => panic!("expected a diagnostic, got a tree"),
    };
    let Some(NodeData::Str(s)) = t.get_node(g.0).cloned() else {
        panic!("expected a minted message string");
    };
    s
}

#[test]
fn invalid_utf8_exact_message() {
    let mut table = CtorTable::mock_table();
    let before = table.node_count();
    let r = parse_bytes(&[0xff, 0xfe, 0x31], &mut table);
    assert_eq!(message_text(&table, r), "invalid utf8 given to parser");
    // no tree constructor ran: only the message string was minted
    assert_eq!(table.node_count(), before + 1);
}

#[test]
fn valid_bytes_parse_as_text() {
    let mut table = CtorTable::mock_table();
    let r = parse_bytes(b"pi", &mut table);
    let h = match r {
        ParseOutcome::Tree(h) => h,
        ParseOutcome::Message(_) => panic!("expected a tree"),
    };
    assert!(matches!(table.get_node(h.0), Some(NodeData::Pi)));
}

#[test]
fn unrecognized_character_position() {
    let mut table = CtorTable::mock_table();
    let r = parse_str("1 + @", &mut table);
    assert_eq!(message_text(&table, r), "unrecognized character at position 4");
}

#[test]
fn unexpected_end_of_input() {
    let mut table = CtorTable::mock_table();
    let r = parse_str("1 +", &mut table);
    assert_eq!(message_text(&table, r), "unexpected end of input");
}

#[test]
fn empty_input_is_rejected() {
    let mut table = CtorTable::mock_table();
    let r = parse_str("", &mut table);
    assert_eq!(message_text(&table, r), "unexpected end of input");
}

#[test]
fn trailing_token_is_rejected() {
    let mut table = CtorTable::mock_table();
    let r = parse_str("1)", &mut table);
    assert_eq!(message_text(&table, r), "unexpected token at position 1");
}

#[test]
fn unmatched_parenthesis() {
    let mut table = CtorTable::mock_table();
    let r = parse_str("(1 + 2", &mut table);
    assert_eq!(message_text(&table, r), "unexpected end of input");
}

#[test]
fn function_needs_parenthesized_argument() {
    let mut table = CtorTable::mock_table();
    let r = parse_str("abs 1", &mut table);
    assert_eq!(message_text(&table, r), "unexpected token at position 1");
}

#[test]
fn bare_function_keyword_is_rejected() {
    let mut table = CtorTable::mock_table();
    let r = parse_str("floor", &mut table);
    assert_eq!(message_text(&table, r), "unexpected end of input");
}

#[test]
fn stray_underscore_is_rejected() {
    let mut table = CtorTable::mock_table();
    // the subscript after `_` is malformed, so the identifier is `a` alone
    // and the underscore itself is the offending character
    let r = parse_str("a_ ", &mut table);
    assert_eq!(message_text(&table, r), "unrecognized character at position 1");
}

#[test]
fn failed_parse_keeps_partial_nodes() {
    let mut table = CtorTable::mock_table();
    let before = table.node_count();
    let r = parse_str("1 + 2 )", &mut table);
    let _ = message_text(&table, r);
    // the two numbers, their sum and the message all stay with the table
    assert!(table.node_count() >= before + 4);
}

#[test]
fn fake_string_handle() {
    let g = GCString::fake();
    assert_eq!(g.0 .0, 0);
}
