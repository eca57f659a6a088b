//! The structure of parsed trees, inspected through the in-process table.

use fnky_parser::arena::{CtorTable, IFunctionAST, NodeData};
use fnky_parser::parse_str;
use fnky_parser::ParseOutcome;

fn tree_handle(r: ParseOutcome) -> IFunctionAST {
    match r {
        ParseOutcome::Tree(h) => h,
        ParseOutcome::Message(_) => panic!("expected a tree, got a diagnostic"),
    }
}

fn node_of(t: &CtorTable, h: IFunctionAST) -> NodeData {
    t.get_node(h.0).expect("handle minted by the table").clone()
}

fn name_of(t: &CtorTable, h: IFunctionAST) -> String {
    let NodeData::Variable(gs) = node_of(t, h) else {
        panic!("expected a variable node");
    };
    let Some(NodeData::Str(s)) = t.get_node(gs.0).cloned() else {
        panic!("expected a minted name string");
    };
    s
}

fn number_text(t: &CtorTable, h: IFunctionAST) -> String {
    let NodeData::Number(s) = node_of(t, h) else {
        panic!("expected a number node");
    };
    s
}

#[test]
fn parse_variable() {
    let mut table = CtorTable::mock_table();
    let result = tree_handle(parse_str("a_12", &mut table));

    assert_eq!(name_of(&table, result), "a_12");
}

#[test]
fn parse_add() {
    let mut table = CtorTable::mock_table();
    let result = tree_handle(parse_str("a_1 + b_xy + 34", &mut table));

    // (a_1 + b_xy) + 34
    let NodeData::Add(lhs, rhs) = node_of(&table, result) else {
        panic!("expected an addition");
    };
    let NodeData::Add(lhs, rhs2) = node_of(&table, lhs) else {
        panic!("expected an addition");
    };
    assert_eq!(name_of(&table, lhs), "a_1");
    assert_eq!(name_of(&table, rhs2), "b_xy");
    assert_eq!(number_text(&table, rhs), "34");
}

#[test]
fn parse_complex_arith() {
    let mut table = CtorTable::mock_table();
    let result = tree_handle(parse_str("(5t + 4)/4 + (4t * 3)/3", &mut table));

    // (5t + 4)/4 + (4t * 3)/3
    let NodeData::Add(lhs, rhs) = node_of(&table, result) else {
        panic!("expected an addition");
    };
    // (5t + 4)/4
    let NodeData::Divide(lhs, rhs2) = node_of(&table, lhs) else {
        panic!("expected a division");
    };
    let NodeData::Add(lhs, rhs3) = node_of(&table, lhs) else {
        panic!("expected an addition");
    };
    let NodeData::Multiply(lhs, rhs4) = node_of(&table, lhs) else {
        panic!("expected a multiplication");
    };
    assert_eq!(number_text(&table, lhs), "5");
    assert_eq!(name_of(&table, rhs4), "t");
    assert_eq!(number_text(&table, rhs3), "4");
    assert_eq!(number_text(&table, rhs2), "4");
    // (4t * 3)/3
    let NodeData::Divide(lhs, rhs) = node_of(&table, rhs) else {
        panic!("expected a division");
    };
    let NodeData::Multiply(lhs, rhs2) = node_of(&table, lhs) else {
        panic!("expected a multiplication");
    };
    let NodeData::Multiply(lhs, rhs3) = node_of(&table, lhs) else {
        panic!("expected a multiplication");
    };
    assert_eq!(number_text(&table, lhs), "4");
    assert_eq!(name_of(&table, rhs3), "t");
    assert_eq!(number_text(&table, rhs2), "3");
    assert_eq!(number_text(&table, rhs), "3");
}

#[test]
fn parse_ambiguous_abs() {
    let mut table = CtorTable::mock_table();
    let result = tree_handle(parse_str("abs(1)abs(1)", &mut table));

    // abs(1) * abs(1)
    let NodeData::Multiply(lhs, rhs) = node_of(&table, result) else {
        panic!("expected a multiplication");
    };
    let NodeData::Absolute(inner) = node_of(&table, lhs) else {
        panic!("expected an absolute value");
    };
    assert_eq!(number_text(&table, inner), "1");
    let NodeData::Absolute(inner) = node_of(&table, rhs) else {
        panic!("expected an absolute value");
    };
    assert_eq!(number_text(&table, inner), "1");
}

#[test]
fn parse_square_wave() {
    let mut table = CtorTable::mock_table();
    let result = tree_handle(parse_str("4floor(t) - 2floor(2t) + 1", &mut table));

    // 4floor(t) - 2floor(2t) + 1
    let NodeData::Add(lhs, rhs) = node_of(&table, result) else {
        panic!("expected an addition");
    };
    // 4floor(t) - 2floor(2t)
    let NodeData::Subtract(lhs, rhs2) = node_of(&table, lhs) else {
        panic!("expected a subtraction");
    };
    // 4floor(t)
    let NodeData::Multiply(lhs, rhs3) = node_of(&table, lhs) else {
        panic!("expected a multiplication");
    };
    assert_eq!(number_text(&table, lhs), "4");
    let NodeData::Floor(inner) = node_of(&table, rhs3) else {
        panic!("expected a floor");
    };
    assert_eq!(name_of(&table, inner), "t");
    // 2floor(2t)
    let NodeData::Multiply(lhs, rhs2) = node_of(&table, rhs2) else {
        panic!("expected a multiplication");
    };
    assert_eq!(number_text(&table, lhs), "2");
    let NodeData::Floor(inner) = node_of(&table, rhs2) else {
        panic!("expected a floor");
    };
    let NodeData::Multiply(lhs, rhs2) = node_of(&table, inner) else {
        panic!("expected a multiplication");
    };
    assert_eq!(number_text(&table, lhs), "2");
    assert_eq!(name_of(&table, rhs2), "t");
    assert_eq!(number_text(&table, rhs), "1");
}

#[test]
fn parse_polynomial() {
    let mut table = CtorTable::mock_table();
    let result = tree_handle(parse_str("5x^2 + 3x - 1", &mut table));

    // (5x^2 + 3x) - 1
    let NodeData::Subtract(lhs, rhs) = node_of(&table, result) else {
        panic!("expected a subtraction");
    };
    let NodeData::Add(lhs, rhs2) = node_of(&table, lhs) else {
        panic!("expected an addition");
    };
    // 5x^2
    let NodeData::Multiply(lhs, rhs3) = node_of(&table, lhs) else {
        panic!("expected a multiplication");
    };
    assert_eq!(number_text(&table, lhs), "5");
    let NodeData::Exponent(base, power) = node_of(&table, rhs3) else {
        panic!("expected an exponent");
    };
    assert_eq!(name_of(&table, base), "x");
    assert_eq!(number_text(&table, power), "2");
    // 3x
    let NodeData::Multiply(lhs, rhs2) = node_of(&table, rhs2) else {
        panic!("expected a multiplication");
    };
    assert_eq!(number_text(&table, lhs), "3");
    assert_eq!(name_of(&table, rhs2), "x");
    assert_eq!(number_text(&table, rhs), "1");
}

#[test]
fn parse_special_constants() {
    let mut table = CtorTable::mock_table();
    let result = tree_handle(parse_str("pi + e", &mut table));

    // pi + e
    let NodeData::Add(lhs, rhs) = node_of(&table, result) else {
        panic!("expected an addition");
    };
    assert!(matches!(node_of(&table, lhs), NodeData::Pi));
    assert!(matches!(node_of(&table, rhs), NodeData::E));
}

#[test]
fn parse_modulo() {
    let mut table = CtorTable::mock_table();
    let result = tree_handle(parse_str("27 % 6", &mut table));

    // 27 % 6
    let NodeData::Modulo(lhs, rhs) = node_of(&table, result) else {
        panic!("expected a modulo");
    };
    assert_eq!(number_text(&table, lhs), "27");
    assert_eq!(number_text(&table, rhs), "6");
}

#[test]
fn parse_complex_modulo() {
    let mut table = CtorTable::mock_table();
    let result = tree_handle(parse_str("27 % 2t", &mut table));

    // 27 % (2 * t)
    let NodeData::Modulo(lhs, rhs) = node_of(&table, result) else {
        panic!("expected a modulo");
    };
    assert_eq!(number_text(&table, lhs), "27");
    let NodeData::Multiply(lhs, rhs) = node_of(&table, rhs) else {
        panic!("expected a multiplication");
    };
    assert_eq!(number_text(&table, lhs), "2");
    assert_eq!(name_of(&table, rhs), "t");
}

#[test]
fn parse_braced_subscript() {
    let mut table = CtorTable::mock_table();
    let result = tree_handle(parse_str("a_{12}", &mut table));

    assert_eq!(name_of(&table, result), "a_12");
}

#[test]
fn parse_decimal_number() {
    let mut table = CtorTable::mock_table();
    let result = tree_handle(parse_str("3.14", &mut table));

    assert_eq!(number_text(&table, result), "3.14");
}

#[test]
fn parse_exponent_right_assoc() {
    let mut table = CtorTable::mock_table();
    let result = tree_handle(parse_str("2^3^2", &mut table));

    // 2 ^ (3 ^ 2)
    let NodeData::Exponent(base, power) = node_of(&table, result) else {
        panic!("expected an exponent");
    };
    assert_eq!(number_text(&table, base), "2");
    let NodeData::Exponent(base, power) = node_of(&table, power) else {
        panic!("expected an exponent");
    };
    assert_eq!(number_text(&table, base), "3");
    assert_eq!(number_text(&table, power), "2");
}

#[test]
fn parse_keyword_greedy() {
    let mut table = CtorTable::mock_table();
    let result = tree_handle(parse_str("pit", &mut table));

    // pi * t: the constant wins over the single-letter variable `p`
    let NodeData::Multiply(lhs, rhs) = node_of(&table, result) else {
        panic!("expected a multiplication");
    };
    assert!(matches!(node_of(&table, lhs), NodeData::Pi));
    assert_eq!(name_of(&table, rhs), "t");
}

#[test]
fn parse_subscripted_e_is_variable() {
    let mut table = CtorTable::mock_table();
    let result = tree_handle(parse_str("e_2", &mut table));

    // the longer identifier match beats the constant `e`
    assert_eq!(name_of(&table, result), "e_2");
}

#[test]
fn parse_division_chain() {
    let mut table = CtorTable::mock_table();
    let result = tree_handle(parse_str("8/4/2", &mut table));

    // (8 / 4) / 2
    let NodeData::Divide(lhs, rhs) = node_of(&table, result) else {
        panic!("expected a division");
    };
    assert_eq!(number_text(&table, rhs), "2");
    let NodeData::Divide(lhs, rhs) = node_of(&table, lhs) else {
        panic!("expected a division");
    };
    assert_eq!(number_text(&table, lhs), "8");
    assert_eq!(number_text(&table, rhs), "4");
}

#[test]
fn parse_all_functions() {
    let mut table = CtorTable::mock_table();
    let result = tree_handle(parse_str("sin(x) + cos(x) + tan(x) + ceil(x)", &mut table));

    let NodeData::Add(lhs, rhs) = node_of(&table, result) else {
        panic!("expected an addition");
    };
    let NodeData::Ceil(_) = node_of(&table, rhs) else {
        panic!("expected a ceiling");
    };
    let NodeData::Add(lhs, rhs) = node_of(&table, lhs) else {
        panic!("expected an addition");
    };
    let NodeData::Tangent(_) = node_of(&table, rhs) else {
        panic!("expected a tangent");
    };
    let NodeData::Add(lhs, rhs) = node_of(&table, lhs) else {
        panic!("expected an addition");
    };
    let NodeData::Sine(inner) = node_of(&table, lhs) else {
        panic!("expected a sine");
    };
    assert_eq!(name_of(&table, inner), "x");
    let NodeData::Cosine(_) = node_of(&table, rhs) else {
        panic!("expected a cosine");
    };
}
