use rsimple_http::calc::operator::Operator;
use rsimple_http::calc::{formula_from_groups, parse_formula, FormulaError};

#[test]
fn formula_parse() {
    let f = parse_formula("10 + 20").unwrap();
    assert_eq!(f.left.parse::<f64>().unwrap(), 10.0);
    assert_eq!(f.operator.to_string(), "+");
    assert_eq!(f.right.parse::<f64>().unwrap(), 20.0);
}

#[test]
fn formula_keeps_the_numerals_as_written() {
    let f = parse_formula("10 + 20").unwrap();
    assert_eq!(f.left, "10");
    assert_eq!(f.operator, Operator::Plus);
    assert_eq!(f.right, "20");
    let f = parse_formula("1.5*2.25").unwrap();
    assert_eq!(f.left, "1.5");
    assert_eq!(f.operator, Operator::Multiply);
    assert_eq!(f.right, "2.25");
    let f = parse_formula("7. / 2").unwrap();
    assert_eq!(f.left, "7.");
    assert_eq!(f.operator, Operator::Divide);
    assert_eq!(f.right, "2");
    let f = parse_formula("3 -4").unwrap();
    assert_eq!(f.left, "3");
    assert_eq!(f.operator, Operator::Minus);
    assert_eq!(f.right, "4");
}

#[test]
fn formula_is_searched_for_in_the_input() {
    let f = parse_formula("what is 12 / 4, please?").unwrap();
    assert_eq!(f.left, "12");
    assert_eq!(f.operator, Operator::Divide);
    assert_eq!(f.right, "4");
    let f = parse_formula("1 + 2 + 3").unwrap();
    assert_eq!(f.left, "1");
    assert_eq!(f.right, "2");
    let f = parse_formula("-5 * 6").unwrap();
    assert_eq!(f.left, "5");
    assert_eq!(f.operator, Operator::Multiply);
    assert_eq!(f.right, "6");
}

#[test]
fn no_formula_in_the_input() {
    for input in ["", "hello", "10", "10 +", "+ 20", "10  +  20", "10 % 20", "a + b", "10 plus 20"] {
        assert_eq!(parse_formula(input).unwrap_err(), FormulaError::NoMatch, "{input:?}");
    }
}

#[test]
fn groups_make_the_formula() {
    let groups = Some(("1".to_string(), "-".to_string(), "2".to_string()));
    let f = formula_from_groups(groups).unwrap();
    assert_eq!(f.left, "1");
    assert_eq!(f.operator, Operator::Minus);
    assert_eq!(f.right, "2");
    assert_eq!(formula_from_groups(None).unwrap_err(), FormulaError::NoMatch);
    let groups = Some(("1".to_string(), "^".to_string(), "2".to_string()));
    assert_eq!(formula_from_groups(groups).unwrap_err(), FormulaError::InvalidOperator);
    let groups = Some(("1".to_string(), "".to_string(), "2".to_string()));
    assert_eq!(formula_from_groups(groups).unwrap_err(), FormulaError::InvalidOperator);
    let groups = Some(("".to_string(), "/".to_string(), "x".to_string()));
    let f = formula_from_groups(groups).unwrap();
    assert_eq!(f.left, "");
    assert_eq!(f.operator, Operator::Divide);
    assert_eq!(f.right, "x");
}

#[test]
fn errors_in_words() {
    assert_eq!(FormulaError::NoMatch.message(), "No matches");
    assert_eq!(FormulaError::InvalidOperator.message(), "invalid operator");
}
