use rsimple_http::calc::operator::Operator;

#[test]
fn to_string() {
    assert_eq!(Operator::Plus.to_string(), "+");
}

#[test]
fn every_operator_has_its_sign() {
    assert_eq!(Operator::Minus.to_string(), "-");
    assert_eq!(Operator::Multiply.to_string(), "*");
    assert_eq!(Operator::Divide.to_string(), "/");
}

#[test]
fn signs_give_their_operators() {
    assert_eq!(Operator::from_sign("+"), Some(Operator::Plus));
    assert_eq!(Operator::from_sign("-"), Some(Operator::Minus));
    assert_eq!(Operator::from_sign("*"), Some(Operator::Multiply));
    assert_eq!(Operator::from_sign("/"), Some(Operator::Divide));
    assert_eq!(Operator::from_sign("%"), None);
    assert_eq!(Operator::from_sign(""), None);
    assert_eq!(Operator::from_sign("++"), None);
}

#[test]
fn sign_round_trip() {
    for operator in [Operator::Plus, Operator::Minus, Operator::Multiply, Operator::Divide] {
        assert_eq!(Operator::from_sign(operator.to_string()), Some(operator));
    }
}
