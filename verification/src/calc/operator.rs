//! The four operators of the calculator.

use crate::text::same_text;
use vstd::prelude::*;

verus! {

/// An arithmetic operator.
#[derive(Debug, Clone, Copy, PartialEq, Eq, Structural)]
pub enum Operator {
    Plus,
    Minus,
    Multiply,
    Divide,
}

/// The sign that stands for an operator.
pub open spec fn symbol(operator: Operator) -> Seq<char> {
    match operator {
        Operator::Plus => "+"@,
        Operator::Minus => "-"@,
        Operator::Multiply => "*"@,
        Operator::Divide => "/"@,
    }
}

/// The operator that a sign stands for.
pub open spec fn operator_of(sign: Seq<char>) -> Option<Operator> {
    if sign == "+"@ {
        Some(Operator::Plus)
    } else if sign == "-"@ {
        Some(Operator::Minus)
    } else if sign == "*"@ {
        Some(Operator::Multiply)
    } else if sign == "/"@ {
        Some(Operator::Divide)
    } else {
        None
    }
}

impl Operator {
    /// The sign of the operator.
    pub fn to_string(&self) -> (sign: &str)
        ensures
            sign@ == symbol(*self),
    {
        match self {
            Operator::Plus => "+",
            Operator::Minus => "-",
            Operator::Multiply => "*",
            Operator::Divide => "/",
        }
    }

    /// The operator that `sign` stands for.
    pub fn from_sign(sign: &str) -> (operator: Option<Operator>)
        ensures
            operator == operator_of(sign@),
    {
        if same_text(sign, "+") {
            Some(Operator::Plus)
        } else if same_text(sign, "-") {
            Some(Operator::Minus)
        } else if same_text(sign, "*") {
            Some(Operator::Multiply)
        } else if same_text(sign, "/") {
            Some(Operator::Divide)
        } else {
            None
        }
    }
}

/// Each operator is found again from its sign.
pub proof fn theorem_sign_round_trip(operator: Operator)
    ensures
        operator_of(symbol(operator)) == Some(operator),
{
    reveal_strlit("+");
    reveal_strlit("-");
    reveal_strlit("*");
    reveal_strlit("/");
    assert("+"@[0] == '+');
    assert("-"@[0] == '-');
    assert("*"@[0] == '*');
    assert("/"@[0] == '/');
}

} // verus!
