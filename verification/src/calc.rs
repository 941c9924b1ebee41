//! The reading of a two-operand arithmetic formula such as `10 + 20`. The
//! pattern is matched by the `regex` crate; what is made of the match is
//! decided here.

pub mod operator;

use operator::{operator_of, Operator};
use vstd::prelude::*;

verus! {

/// What the `regex` crate captures in `haystack` for the groups named
/// `first`, `second` and `third` of `pattern`, at the leftmost match:
/// the three matched substrings, or `None` where the pattern does not
/// compile, nothing matches, or one of the groups took no part in the match.
pub uninterp spec fn regex_captures(
    pattern: Seq<char>,
    haystack: Seq<char>,
    first: Seq<char>,
    second: Seq<char>,
    third: Seq<char>,
) -> Option<(Seq<char>, Seq<char>, Seq<char>)>;

/// Three captured substrings as mathematics.
pub open spec fn texts_of(groups: Option<(String, String, String)>) -> Option<
    (Seq<char>, Seq<char>, Seq<char>),
> {
    match groups {
        Some((first, second, third)) => Some((first@, second@, third@)),
        None => None,
    }
}

/// Compiles `pattern` with `regex::Regex::new`, searches `haystack` with
/// `regex::Regex::captures`, and copies what `regex::Captures::name` gives
/// for the three group names. The contract only names the result: what
/// `regex` matches is not stated here, and is believed to depend on the
/// arguments alone.
#[verifier::external_body]
fn capture_groups(pattern: &str, haystack: &str, first: &str, second: &str, third: &str) -> (groups:
    Option<(String, String, String)>)
    ensures
        texts_of(groups) == regex_captures(pattern@, haystack@, first@, second@, third@),
{
    let re = regex::Regex::new(pattern).ok()?;
    let caps = re.captures(haystack)?;
    Some(
        (
            caps.name(first)?.as_str().to_string(),
            caps.name(second)?.as_str().to_string(),
            caps.name(third)?.as_str().to_string(),
        ),
    )
}

/// Why an input is no formula.
#[derive(Debug, Clone, Copy, PartialEq, Eq, Structural)]
pub enum FormulaError {
    /// The pattern of a formula matches nowhere in the input.
    NoMatch,
    /// What stands between the operands is none of the four operator signs.
    InvalidOperator,
}

impl FormulaError {
    /// The error in words.
    pub fn message(&self) -> (text: &'static str)
        ensures
            text@ == match *self {
                FormulaError::NoMatch => "No matches"@,
                FormulaError::InvalidOperator => "invalid operator"@,
            },
    {
        match self {
            FormulaError::NoMatch => "No matches",
            FormulaError::InvalidOperator => "invalid operator",
        }
    }
}

/// A formula: two operands, as the numerals that were written, and the
/// operator between them.
#[derive(Debug)]
pub struct Formula {
    pub left: String,
    pub operator: Operator,
    pub right: String,
}

/// A formula as mathematics.
pub struct FormulaView {
    pub left: Seq<char>,
    pub operator: Operator,
    pub right: Seq<char>,
}

impl View for Formula {
    type V = FormulaView;

    open spec fn view(&self) -> FormulaView {
        FormulaView { left: self.left@, operator: self.operator, right: self.right@ }
    }
}

/// The pattern of a formula: a numeral, an operator sign and a numeral, with
/// at most one whitespace character on each side of the sign.
pub const FORMULA_PATTERN: &'static str =
    r"(?<val1>\d+\.?\d*)\s?(?<op>\+|\-|\*|/)\s?(?<val2>\d+\.?\d*)";

/// The formula that three captured substrings make: the operands as they
/// are, the operator that the middle one stands for.
pub open spec fn formula_of(groups: Option<(Seq<char>, Seq<char>, Seq<char>)>) -> Result<
    FormulaView,
    FormulaError,
> {
    match groups {
        None => Err(FormulaError::NoMatch),
        Some((left, sign, right)) => match operator_of(sign) {
            None => Err(FormulaError::InvalidOperator),
            Some(operator) => Ok(FormulaView { left, operator, right }),
        },
    }
}

/// Makes a formula of what the pattern captured.
pub fn formula_from_groups(groups: Option<(String, String, String)>) -> (r: Result<
    Formula,
    FormulaError,
>)
    ensures
        match r {
            Ok(formula) => formula_of(texts_of(groups)) == Ok::<_, FormulaError>(formula@),
            Err(error) => formula_of(texts_of(groups)) == Err::<FormulaView, _>(error),
        },
{
    match groups {
        None => Err(FormulaError::NoMatch),
        Some((left, sign, right)) => match Operator::from_sign(sign.as_str()) {
            None => Err(FormulaError::InvalidOperator),
            Some(operator) => Ok(Formula { left, operator, right }),
        },
    }
}

/// Reads the first formula that stands in `input`.
pub fn parse_formula(input: &str) -> (r: Result<Formula, FormulaError>)
    ensures
        match r {
            Ok(formula) => formula_of(
                regex_captures(FORMULA_PATTERN@, input@, "val1"@, "op"@, "val2"@),
            ) == Ok::<_, FormulaError>(formula@),
            Err(error) => formula_of(
                regex_captures(FORMULA_PATTERN@, input@, "val1"@, "op"@, "val2"@),
            ) == Err::<FormulaView, _>(error),
        },
{
    let groups = capture_groups(
        FORMULA_PATTERN,
        input,
        "val1",
        "op",
        "val2",
    );
    formula_from_groups(groups)
}

} // verus!
