//! An interactive arithmetic evaluator: one line of text is turned into
//! tokens, parsed into an expression tree under the usual precedence rules,
//! and reduced to the bits of an IEEE double, or to the first error on the
//! way. The only state a session carries between lines is the previous
//! answer, which the reserved identifier "ans" resolves to.
use vstd::prelude::*;

pub mod expr;
pub mod laws;
pub mod num;
pub mod render;
pub mod token;

use crate::expr::{eval_match, spec_eval, spec_parse, Expr};
use crate::token::{spec_tokenize, Token};

verus! {

/// What one line evaluates to under a previous answer: the tokens of the
/// line, their parse tree and its value, or the first error of the three
/// stages.
pub open spec fn spec_eval_line(s: Seq<char>, ans: Option<u64>) -> Result<u64, Seq<char>> {
    match spec_tokenize(s) {
        Err(m) => Err(m),
        Ok(ts) => match spec_parse(ts, ans) {
            Err(m) => Err(m),
            Ok(e) => spec_eval(e),
        },
    }
}

/// Tokenize, parse and evaluate one input line. The result is the bits of
/// the IEEE double the line reduces to; `ans` is what the identifier "ans"
/// resolves to, zero when unset. The first failing stage's error is
/// returned unchanged.
pub fn evaluate_line(line: &str, ans: Option<u64>) -> (r: Result<u64, String>)
    ensures
        eval_match(r, spec_eval_line(line@, ans)),
{
    let toks = match Token::tokenize(line.to_owned()) {
        Ok(ts) => ts,
        Err(m) => {
            return Err(m);
        },
    };
    let tree = match Expr::from(toks, ans) {
        Ok(e) => e,
        Err(m) => {
            return Err(m);
        },
    };
    tree.evaluate()
}

/// Evaluate one line with no previous answer, dropping the error text:
/// the bits of the line's value, or nothing when the line is malformed.
pub fn evaluate(input: String) -> (r: Option<u64>)
    ensures
        match spec_eval_line(input@, None) {
            Ok(v) => r == Some(v),
            Err(_) => r is None,
        },
{
    match evaluate_line(input.as_str(), None) {
        Ok(v) => Some(v),
        Err(_) => None,
    }
}

} // verus!
