//! The expression tree, its recursive-descent parser and its evaluator.
//!
//! Grammar, loosest to tightest binding:
//! ```text
//! expression := term
//! term       := factor ( ('+'|'-') factor )*      left-associative
//! factor     := base   ( ('*'|'/') base )*        left-associative
//! base       := unary  ( '^' unary )*             left-associative
//! unary      := '-' unary | primary
//! primary    := NUMBER | IDENTIFIER | '(' expression ')'
//! ```
use crate::num::{
    add_bits, div_bits, fp_add, fp_div, fp_mul, fp_neg, fp_pow, fp_sub, mul_bits, neg_bits,
    pow_bits, sub_bits,
};
use crate::token::{views, Token, TokenView};
use vstd::prelude::*;
use vstd::string::StrSliceExecFns;
use vstd::string::StringExecFns;

verus! {

/// An arithmetic expression. Numbers are bit patterns of IEEE doubles, as in
/// `Token`. The operator fields admit any token; the evaluator rejects the
/// ones the grammar can never put there.
#[derive(Debug)]
pub enum Expr {
    Literal(u64),
    Grouping(Box<Expr>),
    Binary(Box<Expr>, Token, Box<Expr>),
    Unary(Token, Box<Expr>),
}

/// The mathematical image of an expression tree.
pub enum ExprView {
    Literal(u64),
    Grouping(Box<ExprView>),
    Binary(Box<ExprView>, TokenView, Box<ExprView>),
    Unary(TokenView, Box<ExprView>),
}

pub open spec fn expr_view(e: Expr) -> ExprView
    decreases e,
{
    match e {
        Expr::Literal(b) => ExprView::Literal(b),
        Expr::Grouping(inner) => ExprView::Grouping(Box::new(expr_view(*inner))),
        Expr::Binary(l, op, r) => ExprView::Binary(
            Box::new(expr_view(*l)),
            op@,
            Box::new(expr_view(*r)),
        ),
        Expr::Unary(op, inner) => ExprView::Unary(op@, Box::new(expr_view(*inner))),
    }
}

impl View for Expr {
    type V = ExprView;

    open spec fn view(&self) -> ExprView {
        expr_view(*self)
    }
}

/// The value "ans" resolves to: the previous answer, or zero when unset.
pub open spec fn ans_bits(ans: Option<u64>) -> u64 {
    match ans {
        Some(b) => b,
        None => 0,
    }
}

pub open spec fn unknown_ident_msg(name: Seq<char>) -> Seq<char> {
    "Unknown identifier \""@ + name + "\""@
}

pub open spec fn expect_rparen_msg() -> Seq<char> {
    "Expected \")\" after expression."@
}

pub open spec fn expected_expr_msg() -> Seq<char> {
    "Expected expression."@
}

pub open spec fn eval_unary_msg(op: TokenView) -> Seq<char> {
    "Failed to evaluate: \""@ + crate::token::token_text(op) + "\""@
}

pub open spec fn eval_binary_msg() -> Seq<char> {
    "Failed to evaluate"@
}

/// One step of the model parser: what was parsed, or the first error, and
/// the position after the consumed tokens.
pub type ParseStep = (Result<ExprView, Seq<char>>, int);

pub open spec fn spec_expression(ts: Seq<TokenView>, i: int, ans: Option<u64>) -> ParseStep
    decreases ts.len() - i, 9int,
{
    spec_term(ts, i, ans)
}

pub open spec fn spec_term(ts: Seq<TokenView>, i: int, ans: Option<u64>) -> ParseStep
    decreases ts.len() - i, 8int,
{
    let (r, j) = spec_factor(ts, i, ans);
    match r {
        Ok(e) => if i <= j <= ts.len() {
            spec_term_rest(ts, j, e, ans)
        } else {
            (Ok(e), j)
        },
        Err(m) => (Err(m), j),
    }
}

pub open spec fn spec_term_rest(
    ts: Seq<TokenView>,
    j: int,
    acc: ExprView,
    ans: Option<u64>,
) -> ParseStep
    decreases ts.len() - j, 7int,
{
    if 0 <= j < ts.len() && (ts[j] is Subtract || ts[j] is Add) {
        let op = ts[j];
        let (r, k) = spec_factor(ts, j + 1, ans);
        match r {
            Ok(rhs) => if j < k <= ts.len() {
                spec_term_rest(
                    ts,
                    k,
                    ExprView::Binary(Box::new(acc), op, Box::new(rhs)),
                    ans,
                )
            } else {
                (Ok(ExprView::Binary(Box::new(acc), op, Box::new(rhs))), k)
            },
            Err(m) => (Err(m), k),
        }
    } else {
        (Ok(acc), j)
    }
}

pub open spec fn spec_factor(ts: Seq<TokenView>, i: int, ans: Option<u64>) -> ParseStep
    decreases ts.len() - i, 6int,
{
    let (r, j) = spec_base(ts, i, ans);
    match r {
        Ok(e) => if i <= j <= ts.len() {
            spec_factor_rest(ts, j, e, ans)
        } else {
            (Ok(e), j)
        },
        Err(m) => (Err(m), j),
    }
}

pub open spec fn spec_factor_rest(
    ts: Seq<TokenView>,
    j: int,
    acc: ExprView,
    ans: Option<u64>,
) -> ParseStep
    decreases ts.len() - j, 5int,
{
    if 0 <= j < ts.len() && (ts[j] is Divide || ts[j] is Multiply) {
        let op = ts[j];
        let (r, k) = spec_base(ts, j + 1, ans);
        match r {
            Ok(rhs) => if j < k <= ts.len() {
                spec_factor_rest(
                    ts,
                    k,
                    ExprView::Binary(Box::new(acc), op, Box::new(rhs)),
                    ans,
                )
            } else {
                (Ok(ExprView::Binary(Box::new(acc), op, Box::new(rhs))), k)
            },
            Err(m) => (Err(m), k),
        }
    } else {
        (Ok(acc), j)
    }
}

pub open spec fn spec_base(ts: Seq<TokenView>, i: int, ans: Option<u64>) -> ParseStep
    decreases ts.len() - i, 4int,
{
    let (r, j) = spec_unary(ts, i, ans);
    match r {
        Ok(e) => if i <= j <= ts.len() {
            spec_base_rest(ts, j, e, ans)
        } else {
            (Ok(e), j)
        },
        Err(m) => (Err(m), j),
    }
}

pub open spec fn spec_base_rest(
    ts: Seq<TokenView>,
    j: int,
    acc: ExprView,
    ans: Option<u64>,
) -> ParseStep
    decreases ts.len() - j, 3int,
{
    if 0 <= j < ts.len() && ts[j] is Exponent {
        let op = ts[j];
        let (r, k) = spec_unary(ts, j + 1, ans);
        match r {
            Ok(rhs) => if j < k <= ts.len() {
                spec_base_rest(
                    ts,
                    k,
                    ExprView::Binary(Box::new(acc), op, Box::new(rhs)),
                    ans,
                )
            } else {
                (Ok(ExprView::Binary(Box::new(acc), op, Box::new(rhs))), k)
            },
            Err(m) => (Err(m), k),
        }
    } else {
        (Ok(acc), j)
    }
}

pub open spec fn spec_unary(ts: Seq<TokenView>, i: int, ans: Option<u64>) -> ParseStep
    decreases ts.len() - i, 2int,
{
    if 0 <= i < ts.len() && ts[i] is Subtract {
        let (r, j) = spec_unary(ts, i + 1, ans);
        match r {
            Ok(e) => (Ok(ExprView::Unary(TokenView::Subtract, Box::new(e))), j),
            Err(m) => (Err(m), j),
        }
    } else {
        spec_primary(ts, i, ans)
    }
}

pub open spec fn spec_primary(ts: Seq<TokenView>, i: int, ans: Option<u64>) -> ParseStep
    decreases ts.len() - i, 1int,
{
    if 0 <= i < ts.len() && ts[i] is Identifier {
        let name = ts[i]->Identifier_0;
        if name == "ans"@ {
            (Ok(ExprView::Literal(ans_bits(ans))), i + 1)
        } else {
            (Err(unknown_ident_msg(name)), i + 1)
        }
    } else if 0 <= i < ts.len() && ts[i] is Number {
        (Ok(ExprView::Literal(ts[i]->Number_0)), i + 1)
    } else if 0 <= i < ts.len() && ts[i] is LeftParen {
        let (r, j) = spec_expression(ts, i + 1, ans);
        match r {
            Ok(e) => if 0 <= j < ts.len() && ts[j] is RightParen {
                (Ok(ExprView::Grouping(Box::new(e))), j + 1)
            } else {
                (Err(expect_rparen_msg()), j)
            },
            Err(m) => (Err(m), j),
        }
    } else {
        (Err(expected_expr_msg()), i)
    }
}

/// The tree an input token sequence parses to, or the first parse error.
/// Tokens after a complete expression are left unread, as the grammar asks.
pub open spec fn spec_parse(ts: Seq<TokenView>, ans: Option<u64>) -> Result<
    ExprView,
    Seq<char>,
> {
    spec_expression(ts, 0, ans).0
}

/// The value a tree reduces to, or the evaluator's error for an operator the
/// grammar can never produce.
pub open spec fn spec_eval(e: ExprView) -> Result<u64, Seq<char>>
    decreases e,
{
    match e {
        ExprView::Literal(b) => Ok(b),
        ExprView::Grouping(inner) => spec_eval(*inner),
        ExprView::Unary(op, x) => if op is Subtract {
            match spec_eval(*x) {
                Ok(v) => Ok(fp_neg(v)),
                Err(m) => Err(m),
            }
        } else {
            Err(eval_unary_msg(op))
        },
        ExprView::Binary(l, op, r) => if op is Add {
            match spec_eval(*l) {
                Ok(a) => match spec_eval(*r) {
                    Ok(b) => Ok(fp_add(a, b)),
                    Err(m) => Err(m),
                },
                Err(m) => Err(m),
            }
        } else if op is Subtract {
            match spec_eval(*l) {
                Ok(a) => match spec_eval(*r) {
                    Ok(b) => Ok(fp_sub(a, b)),
                    Err(m) => Err(m),
                },
                Err(m) => Err(m),
            }
        } else if op is Multiply {
            match spec_eval(*l) {
                Ok(a) => match spec_eval(*r) {
                    Ok(b) => Ok(fp_mul(a, b)),
                    Err(m) => Err(m),
                },
                Err(m) => Err(m),
            }
        } else if op is Divide {
            match spec_eval(*l) {
                Ok(a) => match spec_eval(*r) {
                    Ok(b) => Ok(fp_div(a, b)),
                    Err(m) => Err(m),
                },
                Err(m) => Err(m),
            }
        } else if op is Exponent {
            match spec_eval(*l) {
                Ok(a) => match spec_eval(*r) {
                    Ok(b) => Ok(fp_pow(a, b)),
                    Err(m) => Err(m),
                },
                Err(m) => Err(m),
            }
        } else {
            Err(eval_binary_msg())
        },
    }
}

/// How an executable parse step relates to the model's.
pub open spec fn step_match(r: (Result<Expr, String>, usize), sp: ParseStep) -> bool {
    &&& r.1 as int == sp.1
    &&& match r.0 {
        Ok(e) => sp.0 is Ok && e@ == sp.0->Ok_0,
        Err(m) => sp.0 is Err && m@ == sp.0->Err_0,
    }
}

/// How an executable parse result relates to the model's.
pub open spec fn parse_match(r: Result<Expr, String>, sp: Result<ExprView, Seq<char>>) -> bool {
    match r {
        Ok(e) => sp is Ok && e@ == sp->Ok_0,
        Err(m) => sp is Err && m@ == sp->Err_0,
    }
}

/// How an executable evaluation relates to the model's.
pub open spec fn eval_match(r: Result<u64, String>, sp: Result<u64, Seq<char>>) -> bool {
    match r {
        Ok(v) => sp is Ok && v == sp->Ok_0,
        Err(m) => sp is Err && m@ == sp->Err_0,
    }
}

impl Expr {
    /// Parse a token sequence into an expression tree, resolving "ans" to
    /// the previous answer (zero when unset). Tokens after a complete
    /// expression are left unread.
    pub fn from(tokens: Vec<Token>, ans: Option<u64>) -> (r: Result<Expr, String>)
        ensures
            parse_match(r, spec_parse(views(tokens@), ans)),
    {
        let (r, _pos) = Self::expression(&tokens, 0, ans);
        r
    }

    fn expression(tokens: &Vec<Token>, pos: usize, ans: Option<u64>) -> (r: (
        Result<Expr, String>,
        usize,
    ))
        requires
            pos <= tokens@.len(),
        ensures
            step_match(r, spec_expression(views(tokens@), pos as int, ans)),
            pos <= r.1 <= tokens@.len(),
            r.0 is Ok ==> pos < r.1,
        decreases tokens@.len() - pos, 9int,
    {
        Self::term(tokens, pos, ans)
    }

    fn term(tokens: &Vec<Token>, pos: usize, ans: Option<u64>) -> (r: (
        Result<Expr, String>,
        usize,
    ))
        requires
            pos <= tokens@.len(),
        ensures
            step_match(r, spec_term(views(tokens@), pos as int, ans)),
            pos <= r.1 <= tokens@.len(),
            r.0 is Ok ==> pos < r.1,
        decreases tokens@.len() - pos, 8int,
    {
        let ghost vts = views(tokens@);
        let n = tokens.len();
        let (r0, first_end) = Self::factor(tokens, pos, ans);
        let mut expr = match r0 {
            Ok(e) => e,
            Err(m) => {
                return (Err(m), first_end);
            },
        };
        let mut cur: usize = first_end;
        let mut done = false;
        while !done
            invariant
                pos < cur <= n,
                n == tokens@.len(),
                vts == views(tokens@),
                !done ==> spec_term(vts, pos as int, ans) == spec_term_rest(
                    vts,
                    cur as int,
                    expr@,
                    ans,
                ),
                done ==> spec_term(vts, pos as int, ans) == (
                    Ok::<ExprView, Seq<char>>(expr@),
                    cur as int,
                ),
            decreases n - cur + (if done { 0int } else { 1int }),
        {
            let mut is_op = false;
            let mut op = Token::Add;
            if cur < n {
                match &tokens[cur] {
                    Token::Add => {
                        is_op = true;
                    },
                    Token::Subtract => {
                        is_op = true;
                        op = Token::Subtract;
                    },
                    _ => {},
                }
            }
            if !is_op {
                done = true;
            } else {
                proof {
                    assert(vts[cur as int] == tokens@[cur as int]@);
                }
                let (r2, k) = Self::factor(tokens, cur + 1, ans);
                match r2 {
                    Err(m) => {
                        return (Err(m), k);
                    },
                    Ok(rhs) => {
                        expr = Expr::Binary(Box::new(expr), op, Box::new(rhs));
                        cur = k;
                    },
                }
            }
        }
        (Ok(expr), cur)
    }

    fn factor(tokens: &Vec<Token>, pos: usize, ans: Option<u64>) -> (r: (
        Result<Expr, String>,
        usize,
    ))
        requires
            pos <= tokens@.len(),
        ensures
            step_match(r, spec_factor(views(tokens@), pos as int, ans)),
            pos <= r.1 <= tokens@.len(),
            r.0 is Ok ==> pos < r.1,
        decreases tokens@.len() - pos, 6int,
    {
        let ghost vts = views(tokens@);
        let n = tokens.len();
        let (r0, first_end) = Self::base(tokens, pos, ans);
        let mut expr = match r0 {
            Ok(e) => e,
            Err(m) => {
                return (Err(m), first_end);
            },
        };
        let mut cur: usize = first_end;
        let mut done = false;
        while !done
            invariant
                pos < cur <= n,
                n == tokens@.len(),
                vts == views(tokens@),
                !done ==> spec_factor(vts, pos as int, ans) == spec_factor_rest(
                    vts,
                    cur as int,
                    expr@,
                    ans,
                ),
                done ==> spec_factor(vts, pos as int, ans) == (
                    Ok::<ExprView, Seq<char>>(expr@),
                    cur as int,
                ),
            decreases n - cur + (if done { 0int } else { 1int }),
        {
            let mut is_op = false;
            let mut op = Token::Divide;
            if cur < n {
                match &tokens[cur] {
                    Token::Divide => {
                        is_op = true;
                    },
                    Token::Multiply => {
                        is_op = true;
                        op = Token::Multiply;
                    },
                    _ => {},
                }
            }
            if !is_op {
                done = true;
            } else {
                proof {
                    assert(vts[cur as int] == tokens@[cur as int]@);
                }
                let (r2, k) = Self::base(tokens, cur + 1, ans);
                match r2 {
                    Err(m) => {
                        return (Err(m), k);
                    },
                    Ok(rhs) => {
                        expr = Expr::Binary(Box::new(expr), op, Box::new(rhs));
                        cur = k;
                    },
                }
            }
        }
        (Ok(expr), cur)
    }

    fn base(tokens: &Vec<Token>, pos: usize, ans: Option<u64>) -> (r: (
        Result<Expr, String>,
        usize,
    ))
        requires
            pos <= tokens@.len(),
        ensures
            step_match(r, spec_base(views(tokens@), pos as int, ans)),
            pos <= r.1 <= tokens@.len(),
            r.0 is Ok ==> pos < r.1,
        decreases tokens@.len() - pos, 4int,
    {
        let ghost vts = views(tokens@);
        let n = tokens.len();
        let (r0, first_end) = Self::unary(tokens, pos, ans);
        let mut expr = match r0 {
            Ok(e) => e,
            Err(m) => {
                return (Err(m), first_end);
            },
        };
        let mut cur: usize = first_end;
        let mut done = false;
        while !done
            invariant
                pos < cur <= n,
                n == tokens@.len(),
                vts == views(tokens@),
                !done ==> spec_base(vts, pos as int, ans) == spec_base_rest(
                    vts,
                    cur as int,
                    expr@,
                    ans,
                ),
                done ==> spec_base(vts, pos as int, ans) == (
                    Ok::<ExprView, Seq<char>>(expr@),
                    cur as int,
                ),
            decreases n - cur + (if done { 0int } else { 1int }),
        {
            let mut is_op = false;
            if cur < n {
                match &tokens[cur] {
                    Token::Exponent => {
                        is_op = true;
                    },
                    _ => {},
                }
            }
            if !is_op {
                done = true;
            } else {
                proof {
                    assert(vts[cur as int] == tokens@[cur as int]@);
                }
                let (r2, k) = Self::unary(tokens, cur + 1, ans);
                match r2 {
                    Err(m) => {
                        return (Err(m), k);
                    },
                    Ok(rhs) => {
                        expr = Expr::Binary(Box::new(expr), Token::Exponent, Box::new(rhs));
                        cur = k;
                    },
                }
            }
        }
        (Ok(expr), cur)
    }

    fn unary(tokens: &Vec<Token>, pos: usize, ans: Option<u64>) -> (r: (
        Result<Expr, String>,
        usize,
    ))
        requires
            pos <= tokens@.len(),
        ensures
            step_match(r, spec_unary(views(tokens@), pos as int, ans)),
            pos <= r.1 <= tokens@.len(),
            r.0 is Ok ==> pos < r.1,
        decreases tokens@.len() - pos, 2int,
    {
        let ghost vts = views(tokens@);
        let mut neg = false;
        if pos < tokens.len() {
            match &tokens[pos] {
                Token::Subtract => {
                    neg = true;
                },
                _ => {},
            }
            proof {
                assert(vts[pos as int] == tokens@[pos as int]@);
            }
        }
        if neg {
            let (r0, j) = Self::unary(tokens, pos + 1, ans);
            match r0 {
                Ok(e) => (Ok(Expr::Unary(Token::Subtract, Box::new(e))), j),
                Err(m) => (Err(m), j),
            }
        } else {
            Self::primary(tokens, pos, ans)
        }
    }

    fn primary(tokens: &Vec<Token>, pos: usize, ans: Option<u64>) -> (r: (
        Result<Expr, String>,
        usize,
    ))
        requires
            pos <= tokens@.len(),
        ensures
            step_match(r, spec_primary(views(tokens@), pos as int, ans)),
            pos <= r.1 <= tokens@.len(),
            r.0 is Ok ==> pos < r.1,
        decreases tokens@.len() - pos, 1int,
    {
        let ghost vts = views(tokens@);
        if pos >= tokens.len() {
            return (Err("Expected expression.".to_owned()), pos);
        }
        proof {
            assert(vts[pos as int] == tokens@[pos as int]@);
        }
        match &tokens[pos] {
            Token::Identifier(name) => {
                let ans_name = "ans".to_owned();
                if *name == ans_name {
                    let v = match ans {
                        Some(b) => b,
                        None => 0,
                    };
                    (Ok(Expr::Literal(v)), pos + 1)
                } else {
                    let mut m = "Unknown identifier \"".to_owned();
                    m.append(name.as_str());
                    m.append("\"");
                    (Err(m), pos + 1)
                }
            },
            Token::Number(b) => (Ok(Expr::Literal(*b)), pos + 1),
            Token::LeftParen => {
                let (r0, j) = Self::expression(tokens, pos + 1, ans);
                match r0 {
                    Err(m) => (Err(m), j),
                    Ok(e) => {
                        let mut closed = false;
                        if j < tokens.len() {
                            match &tokens[j] {
                                Token::RightParen => {
                                    closed = true;
                                },
                                _ => {},
                            }
                            proof {
                                assert(vts[j as int] == tokens@[j as int]@);
                            }
                        }
                        if closed {
                            (Ok(Expr::Grouping(Box::new(e))), j + 1)
                        } else {
                            (Err("Expected \")\" after expression.".to_owned()), j)
                        }
                    },
                }
            },
            _ => (Err("Expected expression.".to_owned()), pos),
        }
    }

    /// Reduce a tree to the bits of its value: a literal is itself, grouping
    /// is transparent, unary minus negates, and a binary node combines its
    /// operands with its operator, the left one first. An operator token the
    /// grammar can never produce is reported, not evaluated.
    pub fn evaluate(&self) -> (r: Result<u64, String>)
        ensures
            eval_match(r, spec_eval(self@)),
        decreases *self,
    {
        match self {
            Expr::Literal(v) => Ok(*v),
            Expr::Grouping(e) => e.evaluate(),
            Expr::Unary(op, e) => match op {
                Token::Subtract => match e.evaluate() {
                    Ok(v) => Ok(neg_bits(v)),
                    Err(m) => Err(m),
                },
                _ => {
                    let mut m = "Failed to evaluate: \"".to_owned();
                    let optext = op.text();
                    m.append(optext.as_str());
                    m.append("\"");
                    Err(m)
                },
            },
            Expr::Binary(l, op, r2) => match op {
                Token::Add => match l.evaluate() {
                    Err(m) => Err(m),
                    Ok(a) => match r2.evaluate() {
                        Err(m) => Err(m),
                        Ok(b) => Ok(add_bits(a, b)),
                    },
                },
                Token::Subtract => match l.evaluate() {
                    Err(m) => Err(m),
                    Ok(a) => match r2.evaluate() {
                        Err(m) => Err(m),
                        Ok(b) => Ok(sub_bits(a, b)),
                    },
                },
                Token::Multiply => match l.evaluate() {
                    Err(m) => Err(m),
                    Ok(a) => match r2.evaluate() {
                        Err(m) => Err(m),
                        Ok(b) => Ok(mul_bits(a, b)),
                    },
                },
                Token::Divide => match l.evaluate() {
                    Err(m) => Err(m),
                    Ok(a) => match r2.evaluate() {
                        Err(m) => Err(m),
                        Ok(b) => Ok(div_bits(a, b)),
                    },
                },
                Token::Exponent => match l.evaluate() {
                    Err(m) => Err(m),
                    Ok(a) => match r2.evaluate() {
                        Err(m) => Err(m),
                        Ok(b) => Ok(pow_bits(a, b)),
                    },
                },
                _ => Err("Failed to evaluate".to_owned()),
            },
        }
    }
}

} // verus!
