//! Laws of the evaluator, proved once and for all inputs.
use crate::expr::{ans_bits, eval_match, spec_eval, spec_parse, spec_primary, ExprView};
use crate::num::{fp_neg, fp_of_dec, parseable_literal};
use crate::spec_eval_line;
use crate::token::{spec_tokenize, spec_tokenize_from, TokenView};
use vstd::prelude::*;

verus! {

/// Evaluating the same line under the same previous answer always yields
/// the same outcome: `evaluate_line`'s contract pins its result to
/// `spec_eval_line`, a function of the line and the answer alone, so two
/// results of the same call agree in kind, in value and in message.
pub proof fn lemma_evaluation_deterministic(
    r1: Result<u64, String>,
    r2: Result<u64, String>,
    s: Seq<char>,
    ans: Option<u64>,
)
    requires
        eval_match(r1, spec_eval_line(s, ans)),
        eval_match(r2, spec_eval_line(s, ans)),
    ensures
        r1 is Ok <==> r2 is Ok,
        r1 is Ok ==> r1->Ok_0 == r2->Ok_0,
        r1 is Err ==> r1->Err_0@ == r2->Err_0@,
{
}

/// A parseable literal standing at position `i` of a line, with nothing
/// after it, tokenizes to exactly one number token holding its value.
proof fn lemma_literal_tail_tokenizes(w: Seq<char>, i: int)
    requires
        0 <= i < w.len(),
        parseable_literal(w.subrange(i, w.len() as int)),
    ensures
        spec_tokenize_from(w, i) == Ok::<Seq<TokenView>, Seq<char>>(
            seq![TokenView::Number(fp_of_dec(w.subrange(i, w.len() as int)))],
        ),
{
    let n = w.len() as int;
    crate::token::lemma_literal_at(w, i, n);
    assert(spec_tokenize_from(w, n) == Ok::<Seq<TokenView>, Seq<char>>(Seq::empty()));
    assert(seq![TokenView::Number(fp_of_dec(w.subrange(i, n)))] + Seq::<TokenView>::empty()
        =~= seq![TokenView::Number(fp_of_dec(w.subrange(i, n)))]);
}

/// A single number token parses to its literal leaf, whatever the answer.
proof fn lemma_number_token_parses(v: u64, ans: Option<u64>)
    ensures
        spec_parse(seq![TokenView::Number(v)], ans) == Ok::<ExprView, Seq<char>>(
            ExprView::Literal(v),
        ),
{
    let ts = seq![TokenView::Number(v)];
    assert(spec_primary(ts, 0, ans) == (Ok::<ExprView, Seq<char>>(ExprView::Literal(v)), 1int));
}

/// A minus sign and a number token parse to a negation of the literal leaf.
proof fn lemma_negated_number_parses(v: u64, ans: Option<u64>)
    ensures
        spec_parse(seq![TokenView::Subtract, TokenView::Number(v)], ans) == Ok::<
            ExprView,
            Seq<char>,
        >(ExprView::Unary(TokenView::Subtract, Box::new(ExprView::Literal(v)))),
{
    let ts = seq![TokenView::Subtract, TokenView::Number(v)];
    assert(spec_primary(ts, 1, ans) == (Ok::<ExprView, Seq<char>>(ExprView::Literal(v)), 2int));
}

/// Any parseable decimal literal, alone on a line, evaluates to the double
/// its text denotes, whatever the previous answer; with a leading minus it
/// evaluates to that value negated.
pub proof fn lemma_literal_line(s: Seq<char>, ans: Option<u64>)
    requires
        parseable_literal(s),
    ensures
        spec_eval_line(s, ans) == Ok::<u64, Seq<char>>(fp_of_dec(s)),
        spec_eval_line(seq!['-'] + s, ans) == Ok::<u64, Seq<char>>(fp_neg(fp_of_dec(s))),
{
    let v = fp_of_dec(s);
    assert(s.subrange(0, s.len() as int) =~= s);
    lemma_literal_tail_tokenizes(s, 0);
    assert(spec_tokenize(s) == Ok::<Seq<TokenView>, Seq<char>>(seq![TokenView::Number(v)]));
    lemma_number_token_parses(v, ans);
    assert(spec_eval(ExprView::Literal(v)) == Ok::<u64, Seq<char>>(v));

    let w = seq!['-'] + s;
    assert(w.len() == s.len() + 1);
    assert(w[0] == '-');
    assert(w.subrange(1, w.len() as int) =~= s);
    lemma_literal_tail_tokenizes(w, 1);
    assert(spec_tokenize_from(w, 0) == Ok::<Seq<TokenView>, Seq<char>>(
        seq![TokenView::Subtract] + seq![TokenView::Number(v)],
    ));
    assert(seq![TokenView::Subtract] + seq![TokenView::Number(v)] =~= seq![
        TokenView::Subtract,
        TokenView::Number(v),
    ]);
    lemma_negated_number_parses(v, ans);
    assert(spec_eval(ExprView::Unary(TokenView::Subtract, Box::new(ExprView::Literal(v))))
        == Ok::<u64, Seq<char>>(fp_neg(v)));
}

/// A line holding only the identifier "ans" always succeeds and evaluates
/// to the previous answer, or to zero when none is set: an unset answer is
/// never an error.
pub proof fn lemma_ans_line(ans: Option<u64>)
    ensures
        spec_eval_line("ans"@, ans) == Ok::<u64, Seq<char>>(ans_bits(ans)),
{
    reveal_strlit("ans");
    let s = "ans"@;
    assert(s.len() == 3);
    crate::token::lemma_scan_alpha_props(s, 0);
    let sc = crate::token::scan_alpha(s, 0);
    assert(crate::token::is_alpha(s[0]) && crate::token::is_alpha(s[1])
        && crate::token::is_alpha(s[2]));
    assert(sc == 3) by {
        if sc < 3 {
            assert(crate::token::is_alpha(s[sc]));
        }
    }
    assert(s.subrange(0, 3) =~= s);
    assert(spec_tokenize_from(s, 3) == Ok::<Seq<TokenView>, Seq<char>>(Seq::empty()));
    assert(seq![TokenView::Identifier(s)] + Seq::<TokenView>::empty() =~= seq![
        TokenView::Identifier(s),
    ]);
    assert(spec_tokenize(s) == Ok::<Seq<TokenView>, Seq<char>>(seq![TokenView::Identifier(s)]));
    let ts = seq![TokenView::Identifier(s)];
    assert(spec_primary(ts, 0, ans) == (
        Ok::<ExprView, Seq<char>>(ExprView::Literal(ans_bits(ans))),
        1int,
    ));
}

/// Addition and subtraction fold to the left: `a - b - c` parses as
/// `(a - b) - c` and evaluates accordingly, for all operand values.
pub proof fn lemma_term_left_associative(a: u64, b: u64, c: u64, ans: Option<u64>)
    ensures
        spec_parse(
            seq![
                TokenView::Number(a),
                TokenView::Subtract,
                TokenView::Number(b),
                TokenView::Subtract,
                TokenView::Number(c),
            ],
            ans,
        ) == Ok::<ExprView, Seq<char>>(
            ExprView::Binary(
                Box::new(
                    ExprView::Binary(
                        Box::new(ExprView::Literal(a)),
                        TokenView::Subtract,
                        Box::new(ExprView::Literal(b)),
                    ),
                ),
                TokenView::Subtract,
                Box::new(ExprView::Literal(c)),
            ),
        ),
        spec_eval(
            spec_parse(
                seq![
                    TokenView::Number(a),
                    TokenView::Subtract,
                    TokenView::Number(b),
                    TokenView::Subtract,
                    TokenView::Number(c),
                ],
                ans,
            )->Ok_0,
        ) == Ok::<u64, Seq<char>>(crate::num::fp_sub(crate::num::fp_sub(a, b), c)),
{
    reveal_with_fuel(crate::expr::spec_expression, 8);
    reveal_with_fuel(crate::expr::spec_term, 8);
    reveal_with_fuel(crate::expr::spec_term_rest, 8);
    reveal_with_fuel(crate::expr::spec_factor, 8);
    reveal_with_fuel(crate::expr::spec_factor_rest, 8);
    reveal_with_fuel(crate::expr::spec_base, 8);
    reveal_with_fuel(crate::expr::spec_base_rest, 8);
    reveal_with_fuel(crate::expr::spec_unary, 8);
    reveal_with_fuel(crate::expr::spec_primary, 8);
    reveal_with_fuel(crate::expr::spec_eval, 5);
    let ts = seq![
        TokenView::Number(a),
        TokenView::Subtract,
        TokenView::Number(b),
        TokenView::Subtract,
        TokenView::Number(c),
    ];
    assert(spec_primary(ts, 0, ans) == (Ok::<ExprView, Seq<char>>(ExprView::Literal(a)), 1int));
    assert(spec_primary(ts, 2, ans) == (Ok::<ExprView, Seq<char>>(ExprView::Literal(b)), 3int));
    assert(spec_primary(ts, 4, ans) == (Ok::<ExprView, Seq<char>>(ExprView::Literal(c)), 5int));
}

/// Multiplication binds tighter than addition: `a + b * c` parses as
/// `a + (b * c)`, and `(a + b) * c` groups the sum first, for all operand
/// values.
pub proof fn lemma_precedence(a: u64, b: u64, c: u64, ans: Option<u64>)
    ensures
        spec_eval(
            spec_parse(
                seq![
                    TokenView::Number(a),
                    TokenView::Add,
                    TokenView::Number(b),
                    TokenView::Multiply,
                    TokenView::Number(c),
                ],
                ans,
            )->Ok_0,
        ) == Ok::<u64, Seq<char>>(crate::num::fp_add(a, crate::num::fp_mul(b, c))),
        spec_eval(
            spec_parse(
                seq![
                    TokenView::LeftParen,
                    TokenView::Number(a),
                    TokenView::Add,
                    TokenView::Number(b),
                    TokenView::RightParen,
                    TokenView::Multiply,
                    TokenView::Number(c),
                ],
                ans,
            )->Ok_0,
        ) == Ok::<u64, Seq<char>>(crate::num::fp_mul(crate::num::fp_add(a, b), c)),
{
    reveal_with_fuel(crate::expr::spec_expression, 8);
    reveal_with_fuel(crate::expr::spec_term, 8);
    reveal_with_fuel(crate::expr::spec_term_rest, 8);
    reveal_with_fuel(crate::expr::spec_factor, 8);
    reveal_with_fuel(crate::expr::spec_factor_rest, 8);
    reveal_with_fuel(crate::expr::spec_base, 8);
    reveal_with_fuel(crate::expr::spec_base_rest, 8);
    reveal_with_fuel(crate::expr::spec_unary, 8);
    reveal_with_fuel(crate::expr::spec_primary, 8);
    reveal_with_fuel(crate::expr::spec_eval, 5);
    let ts = seq![
        TokenView::Number(a),
        TokenView::Add,
        TokenView::Number(b),
        TokenView::Multiply,
        TokenView::Number(c),
    ];
    assert(spec_primary(ts, 0, ans) == (Ok::<ExprView, Seq<char>>(ExprView::Literal(a)), 1int));
    assert(spec_primary(ts, 2, ans) == (Ok::<ExprView, Seq<char>>(ExprView::Literal(b)), 3int));
    assert(spec_primary(ts, 4, ans) == (Ok::<ExprView, Seq<char>>(ExprView::Literal(c)), 5int));
    let tg = seq![
        TokenView::LeftParen,
        TokenView::Number(a),
        TokenView::Add,
        TokenView::Number(b),
        TokenView::RightParen,
        TokenView::Multiply,
        TokenView::Number(c),
    ];
    assert(spec_primary(tg, 1, ans) == (Ok::<ExprView, Seq<char>>(ExprView::Literal(a)), 2int));
    assert(spec_primary(tg, 3, ans) == (Ok::<ExprView, Seq<char>>(ExprView::Literal(b)), 4int));
    assert(spec_primary(tg, 6, ans) == (Ok::<ExprView, Seq<char>>(ExprView::Literal(c)), 7int));
}

/// Exponentiation folds to the left under this grammar: `a ^ b ^ c`
/// evaluates as `(a ^ b) ^ c`, for all operand values.
pub proof fn lemma_exponent_left_associative(a: u64, b: u64, c: u64, ans: Option<u64>)
    ensures
        spec_eval(
            spec_parse(
                seq![
                    TokenView::Number(a),
                    TokenView::Exponent,
                    TokenView::Number(b),
                    TokenView::Exponent,
                    TokenView::Number(c),
                ],
                ans,
            )->Ok_0,
        ) == Ok::<u64, Seq<char>>(crate::num::fp_pow(crate::num::fp_pow(a, b), c)),
{
    reveal_with_fuel(crate::expr::spec_expression, 8);
    reveal_with_fuel(crate::expr::spec_term, 8);
    reveal_with_fuel(crate::expr::spec_term_rest, 8);
    reveal_with_fuel(crate::expr::spec_factor, 8);
    reveal_with_fuel(crate::expr::spec_factor_rest, 8);
    reveal_with_fuel(crate::expr::spec_base, 8);
    reveal_with_fuel(crate::expr::spec_base_rest, 8);
    reveal_with_fuel(crate::expr::spec_unary, 8);
    reveal_with_fuel(crate::expr::spec_primary, 8);
    reveal_with_fuel(crate::expr::spec_eval, 5);
    let ts = seq![
        TokenView::Number(a),
        TokenView::Exponent,
        TokenView::Number(b),
        TokenView::Exponent,
        TokenView::Number(c),
    ];
    assert(spec_primary(ts, 0, ans) == (Ok::<ExprView, Seq<char>>(ExprView::Literal(a)), 1int));
    assert(spec_primary(ts, 2, ans) == (Ok::<ExprView, Seq<char>>(ExprView::Literal(b)), 3int));
    assert(spec_primary(ts, 4, ans) == (Ok::<ExprView, Seq<char>>(ExprView::Literal(c)), 5int));
}

/// Unary minus chains, and two of them cancel exactly: `- - a` evaluates
/// back to `a`, for every operand value, since IEEE negation only flips the
/// sign bit.
pub proof fn lemma_double_negation(a: u64, ans: Option<u64>)
    ensures
        spec_parse(
            seq![TokenView::Subtract, TokenView::Subtract, TokenView::Number(a)],
            ans,
        ) == Ok::<ExprView, Seq<char>>(
            ExprView::Unary(
                TokenView::Subtract,
                Box::new(
                    ExprView::Unary(TokenView::Subtract, Box::new(ExprView::Literal(a))),
                ),
            ),
        ),
        spec_eval(
            spec_parse(
                seq![TokenView::Subtract, TokenView::Subtract, TokenView::Number(a)],
                ans,
            )->Ok_0,
        ) == Ok::<u64, Seq<char>>(a),
{
    reveal_with_fuel(crate::expr::spec_expression, 8);
    reveal_with_fuel(crate::expr::spec_term, 8);
    reveal_with_fuel(crate::expr::spec_term_rest, 8);
    reveal_with_fuel(crate::expr::spec_factor, 8);
    reveal_with_fuel(crate::expr::spec_factor_rest, 8);
    reveal_with_fuel(crate::expr::spec_base, 8);
    reveal_with_fuel(crate::expr::spec_base_rest, 8);
    reveal_with_fuel(crate::expr::spec_unary, 8);
    reveal_with_fuel(crate::expr::spec_primary, 8);
    reveal_with_fuel(crate::expr::spec_eval, 5);
    let ts = seq![TokenView::Subtract, TokenView::Subtract, TokenView::Number(a)];
    assert(spec_primary(ts, 2, ans) == (Ok::<ExprView, Seq<char>>(ExprView::Literal(a)), 3int));
    assert(fp_neg(fp_neg(a)) == a) by {
        assert(((a ^ 0x8000_0000_0000_0000u64) ^ 0x8000_0000_0000_0000u64) == a)
            by (bit_vector);
    }
}

} // verus!
