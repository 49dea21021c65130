//! Rendering a tree back to text, and the law that re-reading the rendering
//! evaluates to the same value.
use crate::expr::{
    spec_base, spec_base_rest, spec_eval, spec_expression, spec_factor, spec_factor_rest,
    spec_parse, spec_primary, spec_term, spec_term_rest, spec_unary, Expr, ExprView,
};
use crate::num::{finite_bits, fp_neg, fp_of_dec, plain_dec, round_literal, SIGN_BIT};
use crate::token::{
    lemma_literal_at, lemma_merge_assoc, merge, spec_tokenize, spec_tokenize_from, token_text,
    TokenView,
};
use vstd::prelude::*;
use vstd::string::StringExecFns;

verus! {

/// The canonical parenthesized text of a tree: every unary and binary node
/// in its own parentheses, operands split from operators by single spaces.
pub open spec fn spec_render(e: ExprView) -> Seq<char>
    decreases e,
{
    match e {
        ExprView::Literal(b) => crate::num::dec_of_fp(b),
        ExprView::Grouping(inner) => "("@ + spec_render(*inner) + ")"@,
        ExprView::Unary(op, x) => "("@ + token_text(op) + " "@ + spec_render(*x) + ")"@,
        ExprView::Binary(l, op, r) => "("@ + spec_render(*l) + " "@ + token_text(op) + " "@
            + spec_render(*r) + ")"@,
    }
}

/// The tree only holds operators the grammar can produce: subtraction in
/// unary nodes, the five arithmetic operators in binary ones.
pub open spec fn well_formed(e: ExprView) -> bool
    decreases e,
{
    match e {
        ExprView::Literal(_) => true,
        ExprView::Grouping(inner) => well_formed(*inner),
        ExprView::Unary(op, x) => op is Subtract && well_formed(*x),
        ExprView::Binary(l, op, r) => (op is Add || op is Subtract || op is Multiply
            || op is Divide || op is Exponent) && well_formed(*l) && well_formed(*r),
    }
}

/// Every literal of the tree is finite and renders in plain decimal form,
/// so that its rendering is itself a number literal of the grammar.
pub open spec fn plain_literals(e: ExprView) -> bool
    decreases e,
{
    match e {
        ExprView::Literal(b) => finite_bits(b) && plain_dec(b),
        ExprView::Grouping(inner) => plain_literals(*inner),
        ExprView::Unary(_, x) => plain_literals(*x),
        ExprView::Binary(l, _, r) => plain_literals(*l) && plain_literals(*r),
    }
}

impl Expr {
    /// The canonical parenthesized text of this tree. Reading the text back
    /// returns the tree's value: for a tree whose operators the grammar can
    /// produce and whose literals are finite and render in plain decimal
    /// form, the text tokenizes, the tokens parse, and the parse evaluates
    /// to the same value, whatever the previous answer.
    pub fn to_text(&self) -> (r: String)
        ensures
            r@ == spec_render(self@),
            well_formed(self@) && plain_literals(self@) ==> renders_tokenize(self@)
                && round_trips(self@, r@),
        decreases *self,
    {
        match self {
            Expr::Literal(b) => {
                let s = crate::num::fmt_bits(*b);
                proof {
                    if finite_bits(*b) && plain_dec(*b) {
                        lemma_rt_literal(*b);
                        lemma_round_trip_from_tokens(self@, s@);
                    }
                }
                s
            },
            Expr::Grouping(inner) => {
                let mut s = "(".to_owned();
                let it = inner.to_text();
                s.append(it.as_str());
                s.append(")");
                proof {
                    if well_formed(self@) && plain_literals(self@) {
                        lemma_rt_grouping((**inner)@);
                        lemma_round_trip_from_tokens(self@, s@);
                    }
                }
                s
            },
            Expr::Unary(op, x) => {
                let mut s = "(".to_owned();
                let ot = op.text();
                s.append(ot.as_str());
                s.append(" ");
                let xt = x.to_text();
                s.append(xt.as_str());
                s.append(")");
                proof {
                    if well_formed(self@) && plain_literals(self@) {
                        lemma_rt_unary((**x)@);
                        lemma_round_trip_from_tokens(self@, s@);
                    }
                }
                s
            },
            Expr::Binary(l, op, r) => {
                let mut s = "(".to_owned();
                let lt = l.to_text();
                s.append(lt.as_str());
                s.append(" ");
                let ot = op.text();
                s.append(ot.as_str());
                s.append(" ");
                let rt = r.to_text();
                s.append(rt.as_str());
                s.append(")");
                proof {
                    if well_formed(self@) && plain_literals(self@) {
                        lemma_rt_binary((**l)@, op@, (**r)@);
                        lemma_round_trip_from_tokens(self@, s@);
                    }
                }
                s
            },
        }
    }
}

/// The tokens that the rendering of a tree produces: a negative literal
/// renders with a leading minus, so it comes back as a minus token and the
/// magnitude; everything else mirrors the tree.
pub open spec fn token_list(e: ExprView) -> Seq<TokenView>
    decreases e,
{
    match e {
        ExprView::Literal(b) => if b >= SIGN_BIT {
            seq![TokenView::Subtract, TokenView::Number(fp_neg(b))]
        } else {
            seq![TokenView::Number(b)]
        },
        ExprView::Grouping(inner) => seq![TokenView::LeftParen] + token_list(*inner)
            + seq![TokenView::RightParen],
        ExprView::Unary(_, x) => seq![TokenView::LeftParen, TokenView::Subtract] + token_list(*x)
            + seq![TokenView::RightParen],
        ExprView::Binary(l, op, r) => seq![TokenView::LeftParen] + token_list(*l) + seq![op]
            + token_list(*r) + seq![TokenView::RightParen],
    }
}

/// Parsing the tokens of a rendered tree as one `unary` consumes exactly
/// them and yields a tree of the same value.
proof fn lemma_seg_index<T>(ts: Seq<T>, i: int, seg: Seq<T>, k: int)
    requires
        0 <= i,
        i + seg.len() <= ts.len(),
        ts.subrange(i, i + seg.len() as int) == seg,
        0 <= k < seg.len(),
    ensures
        ts[i + k] == seg[k],
{
    assert(ts.subrange(i, i + seg.len() as int)[k] == seg[k]);
}

proof fn lemma_seg_slice<T>(ts: Seq<T>, i: int, seg: Seq<T>, a: int, sub: Seq<T>)
    requires
        0 <= i,
        i + seg.len() <= ts.len(),
        ts.subrange(i, i + seg.len() as int) == seg,
        0 <= a,
        a + sub.len() <= seg.len(),
        forall|k: int| 0 <= k < sub.len() ==> seg[a + k] == #[trigger] sub[k],
    ensures
        ts.subrange(i + a, i + a + sub.len() as int) == sub,
{
    assert forall|k: int| 0 <= k < sub.len() implies ts.subrange(
        i + a,
        i + a + sub.len() as int,
    )[k] == sub[k] by {
        lemma_seg_index(ts, i, seg, a + k);
    }
    assert(ts.subrange(i + a, i + a + sub.len() as int) =~= sub);
}

/// Parsing the tokens of a rendered tree as one `unary` consumes exactly
/// them and yields a tree of the same value.
#[verifier::rlimit(100)]
proof fn lemma_parse_atom(ts: Seq<TokenView>, i: int, e: ExprView, ans: Option<u64>)
    requires
        well_formed(e),
        0 <= i,
        i + token_list(e).len() <= ts.len(),
        ts.subrange(i, i + token_list(e).len() as int) == token_list(e),
    ensures
        spec_unary(ts, i, ans).0 is Ok,
        spec_unary(ts, i, ans).1 == i + token_list(e).len(),
        spec_eval(spec_unary(ts, i, ans).0->Ok_0) == spec_eval(e),
    decreases e,
{
    let tle = token_list(e);
    let len = tle.len() as int;
    match e {
        ExprView::Literal(b) => {
            if b >= SIGN_BIT {
                lemma_seg_index(ts, i, tle, 0);
                lemma_seg_index(ts, i, tle, 1);
                assert(ts[i] is Subtract);
                assert(ts[i + 1] is Number && ts[i + 1]->Number_0 == fp_neg(b));
                assert(spec_primary(ts, i + 1, ans) == (
                    Ok::<ExprView, Seq<char>>(ExprView::Literal(fp_neg(b))),
                    i + 2,
                ));
                assert(spec_unary(ts, i + 1, ans) == (
                    Ok::<ExprView, Seq<char>>(ExprView::Literal(fp_neg(b))),
                    i + 2,
                ));
                assert(fp_neg(fp_neg(b)) == b) by {
                    assert(((b ^ 0x8000_0000_0000_0000u64) ^ 0x8000_0000_0000_0000u64)
                        == b) by (bit_vector);
                }
                assert(spec_unary(ts, i, ans) == (
                    Ok::<ExprView, Seq<char>>(
                        ExprView::Unary(
                            TokenView::Subtract,
                            Box::new(ExprView::Literal(fp_neg(b))),
                        ),
                    ),
                    i + 2,
                ));
            } else {
                lemma_seg_index(ts, i, tle, 0);
                assert(ts[i] is Number && ts[i]->Number_0 == b);
                assert(spec_primary(ts, i, ans) == (
                    Ok::<ExprView, Seq<char>>(ExprView::Literal(b)),
                    i + 1,
                ));
                assert(spec_unary(ts, i, ans) == (
                    Ok::<ExprView, Seq<char>>(ExprView::Literal(b)),
                    i + 1,
                ));
            }
        },
        ExprView::Grouping(inner) => {
            let tli = token_list(*inner);
            let il = tli.len() as int;
            lemma_seg_index(ts, i, tle, 0);
            assert(ts[i] is LeftParen);
            lemma_seg_slice(ts, i, tle, 1, tli);
            lemma_parse_atom(ts, i + 1, *inner, ans);
            let (ri, ji) = spec_unary(ts, i + 1, ans);
            assert(ji == i + 1 + il);
            lemma_seg_index(ts, i, tle, 1 + il);
            assert(ts[ji] is RightParen);
            assert(spec_base_rest(ts, ji, ri->Ok_0, ans) == (ri, ji));
            assert(spec_base(ts, i + 1, ans) == (ri, ji));
            assert(spec_factor_rest(ts, ji, ri->Ok_0, ans) == (ri, ji));
            assert(spec_factor(ts, i + 1, ans) == (ri, ji));
            assert(spec_term_rest(ts, ji, ri->Ok_0, ans) == (ri, ji));
            assert(spec_term(ts, i + 1, ans) == (ri, ji));
            assert(spec_expression(ts, i + 1, ans) == (ri, ji));
            assert(spec_primary(ts, i, ans) == (
                Ok::<ExprView, Seq<char>>(ExprView::Grouping(Box::new(ri->Ok_0))),
                ji + 1,
            ));
            assert(!(ts[i] is Subtract));
        },
        ExprView::Unary(op, x) => {
            let tlx = token_list(*x);
            let xl = tlx.len() as int;
            lemma_seg_index(ts, i, tle, 0);
            lemma_seg_index(ts, i, tle, 1);
            assert(ts[i] is LeftParen);
            assert(ts[i + 1] is Subtract);
            lemma_seg_slice(ts, i, tle, 2, tlx);
            lemma_parse_atom(ts, i + 2, *x, ans);
            let (rx, jx) = spec_unary(ts, i + 2, ans);
            assert(jx == i + 2 + xl);
            let neg = ExprView::Unary(TokenView::Subtract, Box::new(rx->Ok_0));
            assert(spec_unary(ts, i + 1, ans) == (Ok::<ExprView, Seq<char>>(neg), jx));
            lemma_seg_index(ts, i, tle, 2 + xl);
            assert(ts[jx] is RightParen);
            assert(spec_base_rest(ts, jx, neg, ans) == (Ok::<ExprView, Seq<char>>(neg), jx));
            assert(spec_base(ts, i + 1, ans) == (Ok::<ExprView, Seq<char>>(neg), jx));
            assert(spec_factor_rest(ts, jx, neg, ans) == (Ok::<ExprView, Seq<char>>(neg), jx));
            assert(spec_factor(ts, i + 1, ans) == (Ok::<ExprView, Seq<char>>(neg), jx));
            assert(spec_term_rest(ts, jx, neg, ans) == (Ok::<ExprView, Seq<char>>(neg), jx));
            assert(spec_term(ts, i + 1, ans) == (Ok::<ExprView, Seq<char>>(neg), jx));
            assert(spec_expression(ts, i + 1, ans) == (Ok::<ExprView, Seq<char>>(neg), jx));
            assert(spec_primary(ts, i, ans) == (
                Ok::<ExprView, Seq<char>>(ExprView::Grouping(Box::new(neg))),
                jx + 1,
            ));
            assert(!(ts[i] is Subtract));
        },
        ExprView::Binary(l, op, r) => {
            let tll = token_list(*l);
            let ll = tll.len() as int;
            let tlr = token_list(*r);
            let rl = tlr.len() as int;
            lemma_seg_index(ts, i, tle, 0);
            assert(ts[i] is LeftParen);
            lemma_seg_slice(ts, i, tle, 1, tll);
            lemma_parse_atom(ts, i + 1, *l, ans);
            let (rls, j1) = spec_unary(ts, i + 1, ans);
            assert(j1 == i + 1 + ll);
            lemma_seg_index(ts, i, tle, 1 + ll);
            assert(ts[j1] == op);
            let j2 = j1 + 1 + rl;
            lemma_seg_slice(ts, i, tle, 2 + ll, tlr);
            lemma_parse_atom(ts, j1 + 1, *r, ans);
            let (rrs, jr) = spec_unary(ts, j1 + 1, ans);
            assert(jr == j2);
            lemma_seg_index(ts, i, tle, 2 + ll + rl);
            assert(ts[j2] is RightParen);
            let built = ExprView::Binary(Box::new(rls->Ok_0), op, Box::new(rrs->Ok_0));
            if op is Exponent {
                assert(spec_base_rest(ts, j1, rls->Ok_0, ans) == spec_base_rest(
                    ts,
                    j2,
                    built,
                    ans,
                ));
                assert(spec_base_rest(ts, j2, built, ans) == (
                    Ok::<ExprView, Seq<char>>(built),
                    j2,
                ));
                assert(spec_base(ts, i + 1, ans) == (Ok::<ExprView, Seq<char>>(built), j2));
                assert(spec_factor_rest(ts, j2, built, ans) == (
                    Ok::<ExprView, Seq<char>>(built),
                    j2,
                ));
                assert(spec_factor(ts, i + 1, ans) == (Ok::<ExprView, Seq<char>>(built), j2));
                assert(spec_term_rest(ts, j2, built, ans) == (
                    Ok::<ExprView, Seq<char>>(built),
                    j2,
                ));
                assert(spec_term(ts, i + 1, ans) == (Ok::<ExprView, Seq<char>>(built), j2));
            } else if op is Multiply || op is Divide {
                assert(spec_base_rest(ts, j1, rls->Ok_0, ans) == (rls, j1));
                assert(spec_base(ts, i + 1, ans) == (rls, j1));
                assert(spec_base_rest(ts, j2, rrs->Ok_0, ans) == (rrs, j2));
                assert(spec_base(ts, j1 + 1, ans) == (rrs, j2));
                assert(spec_factor_rest(ts, j1, rls->Ok_0, ans) == spec_factor_rest(
                    ts,
                    j2,
                    built,
                    ans,
                ));
                assert(spec_factor_rest(ts, j2, built, ans) == (
                    Ok::<ExprView, Seq<char>>(built),
                    j2,
                ));
                assert(spec_factor(ts, i + 1, ans) == (Ok::<ExprView, Seq<char>>(built), j2));
                assert(spec_term_rest(ts, j2, built, ans) == (
                    Ok::<ExprView, Seq<char>>(built),
                    j2,
                ));
                assert(spec_term(ts, i + 1, ans) == (Ok::<ExprView, Seq<char>>(built), j2));
            } else {
                assert(op is Add || op is Subtract);
                assert(spec_base_rest(ts, j1, rls->Ok_0, ans) == (rls, j1));
                assert(spec_base(ts, i + 1, ans) == (rls, j1));
                assert(spec_factor_rest(ts, j1, rls->Ok_0, ans) == (rls, j1));
                assert(spec_factor(ts, i + 1, ans) == (rls, j1));
                assert(spec_base_rest(ts, j2, rrs->Ok_0, ans) == (rrs, j2));
                assert(spec_base(ts, j1 + 1, ans) == (rrs, j2));
                assert(spec_factor_rest(ts, j2, rrs->Ok_0, ans) == (rrs, j2));
                assert(spec_factor(ts, j1 + 1, ans) == (rrs, j2));
                assert(spec_term_rest(ts, j1, rls->Ok_0, ans) == spec_term_rest(
                    ts,
                    j2,
                    built,
                    ans,
                ));
                assert(spec_term_rest(ts, j2, built, ans) == (
                    Ok::<ExprView, Seq<char>>(built),
                    j2,
                ));
                assert(spec_term(ts, i + 1, ans) == (Ok::<ExprView, Seq<char>>(built), j2));
            }
            assert(spec_expression(ts, i + 1, ans) == (Ok::<ExprView, Seq<char>>(built), j2));
            assert(spec_primary(ts, i, ans) == (
                Ok::<ExprView, Seq<char>>(ExprView::Grouping(Box::new(built))),
                j2 + 1,
            ));
            assert(spec_eval(ExprView::Grouping(Box::new(built))) == spec_eval(e)) by {
                assert(spec_eval(built) == spec_eval(ExprView::Binary(
                    Box::new(rls->Ok_0),
                    op,
                    Box::new(rrs->Ok_0),
                )));
                assert(spec_eval(rls->Ok_0) == spec_eval(*l));
                assert(spec_eval(rrs->Ok_0) == spec_eval(*r));
                assert(spec_eval(e) == spec_eval(ExprView::Binary(l, op, r)));
            }
            assert(!(ts[i] is Subtract));
        },
    }
}

/// The whole token sequence of a rendered tree parses, and the parse
/// evaluates to the same value as the tree, whatever the previous answer.
proof fn lemma_parse_token_list(e: ExprView, ans: Option<u64>)
    requires
        well_formed(e),
    ensures
        spec_parse(token_list(e), ans) is Ok,
        spec_eval(spec_parse(token_list(e), ans)->Ok_0) == spec_eval(e),
{
    let ts = token_list(e);
    let n = ts.len() as int;
    assert(ts.subrange(0, n) =~= ts);
    lemma_parse_atom(ts, 0, e, ans);
    let (r, j) = spec_unary(ts, 0, ans);
    assert(j == n);
    assert(spec_base_rest(ts, n, r->Ok_0, ans) == (r, n));
    assert(spec_base(ts, 0, ans) == (r, n));
    assert(spec_factor_rest(ts, n, r->Ok_0, ans) == (r, n));
    assert(spec_factor(ts, 0, ans) == (r, n));
    assert(spec_term_rest(ts, n, r->Ok_0, ans) == (r, n));
    assert(spec_term(ts, 0, ans) == (r, n));
    assert(spec_expression(ts, 0, ans) == (r, n));
}

/// The rendering of `e` fills `w` from position `i` on, and what follows it
/// (a space, a closing parenthesis, or the end of the line) cannot extend a
/// number literal.
pub open spec fn tok_pre(w: Seq<char>, i: int, e: ExprView) -> bool {
    let s = spec_render(e);
    &&& 0 <= i
    &&& i + s.len() <= w.len()
    &&& w.subrange(i, i + s.len() as int) == s
    &&& (i + s.len() == w.len() || w[i + s.len()] == ' ' || w[i + s.len()] == ')')
}

/// Wherever the rendering of `e` stands cleanly in a line, the lexer reads
/// it as exactly the tree's tokens and goes on behind it.
pub open spec fn renders_tokenize(e: ExprView) -> bool {
    forall|w: Seq<char>, i: int|
        #[trigger] tok_pre(w, i, e) ==> spec_tokenize_from(w, i) == merge(
            token_list(e),
            spec_tokenize_from(w, i + spec_render(e).len()),
        )
}

/// Reading a rendering back: its text tokenizes, the tokens parse, and the
/// parse evaluates to the same value as the tree it was rendered from,
/// whatever the previous answer.
pub open spec fn round_trips(e: ExprView, text: Seq<char>) -> bool {
    &&& spec_tokenize(text) is Ok
    &&& forall|ans: Option<u64>|
        (#[trigger] spec_parse(spec_tokenize(text)->Ok_0, ans)) is Ok && spec_eval(
            spec_parse(spec_tokenize(text)->Ok_0, ans)->Ok_0,
        ) == spec_eval(e)
}

proof fn lemma_rt_literal(b: u64)
    requires
        finite_bits(b),
        plain_dec(b),
        b < SIGN_BIT ==> round_literal(crate::num::dec_of_fp(b)) && fp_of_dec(
            crate::num::dec_of_fp(b),
        ) == b,
        b >= SIGN_BIT ==> {
            let d = crate::num::dec_of_fp(b);
            &&& d.len() >= 2
            &&& d[0] == '-'
            &&& round_literal(d.subrange(1, d.len() as int))
            &&& fp_of_dec(d.subrange(1, d.len() as int)) == fp_neg(b)
        },
    ensures
        renders_tokenize(ExprView::Literal(b)),
{
    let e = ExprView::Literal(b);
    let s = spec_render(e);
    assert forall|w: Seq<char>, i: int| tok_pre(w, i, e) implies spec_tokenize_from(w, i)
        == merge(token_list(e), spec_tokenize_from(w, i + spec_render(e).len())) by {
        let fin = i + s.len() as int;
        if b < SIGN_BIT {
            assert(w.subrange(i, fin) == s);
            lemma_literal_at(w, i, fin);
        } else {
            let tail = s.subrange(1, s.len() as int);
            lemma_seg_index(w, i, s, 0);
            assert(w[i] == '-');
            lemma_seg_slice(w, i, s, 1, tail);
            lemma_literal_at(w, i + 1, fin);
            let rest = spec_tokenize_from(w, fin);
            assert(spec_tokenize_from(w, i) == merge(
                seq![TokenView::Subtract],
                merge(seq![TokenView::Number(fp_neg(b))], rest),
            ));
            lemma_merge_assoc(
                seq![TokenView::Subtract],
                seq![TokenView::Number(fp_neg(b))],
                rest,
            );
            assert(seq![TokenView::Subtract] + seq![TokenView::Number(fp_neg(b))] =~= seq![
                TokenView::Subtract,
                TokenView::Number(fp_neg(b)),
            ]);
        }
    }
}

proof fn lemma_rt_grouping(inner: ExprView)
    requires
        renders_tokenize(inner),
    ensures
        renders_tokenize(ExprView::Grouping(Box::new(inner))),
{
    let e = ExprView::Grouping(Box::new(inner));
    let si = spec_render(inner);
    let sil = si.len() as int;
    let s = spec_render(e);
    let tli = token_list(inner);
    assert forall|w: Seq<char>, i: int| tok_pre(w, i, e) implies spec_tokenize_from(w, i)
        == merge(token_list(e), spec_tokenize_from(w, i + spec_render(e).len())) by {
        reveal_strlit("(");
        reveal_strlit(")");
        assert(s.len() == sil + 2);
        lemma_seg_index(w, i, s, 0);
        assert(w[i] == '(');
        assert(forall|k: int| 0 <= k < sil ==> s[1 + k] == #[trigger] si[k]);
        lemma_seg_slice(w, i, s, 1, si);
        lemma_seg_index(w, i, s, 1 + sil);
        assert(w[i + 1 + sil] == ')');
        assert(tok_pre(w, i + 1, inner));
        let fin = i + s.len() as int;
        let rest = spec_tokenize_from(w, fin);
        assert(spec_tokenize_from(w, i + 1 + sil) == merge(seq![TokenView::RightParen], rest));
        assert(spec_tokenize_from(w, i + 1) == merge(
            tli,
            merge(seq![TokenView::RightParen], rest),
        ));
        lemma_merge_assoc(tli, seq![TokenView::RightParen], rest);
        assert(spec_tokenize_from(w, i) == merge(
            seq![TokenView::LeftParen],
            merge(tli + seq![TokenView::RightParen], rest),
        ));
        lemma_merge_assoc(seq![TokenView::LeftParen], tli + seq![TokenView::RightParen], rest);
        assert(seq![TokenView::LeftParen] + (tli + seq![TokenView::RightParen]) =~= (seq![
            TokenView::LeftParen,
        ] + tli) + seq![TokenView::RightParen]);
    }
}

proof fn lemma_rt_unary(x: ExprView)
    requires
        renders_tokenize(x),
    ensures
        renders_tokenize(ExprView::Unary(TokenView::Subtract, Box::new(x))),
{
    let e = ExprView::Unary(TokenView::Subtract, Box::new(x));
    let sx = spec_render(x);
    let sxl = sx.len() as int;
    let s = spec_render(e);
    let tlx = token_list(x);
    assert forall|w: Seq<char>, i: int| tok_pre(w, i, e) implies spec_tokenize_from(w, i)
        == merge(token_list(e), spec_tokenize_from(w, i + spec_render(e).len())) by {
        reveal_strlit("(");
        reveal_strlit(")");
        reveal_strlit("-");
        reveal_strlit(" ");
        assert(s.len() == sxl + 4);
        lemma_seg_index(w, i, s, 0);
        lemma_seg_index(w, i, s, 1);
        lemma_seg_index(w, i, s, 2);
        assert(w[i] == '(');
        assert(w[i + 1] == '-');
        assert(w[i + 2] == ' ');
        assert(forall|k: int| 0 <= k < sxl ==> s[3 + k] == #[trigger] sx[k]);
        lemma_seg_slice(w, i, s, 3, sx);
        lemma_seg_index(w, i, s, 3 + sxl);
        assert(w[i + 3 + sxl] == ')');
        assert(tok_pre(w, i + 3, x));
        let fin = i + s.len() as int;
        let rest = spec_tokenize_from(w, fin);
        assert(spec_tokenize_from(w, i + 3 + sxl) == merge(seq![TokenView::RightParen], rest));
        assert(spec_tokenize_from(w, i + 3) == merge(
            tlx,
            merge(seq![TokenView::RightParen], rest),
        ));
        lemma_merge_assoc(tlx, seq![TokenView::RightParen], rest);
        assert(spec_tokenize_from(w, i + 2) == spec_tokenize_from(w, i + 3));
        assert(spec_tokenize_from(w, i + 1) == merge(
            seq![TokenView::Subtract],
            merge(tlx + seq![TokenView::RightParen], rest),
        ));
        lemma_merge_assoc(seq![TokenView::Subtract], tlx + seq![TokenView::RightParen], rest);
        assert(spec_tokenize_from(w, i) == merge(
            seq![TokenView::LeftParen],
            merge(seq![TokenView::Subtract] + (tlx + seq![TokenView::RightParen]), rest),
        ));
        lemma_merge_assoc(
            seq![TokenView::LeftParen],
            seq![TokenView::Subtract] + (tlx + seq![TokenView::RightParen]),
            rest,
        );
        assert(seq![TokenView::LeftParen] + (seq![TokenView::Subtract] + (tlx + seq![
            TokenView::RightParen,
        ])) =~= (seq![TokenView::LeftParen, TokenView::Subtract] + tlx) + seq![
            TokenView::RightParen,
        ]);
    }
}

proof fn lemma_rt_binary(l: ExprView, op: TokenView, r: ExprView)
    requires
        renders_tokenize(l),
        renders_tokenize(r),
        op is Add || op is Subtract || op is Multiply || op is Divide || op is Exponent,
    ensures
        renders_tokenize(ExprView::Binary(Box::new(l), op, Box::new(r))),
{
    let e = ExprView::Binary(Box::new(l), op, Box::new(r));
    let sl = spec_render(l);
    let sll = sl.len() as int;
    let sr = spec_render(r);
    let srl = sr.len() as int;
    let st = token_text(op);
    let s = spec_render(e);
    let tll = token_list(l);
    let tlr = token_list(r);
    assert forall|w: Seq<char>, i: int| tok_pre(w, i, e) implies spec_tokenize_from(w, i)
        == merge(token_list(e), spec_tokenize_from(w, i + spec_render(e).len())) by {
        reveal_strlit("(");
        reveal_strlit(")");
        reveal_strlit(" ");
        reveal_strlit("+");
        reveal_strlit("-");
        reveal_strlit("*");
        reveal_strlit("/");
        reveal_strlit("^");
        assert(st.len() == 1);
        assert(s.len() == sll + srl + 5);
        lemma_seg_index(w, i, s, 0);
        assert(w[i] == '(');
        assert(forall|k: int| 0 <= k < sll ==> s[1 + k] == #[trigger] sl[k]);
        lemma_seg_slice(w, i, s, 1, sl);
        lemma_seg_index(w, i, s, 1 + sll);
        assert(w[i + 1 + sll] == ' ');
        lemma_seg_index(w, i, s, 2 + sll);
        assert(w[i + 2 + sll] == st[0]);
        lemma_seg_index(w, i, s, 3 + sll);
        assert(w[i + 3 + sll] == ' ');
        assert(forall|k: int| 0 <= k < srl ==> s[4 + sll + k] == #[trigger] sr[k]);
        lemma_seg_slice(w, i, s, 4 + sll, sr);
        lemma_seg_index(w, i, s, 4 + sll + srl);
        assert(w[i + 4 + sll + srl] == ')');
        assert(tok_pre(w, i + 1, l));
        assert(tok_pre(w, i + 4 + sll, r));
        let fin = i + s.len() as int;
        let rest = spec_tokenize_from(w, fin);
        assert(spec_tokenize_from(w, i + 4 + sll + srl) == merge(
            seq![TokenView::RightParen],
            rest,
        ));
        assert(spec_tokenize_from(w, i + 4 + sll) == merge(
            tlr,
            merge(seq![TokenView::RightParen], rest),
        ));
        lemma_merge_assoc(tlr, seq![TokenView::RightParen], rest);
        let after_op = merge(tlr + seq![TokenView::RightParen], rest);
        assert(spec_tokenize_from(w, i + 3 + sll) == spec_tokenize_from(w, i + 4 + sll));
        if op is Add {
            assert(w[i + 2 + sll] == '+');
            assert(spec_tokenize_from(w, i + 2 + sll) == merge(seq![op], after_op));
        } else if op is Subtract {
            assert(w[i + 2 + sll] == '-');
            assert(spec_tokenize_from(w, i + 2 + sll) == merge(seq![op], after_op));
        } else if op is Multiply {
            assert(w[i + 2 + sll] == '*');
            assert(spec_tokenize_from(w, i + 2 + sll) == merge(seq![op], after_op));
        } else if op is Divide {
            assert(w[i + 2 + sll] == '/');
            assert(spec_tokenize_from(w, i + 2 + sll) == merge(seq![op], after_op));
        } else {
            assert(w[i + 2 + sll] == '^');
            assert(spec_tokenize_from(w, i + 2 + sll) == merge(seq![op], after_op));
        }
        lemma_merge_assoc(seq![op], tlr + seq![TokenView::RightParen], rest);
        assert(spec_tokenize_from(w, i + 1 + sll) == spec_tokenize_from(w, i + 2 + sll));
        assert(spec_tokenize_from(w, i + 1) == merge(
            tll,
            merge(seq![op] + (tlr + seq![TokenView::RightParen]), rest),
        ));
        lemma_merge_assoc(tll, seq![op] + (tlr + seq![TokenView::RightParen]), rest);
        assert(spec_tokenize_from(w, i) == merge(
            seq![TokenView::LeftParen],
            merge(tll + (seq![op] + (tlr + seq![TokenView::RightParen])), rest),
        ));
        lemma_merge_assoc(
            seq![TokenView::LeftParen],
            tll + (seq![op] + (tlr + seq![TokenView::RightParen])),
            rest,
        );
        assert(seq![TokenView::LeftParen] + (tll + (seq![op] + (tlr + seq![
            TokenView::RightParen,
        ]))) =~= (((seq![TokenView::LeftParen] + tll) + seq![op]) + tlr) + seq![
            TokenView::RightParen,
        ]);
    }
}

/// From clean tokenization of the whole rendering, the full law follows.
proof fn lemma_round_trip_from_tokens(e: ExprView, text: Seq<char>)
    requires
        well_formed(e),
        renders_tokenize(e),
        text == spec_render(e),
    ensures
        round_trips(e, text),
{
    assert(text.subrange(0, text.len() as int) =~= text);
    assert(tok_pre(text, 0, e));
    assert(spec_tokenize_from(text, text.len() as int) == Ok::<Seq<TokenView>, Seq<char>>(
        Seq::empty(),
    ));
    assert(token_list(e) + Seq::<TokenView>::empty() =~= token_list(e));
    assert(spec_tokenize(text) == Ok::<Seq<TokenView>, Seq<char>>(token_list(e)));
    assert forall|ans: Option<u64>|
        (#[trigger] spec_parse(spec_tokenize(text)->Ok_0, ans)) is Ok && spec_eval(
            spec_parse(spec_tokenize(text)->Ok_0, ans)->Ok_0,
        ) == spec_eval(e) by {
        lemma_parse_token_list(e, ans);
    }
}

} // verus!
