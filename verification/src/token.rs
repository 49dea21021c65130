//! The lexer: source text to a sequence of tokens.
use crate::num::{dec_of_fp, fmt_bits, fp_of_dec, is_digit, parse_literal_bits, parseable_literal};
use vstd::prelude::*;
use vstd::string::StrSliceExecFns;
use vstd::string::StringExecFns;

verus! {

/// One lexical unit of an input line. A number is carried as the bit pattern
/// of the IEEE double its literal denotes.
#[derive(Debug, Clone)]
pub enum Token {
    Number(u64),
    Identifier(String),
    Add,
    Subtract,
    Divide,
    Multiply,
    Exponent,
    LeftParen,
    RightParen,
}

/// The mathematical image of a token: identifier text as a sequence of
/// characters.
pub enum TokenView {
    Number(u64),
    Identifier(Seq<char>),
    Add,
    Subtract,
    Divide,
    Multiply,
    Exponent,
    LeftParen,
    RightParen,
}

impl View for Token {
    type V = TokenView;

    open spec fn view(&self) -> TokenView {
        match self {
            Token::Number(b) => TokenView::Number(*b),
            Token::Identifier(s) => TokenView::Identifier(s@),
            Token::Add => TokenView::Add,
            Token::Subtract => TokenView::Subtract,
            Token::Divide => TokenView::Divide,
            Token::Multiply => TokenView::Multiply,
            Token::Exponent => TokenView::Exponent,
            Token::LeftParen => TokenView::LeftParen,
            Token::RightParen => TokenView::RightParen,
        }
    }
}

pub open spec fn views(ts: Seq<Token>) -> Seq<TokenView> {
    ts.map_values(|t: Token| t@)
}

pub open spec fn is_alpha(c: char) -> bool {
    ('a' <= c && c <= 'z') || ('A' <= c && c <= 'Z')
}

/// First position at or after `i` that does not hold a digit.
pub open spec fn scan_digits(s: Seq<char>, i: int) -> int
    decreases s.len() - i,
{
    if 0 <= i < s.len() && is_digit(s[i]) {
        scan_digits(s, i + 1)
    } else {
        i
    }
}

/// First position at or after `i` that does not hold an ASCII letter.
pub open spec fn scan_alpha(s: Seq<char>, i: int) -> int
    decreases s.len() - i,
{
    if 0 <= i < s.len() && is_alpha(s[i]) {
        scan_alpha(s, i + 1)
    } else {
        i
    }
}

/// Where the number literal that starts at `i` ends: a leading dot takes
/// only digits; a leading digit takes digits, then at most one dot and
/// further digits.
pub open spec fn lit_end(s: Seq<char>, i: int) -> int {
    if s[i] == '.' {
        scan_digits(s, i + 1)
    } else {
        let d = scan_digits(s, i);
        if d < s.len() && s[d] == '.' {
            scan_digits(s, d + 1)
        } else {
            d
        }
    }
}

pub open spec fn has_digit(s: Seq<char>) -> bool {
    exists|i: int| 0 <= i < s.len() && is_digit(#[trigger] s[i])
}

/// The lexer's message for a character it does not recognize.
pub open spec fn bad_char_msg(c: char) -> Seq<char> {
    "Failed to parse \""@ + seq![c] + "\""@
}

/// The lexer's message for a number literal with no digits, which can only
/// be a lone dot.
pub open spec fn bad_literal_msg() -> Seq<char> {
    "Failed to parse \".\" (invalid float literal)"@
}

pub open spec fn merge(pre: Seq<TokenView>, rest: Result<Seq<TokenView>, Seq<char>>) -> Result<
    Seq<TokenView>,
    Seq<char>,
> {
    match rest {
        Ok(ts) => Ok(pre + ts),
        Err(m) => Err(m),
    }
}

/// The tokens of `s` from position `i` on, or the first lexical error.
pub open spec fn spec_tokenize_from(s: Seq<char>, i: int) -> Result<
    Seq<TokenView>,
    Seq<char>,
>
    decreases s.len() - i,
{
    if i < 0 || i >= s.len() {
        Ok(Seq::empty())
    } else {
        let c = s[i];
        if c == '+' {
            merge(seq![TokenView::Add], spec_tokenize_from(s, i + 1))
        } else if c == '-' {
            merge(seq![TokenView::Subtract], spec_tokenize_from(s, i + 1))
        } else if c == '/' {
            merge(seq![TokenView::Divide], spec_tokenize_from(s, i + 1))
        } else if c == '*' {
            merge(seq![TokenView::Multiply], spec_tokenize_from(s, i + 1))
        } else if c == '^' {
            merge(seq![TokenView::Exponent], spec_tokenize_from(s, i + 1))
        } else if c == '(' {
            merge(seq![TokenView::LeftParen], spec_tokenize_from(s, i + 1))
        } else if c == ')' {
            merge(seq![TokenView::RightParen], spec_tokenize_from(s, i + 1))
        } else if c == ' ' || c == '\r' || c == '\t' {
            spec_tokenize_from(s, i + 1)
        } else if c == '\n' {
            Ok(Seq::empty())
        } else if is_digit(c) || c == '.' {
            let j = lit_end(s, i);
            let lit = s.subrange(i, j);
            if has_digit(lit) {
                if i < j <= s.len() {
                    merge(seq![TokenView::Number(fp_of_dec(lit))], spec_tokenize_from(s, j))
                } else {
                    Err(bad_literal_msg())
                }
            } else {
                Err(bad_literal_msg())
            }
        } else if is_alpha(c) {
            let j = scan_alpha(s, i);
            if i < j <= s.len() {
                merge(
                    seq![TokenView::Identifier(s.subrange(i, j))],
                    spec_tokenize_from(s, j),
                )
            } else {
                Err(bad_char_msg(c))
            }
        } else {
            Err(bad_char_msg(c))
        }
    }
}

/// The tokens of a whole line, or its first lexical error.
pub open spec fn spec_tokenize(s: Seq<char>) -> Result<Seq<TokenView>, Seq<char>> {
    spec_tokenize_from(s, 0)
}

/// The text of a token, as the evaluator's error messages show it: a number
/// in its decimal rendering, an identifier as its own text, an operator or
/// parenthesis as its character.
pub open spec fn token_text(t: TokenView) -> Seq<char> {
    match t {
        TokenView::Number(b) => dec_of_fp(b),
        TokenView::Identifier(s) => s,
        TokenView::Add => "+"@,
        TokenView::Subtract => "-"@,
        TokenView::Multiply => "*"@,
        TokenView::Divide => "/"@,
        TokenView::Exponent => "^"@,
        TokenView::LeftParen => "("@,
        TokenView::RightParen => ")"@,
    }
}

/// How an executable token sequence or error relates to the model.
pub open spec fn tokens_match(
    r: Result<Vec<Token>, String>,
    sp: Result<Seq<TokenView>, Seq<char>>,
) -> bool {
    match r {
        Ok(ts) => sp is Ok && views(ts@) == sp->Ok_0,
        Err(m) => sp is Err && m@ == sp->Err_0,
    }
}

proof fn lemma_views_push(ts: Seq<Token>, t: Token)
    ensures
        views(ts.push(t)) == views(ts).push(t@),
{
    assert(views(ts.push(t)) =~= views(ts).push(t@));
}

pub proof fn lemma_scan_digits_props(s: Seq<char>, i: int)
    requires
        0 <= i <= s.len(),
    ensures
        i <= scan_digits(s, i) <= s.len(),
        forall|k: int| i <= k < scan_digits(s, i) ==> is_digit(#[trigger] s[k]),
        scan_digits(s, i) < s.len() ==> !is_digit(s[scan_digits(s, i)]),
    decreases s.len() - i,
{
    if i < s.len() && is_digit(s[i]) {
        lemma_scan_digits_props(s, i + 1);
    }
}

pub proof fn lemma_scan_alpha_props(s: Seq<char>, i: int)
    requires
        0 <= i <= s.len(),
    ensures
        i <= scan_alpha(s, i) <= s.len(),
        forall|k: int| i <= k < scan_alpha(s, i) ==> is_alpha(#[trigger] s[k]),
        scan_alpha(s, i) < s.len() ==> !is_alpha(s[scan_alpha(s, i)]),
    decreases s.len() - i,
{
    if i < s.len() && is_alpha(s[i]) {
        lemma_scan_alpha_props(s, i + 1);
    }
}

pub proof fn lemma_merge_assoc(
    a: Seq<TokenView>,
    b: Seq<TokenView>,
    rest: Result<Seq<TokenView>, Seq<char>>,
)
    ensures
        merge(a, merge(b, rest)) == merge(a + b, rest),
{
    match rest {
        Ok(ts) => {
            assert(a + (b + ts) =~= (a + b) + ts);
        },
        Err(_) => {},
    }
}

pub proof fn lemma_scan_digits_exact(s: Seq<char>, i: int, e: int)
    requires
        0 <= i <= e <= s.len(),
        forall|k: int| i <= k < e ==> is_digit(#[trigger] s[k]),
        e < s.len() ==> !is_digit(s[e]),
    ensures
        scan_digits(s, i) == e,
{
    lemma_scan_digits_props(s, i);
    let sc = scan_digits(s, i);
    if sc < e {
        assert(is_digit(s[sc]));
    }
    if sc > e {
        assert(is_digit(s[e]));
    }
}

/// A parseable literal filling positions `i` up to `e`, with no digit or dot
/// right after it, tokenizes to one number token followed by the tokens of
/// the rest of the line.
pub proof fn lemma_literal_at(w: Seq<char>, i: int, e: int)
    requires
        0 <= i < e <= w.len(),
        parseable_literal(w.subrange(i, e)),
        e == w.len() || (!is_digit(w[e]) && w[e] != '.'),
    ensures
        spec_tokenize_from(w, i) == merge(
            seq![TokenView::Number(fp_of_dec(w.subrange(i, e)))],
            spec_tokenize_from(w, e),
        ),
{
    let lit = w.subrange(i, e);
    assert(forall|k: int| i <= k < e ==> w[k] == #[trigger] lit[k - i]) by {
        assert(forall|k: int| i <= k < e ==> #[trigger] lit[k - i] == w[i + (k - i)]);
    }
    assert(w[i] == lit[0]);
    if w[i] == '.' {
        assert(forall|k: int| i + 1 <= k < e ==> is_digit(#[trigger] w[k])) by {
            assert(forall|k: int|
                i + 1 <= k < e && !is_digit(#[trigger] w[k]) ==> lit[k - i] == '.' && lit[0]
                    == '.' && k - i == 0);
        }
        lemma_scan_digits_exact(w, i + 1, e);
        assert(lit_end(w, i) == e);
        assert(i + 1 < e) by {
            assert(has_digit(lit));
            let d = choose|k: int| 0 <= k < lit.len() && is_digit(lit[k]);
            assert(w[i + d] == lit[d]);
        }
    } else {
        assert(is_digit(w[i]));
        if exists|k: int| i <= k < e && w[k] == '.' {
            let k0 = choose|k: int| i <= k < e && w[k] == '.';
            assert(lit[k0 - i] == '.');
            assert(forall|k: int|
                i <= k < e && k != k0 ==> is_digit(#[trigger] w[k])) by {
                assert(forall|k: int|
                    i <= k < e && !is_digit(#[trigger] w[k]) ==> lit[k - i] == '.' && k - i
                        == k0 - i);
            }
            assert(i < k0);
            lemma_scan_digits_exact(w, i, k0);
            lemma_scan_digits_exact(w, k0 + 1, e);
            assert(lit_end(w, i) == e);
        } else {
            assert forall|k: int| i <= k < e implies is_digit(#[trigger] w[k]) by {
                assert(w[k] == lit[k - i]);
                if !is_digit(lit[k - i]) {
                    assert(lit[k - i] == '.');
                    assert(w[k] == '.');
                }
            }
            lemma_scan_digits_exact(w, i, e);
            assert(lit_end(w, i) == e);
        }
    }
    assert(has_digit(lit));
    assert(is_digit(w[i]) || w[i] == '.');
}

proof fn lemma_merge_step(
    pre: Seq<TokenView>,
    tv: TokenView,
    rest: Result<Seq<TokenView>, Seq<char>>,
)
    ensures
        merge(pre, merge(seq![tv], rest)) == merge(pre.push(tv), rest),
{
    match rest {
        Ok(ts) => {
            assert(pre + (seq![tv] + ts) =~= pre.push(tv) + ts);
        },
        Err(_) => {},
    }
}

/// First position at or after `from` that does not hold a digit.
fn scan_digits_exec(s: &str, from: usize) -> (r: usize)
    requires
        from <= s@.len(),
    ensures
        r == scan_digits(s@, from as int),
        from <= r <= s@.len(),
{
    let n = s.unicode_len();
    let mut j: usize = from;
    let mut go = true;
    while go && j < n
        invariant
            from <= j <= n,
            n == s@.len(),
            go ==> scan_digits(s@, from as int) == scan_digits(s@, j as int),
            !go ==> scan_digits(s@, from as int) == j,
        decreases n - j + (if go { 1int } else { 0int }),
    {
        let c = s.get_char(j);
        if '0' <= c && c <= '9' {
            j = j + 1;
        } else {
            go = false;
        }
    }
    proof {
        lemma_scan_digits_props(s@, from as int);
    }
    j
}

/// First position at or after `from` that does not hold an ASCII letter.
fn scan_alpha_exec(s: &str, from: usize) -> (r: usize)
    requires
        from <= s@.len(),
    ensures
        r == scan_alpha(s@, from as int),
        from <= r <= s@.len(),
{
    let n = s.unicode_len();
    let mut j: usize = from;
    let mut go = true;
    while go && j < n
        invariant
            from <= j <= n,
            n == s@.len(),
            go ==> scan_alpha(s@, from as int) == scan_alpha(s@, j as int),
            !go ==> scan_alpha(s@, from as int) == j,
        decreases n - j + (if go { 1int } else { 0int }),
    {
        let c = s.get_char(j);
        if ('a' <= c && c <= 'z') || ('A' <= c && c <= 'Z') {
            j = j + 1;
        } else {
            go = false;
        }
    }
    proof {
        lemma_scan_alpha_props(s@, from as int);
    }
    j
}

/// Scan the number literal that starts at `i`: its token and the position
/// after it, or the lexer's error for a literal without a digit.
fn process_number(s: &str, i: usize) -> (r: (Result<Token, String>, usize))
    requires
        i < s@.len(),
        is_digit(s@[i as int]) || s@[i as int] == '.',
    ensures
        i < r.1 <= s@.len(),
        r.1 == lit_end(s@, i as int),
        match r.0 {
            Ok(t) => has_digit(s@.subrange(i as int, r.1 as int)) && t@ == TokenView::Number(
                fp_of_dec(s@.subrange(i as int, r.1 as int)),
            ),
            Err(m) => !has_digit(s@.subrange(i as int, r.1 as int)) && m@ == bad_literal_msg(),
        },
{
    let n = s.unicode_len();
    let c0 = s.get_char(i);
    proof {
        lemma_scan_digits_props(s@, i as int);
        lemma_scan_digits_props(s@, i as int + 1);
    }
    if c0 == '.' {
        let j = scan_digits_exec(s, i + 1);
        let ghost lit = s@.subrange(i as int, j as int);
        if j == i + 1 {
            proof {
                assert(lit =~= seq![s@[i as int]]);
                assert(!has_digit(lit));
            }
            (Err("Failed to parse \".\" (invalid float literal)".to_owned()), j)
        } else {
            proof {
                assert(is_digit(s@[i as int + 1]));
                assert(is_digit(lit[1]));
                assert(forall|k: int|
                    0 <= k < lit.len() ==> is_digit(#[trigger] lit[k]) || lit[k] == '.');
                assert(forall|k: int| 1 <= k < lit.len() ==> is_digit(#[trigger] lit[k]));
                assert(parseable_literal(lit));
            }
            let text = s.substring_char(i, j);
            (Ok(Token::Number(parse_literal_bits(text))), j)
        }
    } else {
        let d = scan_digits_exec(s, i);
        proof {
            assert(scan_digits(s@, i as int) == scan_digits(s@, i as int + 1));
        }
        let mut j: usize = d;
        let mut dotted = false;
        let ghost dpos = d as int;
        if j < n {
            let cd = s.get_char(j);
            if cd == '.' {
                dotted = true;
                j = scan_digits_exec(s, d + 1);
                proof {
                    lemma_scan_digits_props(s@, d as int + 1);
                }
            }
        }
        let ghost lit = s@.subrange(i as int, j as int);
        proof {
            assert(is_digit(lit[0]));
            assert(forall|k: int|
                0 <= k < lit.len() ==> is_digit(#[trigger] lit[k]) || lit[k] == '.') by {
                assert(forall|k: int| i <= k < dpos ==> is_digit(#[trigger] s@[k]));
                assert(forall|k: int| dpos < k < j ==> is_digit(#[trigger] s@[k]));
            }
            assert(forall|k: int| 0 <= k < lit.len() && lit[k] == '.' ==> k == dpos - i);
            assert(parseable_literal(lit));
            assert(j == lit_end(s@, i as int));
        }
        let text = s.substring_char(i, j);
        (Ok(Token::Number(parse_literal_bits(text))), j)
    }
}

/// Scan the identifier that starts at `i`: its token and the position after
/// it.
fn process_identifier(s: &str, i: usize) -> (r: (Token, usize))
    requires
        i < s@.len(),
        is_alpha(s@[i as int]),
    ensures
        i < r.1 <= s@.len(),
        r.1 == scan_alpha(s@, i as int),
        r.0@ == TokenView::Identifier(s@.subrange(i as int, r.1 as int)),
{
    proof {
        lemma_scan_alpha_props(s@, i as int);
        assert(scan_alpha(s@, i as int) == scan_alpha(s@, i as int + 1));
    }
    let j = scan_alpha_exec(s, i);
    let text = s.substring_char(i, j).to_owned();
    (Token::Identifier(text), j)
}

impl Token {
    /// The token's text, as the evaluator's error messages show it.
    pub fn text(&self) -> (r: String)
        ensures
            r@ == token_text(self@),
    {
        match self {
            Token::Number(b) => fmt_bits(*b),
            Token::Identifier(s) => s.clone(),
            Token::Add => "+".to_owned(),
            Token::Subtract => "-".to_owned(),
            Token::Multiply => "*".to_owned(),
            Token::Divide => "/".to_owned(),
            Token::Exponent => "^".to_owned(),
            Token::LeftParen => "(".to_owned(),
            Token::RightParen => ")".to_owned(),
        }
    }

    /// Turn one line of source text into its tokens, or the first lexical
    /// error: an unrecognized character, or a number literal without digits.
    pub fn tokenize(source: String) -> (r: Result<Vec<Token>, String>)
        ensures
            tokens_match(r, spec_tokenize(source@)),
    {
        let s: &str = source.as_str();
        let n = s.unicode_len();
        let mut tokens: Vec<Token> = Vec::new();
        let mut i: usize = 0;
        let mut stopped = false;
        while i < n && !stopped
            invariant
                i <= n,
                n == s@.len(),
                s@ == source@,
                !stopped ==> spec_tokenize(source@) == merge(
                    views(tokens@),
                    spec_tokenize_from(source@, i as int),
                ),
                stopped ==> spec_tokenize(source@) == Ok::<Seq<TokenView>, Seq<char>>(views(tokens@)),
            decreases n - i + (if stopped { 0int } else { 1int }),
        {
            let c = s.get_char(i);
            if c == '+' || c == '-' || c == '/' || c == '*' || c == '^' || c == '(' || c == ')' {
                let t = if c == '+' {
                    Token::Add
                } else if c == '-' {
                    Token::Subtract
                } else if c == '/' {
                    Token::Divide
                } else if c == '*' {
                    Token::Multiply
                } else if c == '^' {
                    Token::Exponent
                } else if c == '(' {
                    Token::LeftParen
                } else {
                    Token::RightParen
                };
                let ghost tg = t;
                let ghost pre = tokens@;
                proof {
                    assert(spec_tokenize_from(source@, i as int) == merge(
                        seq![tg@],
                        spec_tokenize_from(source@, i as int + 1),
                    ));
                }
                tokens.push(t);
                proof {
                    lemma_views_push(pre, tg);
                    lemma_merge_step(views(pre), tg@, spec_tokenize_from(source@, i as int + 1));
                }
                i = i + 1;
            } else if c == ' ' || c == '\r' || c == '\t' {
                i = i + 1;
            } else if c == '\n' {
                stopped = true;
                proof {
                    assert(spec_tokenize_from(source@, i as int) == Ok::<
                        Seq<TokenView>,
                        Seq<char>,
                    >(Seq::<TokenView>::empty()));
                    assert(views(tokens@) + Seq::<TokenView>::empty() =~= views(tokens@));
                }
            } else if ('0' <= c && c <= '9') || c == '.' {
                let (res, j) = process_number(s, i);
                match res {
                    Ok(t) => {
                        let ghost tg = t;
                        let ghost pre = tokens@;
                        proof {
                            assert(spec_tokenize_from(source@, i as int) == merge(
                                seq![tg@],
                                spec_tokenize_from(source@, j as int),
                            ));
                        }
                        tokens.push(t);
                        proof {
                            lemma_views_push(pre, tg);
                            lemma_merge_step(
                                views(pre),
                                tg@,
                                spec_tokenize_from(source@, j as int),
                            );
                        }
                        i = j;
                    },
                    Err(m) => {
                        proof {
                            assert(spec_tokenize_from(source@, i as int) == Err::<
                                Seq<TokenView>,
                                Seq<char>,
                            >(bad_literal_msg()));
                        }
                        return Err(m);
                    },
                }
            } else if ('a' <= c && c <= 'z') || ('A' <= c && c <= 'Z') {
                let (t, j) = process_identifier(s, i);
                let ghost tg = t;
                let ghost pre = tokens@;
                proof {
                    assert(spec_tokenize_from(source@, i as int) == merge(
                        seq![tg@],
                        spec_tokenize_from(source@, j as int),
                    ));
                }
                tokens.push(t);
                proof {
                    lemma_views_push(pre, tg);
                    lemma_merge_step(views(pre), tg@, spec_tokenize_from(source@, j as int));
                }
                i = j;
            } else {
                let mut m = "Failed to parse \"".to_owned();
                m.append(s.substring_char(i, i + 1));
                m.append("\"");
                proof {
                    assert(s@.subrange(i as int, i as int + 1) =~= seq![c]);
                    assert(m@ == bad_char_msg(c));
                    assert(spec_tokenize_from(source@, i as int) == Err::<
                        Seq<TokenView>,
                        Seq<char>,
                    >(bad_char_msg(c)));
                }
                return Err(m);
            }
        }
        proof {
            if !stopped {
                assert(spec_tokenize_from(source@, i as int) == Ok::<
                    Seq<TokenView>,
                    Seq<char>,
                >(Seq::<TokenView>::empty()));
                assert(views(tokens@) + Seq::<TokenView>::empty() =~= views(tokens@));
            }
        }
        Ok(tokens)
    }
}

} // verus!
