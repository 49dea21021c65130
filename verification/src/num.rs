//! The numeric rim of the evaluator.
//!
//! Every number in this crate is carried as the 64-bit pattern of an IEEE 754
//! double. The lexer, the parser and the evaluator are verified over these
//! plain bit patterns; the arithmetic itself is performed by outside code
//! behind the trusted wrappers below, each of whose results is a function of
//! the operand bits alone and is therefore given a name that the contracts
//! of the verified code speak of.
use rustc_apfloat::Float;
use vstd::prelude::*;

verus! {

/// The sign bit of an IEEE 754 double.
pub const SIGN_BIT: u64 = 0x8000_0000_0000_0000;

/// The exponent field of an IEEE 754 double.
pub const EXP_MASK: u64 = 0x7ff0_0000_0000_0000;

/// The bit pattern holds a finite value (zero, subnormal or normal):
/// its exponent field is not all ones.
pub open spec fn finite_bits(b: u64) -> bool {
    b & EXP_MASK != EXP_MASK
}

/// IEEE 754 negation: the sign bit flips and nothing else, whatever the
/// value holds, so negation needs no outside call.
pub open spec fn fp_neg(b: u64) -> u64 {
    b ^ SIGN_BIT
}

/// What IEEE double addition returns on two bit patterns.
pub uninterp spec fn fp_add(a: u64, b: u64) -> u64;

/// What IEEE double subtraction returns on two bit patterns.
pub uninterp spec fn fp_sub(a: u64, b: u64) -> u64;

/// What IEEE double multiplication returns on two bit patterns.
pub uninterp spec fn fp_mul(a: u64, b: u64) -> u64;

/// What IEEE double division returns on two bit patterns.
pub uninterp spec fn fp_div(a: u64, b: u64) -> u64;

/// What the real-valued power function returns on two bit patterns.
pub uninterp spec fn fp_pow(a: u64, b: u64) -> u64;

/// The double whose value a decimal literal denotes, rounded to nearest.
pub uninterp spec fn fp_of_dec(s: Seq<char>) -> u64;

/// The decimal rendering of a double's bit pattern.
pub uninterp spec fn dec_of_fp(b: u64) -> Seq<char>;

pub open spec fn is_digit(c: char) -> bool {
    '0' <= c && c <= '9'
}

/// A literal the lexer can produce and the numeric rim can parse: digits and
/// at most one dot, with at least one digit among them.
pub open spec fn parseable_literal(s: Seq<char>) -> bool {
    &&& s.len() >= 1
    &&& forall|i: int| 0 <= i < s.len() ==> is_digit(#[trigger] s[i]) || s[i] == '.'
    &&& forall|i: int, j: int|
        0 <= i < s.len() && 0 <= j < s.len() && s[i] == '.' && s[j] == '.' ==> i == j
    &&& exists|i: int| 0 <= i < s.len() && is_digit(#[trigger] s[i])
}

/// A rendered literal re-tokenizes as one number: it begins and ends with a
/// digit, so the lexer's scan consumes exactly it.
pub open spec fn round_literal(s: Seq<char>) -> bool {
    &&& parseable_literal(s)
    &&& is_digit(s[0])
    &&& is_digit(s[s.len() - 1])
}

/// The rendering of these bits is in plain decimal form: no exponent marker,
/// as happens for values of moderate magnitude.
pub open spec fn plain_dec(b: u64) -> bool {
    forall|i: int| 0 <= i < dec_of_fp(b).len() ==> #[trigger] dec_of_fp(b)[i] != 'E'
}

/// Relies on rustc_apfloat's `Double` addition, which rounds to nearest with
/// ties to even as IEEE 754 asks: the result depends on the operand bits alone.
#[verifier::external_body]
pub(crate) fn add_bits(a: u64, b: u64) -> (r: u64)
    ensures
        r == fp_add(a, b),
{
    let x = rustc_apfloat::ieee::Double::from_bits(a as u128);
    let y = rustc_apfloat::ieee::Double::from_bits(b as u128);
    (x + y).value.to_bits() as u64
}

/// Relies on rustc_apfloat's `Double` subtraction (round to nearest, ties to
/// even): the result depends on the operand bits alone.
#[verifier::external_body]
pub(crate) fn sub_bits(a: u64, b: u64) -> (r: u64)
    ensures
        r == fp_sub(a, b),
{
    let x = rustc_apfloat::ieee::Double::from_bits(a as u128);
    let y = rustc_apfloat::ieee::Double::from_bits(b as u128);
    (x - y).value.to_bits() as u64
}

/// Relies on rustc_apfloat's `Double` multiplication (round to nearest, ties
/// to even): the result depends on the operand bits alone.
#[verifier::external_body]
pub(crate) fn mul_bits(a: u64, b: u64) -> (r: u64)
    ensures
        r == fp_mul(a, b),
{
    let x = rustc_apfloat::ieee::Double::from_bits(a as u128);
    let y = rustc_apfloat::ieee::Double::from_bits(b as u128);
    (x * y).value.to_bits() as u64
}

/// Relies on rustc_apfloat's `Double` division (round to nearest, ties to
/// even): the result depends on the operand bits alone.
#[verifier::external_body]
pub(crate) fn div_bits(a: u64, b: u64) -> (r: u64)
    ensures
        r == fp_div(a, b),
{
    let x = rustc_apfloat::ieee::Double::from_bits(a as u128);
    let y = rustc_apfloat::ieee::Double::from_bits(b as u128);
    (x / y).value.to_bits() as u64
}

/// Relies on libm's `pow`, a pure software power function, together with
/// bytemuck's `cast` for the bit casts at its boundary: the result depends
/// on the operand bits alone.
#[verifier::external_body]
pub(crate) fn pow_bits(a: u64, b: u64) -> (r: u64)
    ensures
        r == fp_pow(a, b),
{
    let x = libm::pow(bytemuck::cast(a), bytemuck::cast(b));
    bytemuck::cast(x)
}

/// Relies on rustc_apfloat's decimal parsing for `Double`, which accepts any
/// literal of this shape and rounds to nearest as `str::parse` does: the
/// result depends on the literal text alone.
#[verifier::external_body]
pub(crate) fn parse_literal_bits(lit: &str) -> (r: u64)
    requires
        parseable_literal(lit@),
    ensures
        r == fp_of_dec(lit@),
{
    match lit.parse::<rustc_apfloat::ieee::Double>() {
        Ok(v) => v.to_bits() as u64,
        Err(_) => 0,
    }
}

/// Relies on rustc_apfloat's `Display` for `Double`, which prints enough
/// decimal digits to parse back to the same value (Steele & White), in plain
/// decimal form for moderate magnitudes and with an `E` exponent otherwise:
/// the text depends on the bits alone. A plain finite rendering is an
/// optional minus followed by digits with at most one inner dot, and parsing
/// it back yields the bits it was printed from.
#[verifier::external_body]
pub(crate) fn fmt_bits(b: u64) -> (r: String)
    ensures
        r@ == dec_of_fp(b),
        finite_bits(b) && plain_dec(b) && b < SIGN_BIT ==> round_literal(r@) && fp_of_dec(r@)
            == b,
        finite_bits(b) && plain_dec(b) && b >= SIGN_BIT ==> r@.len() >= 2 && r@[0] == '-'
            && round_literal(r@.subrange(1, r@.len() as int)) && fp_of_dec(
            r@.subrange(1, r@.len() as int),
        ) == fp_neg(b),
{
    format!("{}", rustc_apfloat::ieee::Double::from_bits(b as u128))
}

/// Negation in executable form: flip the sign bit.
pub(crate) fn neg_bits(a: u64) -> (r: u64)
    ensures
        r == fp_neg(a),
{
    a ^ SIGN_BIT
}

} // verus!
