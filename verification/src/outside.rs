//! The calls that leave this crate, and the outside types that its values
//! carry. Verus takes the contract of each item in this file on trust: none
//! of them is proved.

use crate::failure::EvalError;
use crate::text::is_whitespace;
use vstd::prelude::*;

verus! {

/// An arithmetic expression as `meval` holds it once it is parsed.
#[verifier::external_type_specification]
#[verifier::external_body]
pub struct ExExpr(meval::Expr);

/// A token of such an expression; an expression can be read as a slice of
/// them.
#[verifier::external_type_specification]
#[verifier::external_body]
pub struct ExToken(meval::tokenizer::Token);

/// The error with which `meval` refuses a text.
#[verifier::external_type_specification]
#[verifier::external_body]
pub struct ExExprError(meval::Error);

/// A colour as `csscolorparser` holds it.
#[verifier::external_type_specification]
#[verifier::external_body]
pub struct ExColor(csscolorparser::Color);

/// The error with which `csscolorparser` refuses a text.
#[verifier::external_type_specification]
#[verifier::external_body]
pub struct ExColorError(csscolorparser::ParseColorError);

/// The permuted congruential generator of `rand_pcg`.
#[verifier::external_type_specification]
#[verifier::external_body]
pub struct ExPcg64(rand_pcg::Pcg64);

/// What `meval` makes of `text`: the parsed expression, or `None` where it
/// refuses the text.
pub uninterp spec fn parsed_expression(text: Seq<char>) -> Option<meval::Expr>;

/// What `csscolorparser` makes of `text`: the colour, or `None` where it
/// refuses the text.
pub uninterp spec fn css_color(text: Seq<char>) -> Option<csscolorparser::Color>;

/// The colour that `csscolorparser` makes of four channels of eight bits.
pub uninterp spec fn rgba8_color(r: u8, g: u8, b: u8, a: u8) -> csscolorparser::Color;

/// The generator that `rand_seeder` makes for `rand_pcg` from `seed`.
pub uninterp spec fn seeded_generator(seed: Seq<char>) -> rand_pcg::Pcg64;

/// `String::push` of the standard library: the character is added at the end
/// of the string, and nothing else changes.
#[verifier::external_body]
pub(crate) fn push_char(text: &mut String, c: char)
    ensures
        final(text)@ == old(text)@.push(c),
{
    text.push(c)
}

/// `meval::Expr::from_str`: the text is tokenised and brought into postfix
/// order. The outcome depends on the text alone. The tokeniser panics on a
/// text that holds spaces, tabs and line ends and nothing else; so a text
/// that begins with white space is kept away from it.
#[verifier::external_body]
pub(crate) fn parse_expression(text: &str) -> (parsed: Result<meval::Expr, meval::Error>)
    requires
        text@.len() == 0 || !is_whitespace(text@[0]),
    ensures
        match parsed {
            Ok(expression) => parsed_expression(text@) == Some(expression),
            Err(_) => parsed_expression(text@) is None,
        },
{
    text.parse::<meval::Expr>()
}

/// `csscolorparser::parse`: a colour in one of the notations of CSS. The
/// outcome depends on the text alone.
#[verifier::external_body]
pub(crate) fn parse_color(text: &str) -> (parsed: Result<
    csscolorparser::Color,
    csscolorparser::ParseColorError,
>)
    ensures
        match parsed {
            Ok(color) => css_color(text@) == Some(color),
            Err(_) => css_color(text@) is None,
        },
{
    csscolorparser::parse(text)
}

/// `csscolorparser::Color::from_rgba8`: the colour with the given channels.
#[verifier::external_body]
pub(crate) fn color_from_rgba8(r: u8, g: u8, b: u8, a: u8) -> (color: csscolorparser::Color)
    ensures
        color == rgba8_color(r, g, b, a),
{
    csscolorparser::Color::from_rgba8(r, g, b, a)
}

/// `rand_seeder::Seeder::from` and `make_rng`: a generator whose state is
/// derived from the seed by a keyed hash that is the same on every machine,
/// so that one seed always gives the same generator.
#[verifier::external_body]
pub fn get_rng(seed: &str) -> (rng: rand_pcg::Pcg64)
    ensures
        rng == seeded_generator(seed@),
{
    rand_seeder::Seeder::from(seed).make_rng()
}

/// What an error of `meval` is about: the variable that is not known, the
/// function that could not be applied, or neither.
pub uninterp spec fn failure_in(error: meval::Error) -> EvalError;

/// The variants of `meval::Error` told apart: an unknown variable and a
/// failed function each hand their name over; the errors of parsing are one.
#[verifier::external_body]
pub(crate) fn evaluation_failure(error: &meval::Error) -> (failure: EvalError)
    ensures
        failure == failure_in(*error),
{
    match error {
        meval::Error::UnknownVariable(name) => EvalError::UnknownVariable(name.clone()),
        meval::Error::Function(name, _) => EvalError::Function(name.clone()),
        meval::Error::ParseError(_) => EvalError::Other,
        meval::Error::RPNError(_) => EvalError::Other,
    }
}

} // verus!
