//! The configuration language: one directive to a line. A line is a setting,
//! the declaration of a variable, a rewriting rule or the binding of an
//! operation to a symbol.

use crate::number::{integer_i32, is_float, is_float_literal, natural_u32, natural_usize};
use crate::number::{parse_i32, parse_u32, parse_usize};
use crate::outside::{css_color, parse_color, parse_expression, parsed_expression};
use crate::renderer::{injection_views, Expression, Operation, OperationView};
use crate::text::{after, before, find_char, find_pair, same_text, starts_with, to_chars, to_text};
use crate::text::{has_char, has_pair, lemma_trimmed_is_tight, offset_of, offset_of_pair};
use crate::text::{lemma_offset_of_pair, trim, trimmed};
use csscolorparser::{Color, ParseColorError};
use meval::Expr;
use vstd::prelude::*;

verus! {

// The keywords of the settings.
pub const AXIOM: &'static str = "axiom";

pub const ITER: &'static str = "iter";

pub const INITIAL_ROT: &'static str = "initial_rot";

pub const INITIAL_POS: &'static str = "initial_pos";

pub const INITIAL_THICKNESS: &'static str = "initial_thickness";

pub const INITIAL_COLOR: &'static str = "initial_color";

pub const BACKGROUND: &'static str = "background";

pub const CANVAS: &'static str = "canvas";

pub const SEED: &'static str = "seed";

pub const INJECT: &'static str = "inject";

// The keywords of the operations.
pub const FORWARD: &'static str = "forward";

pub const JUMP: &'static str = "jump";

pub const DOT: &'static str = "dot";

pub const ROTATE: &'static str = "rotate";

pub const THICKNESS: &'static str = "thickness";

pub const IGNORE: &'static str = "ignore";

pub const PUSH: &'static str = "push";

pub const POP: &'static str = "pop";

pub const COLOR: &'static str = "color";

/// Why a line was not taken.
#[derive(Debug, PartialEq, Eq, Clone, Copy, Structural)]
pub enum ParsingError {
    /// The line is of no known kind.
    UnknownAction,
    /// Something that the line must hold is missing.
    InvalidFormat,
    /// A whole number was expected, and one that is not negative.
    InvalidInteger,
    /// A number was expected.
    InvalidFloatingPoint,
    /// The keyword names no operation.
    InvalidOperation,
    /// The expression library refuses the expression.
    InvalidExpression,
    /// A field of a pair does not read as what it should be.
    InvalidTuple,
    /// The colour library refuses the colour.
    InvalidColor,
}

/// The kinds of line.
#[derive(Debug, PartialEq, Eq, Clone, Copy, Structural)]
pub enum LineType {
    /// A setting: a keyword and its value.
    Config,
    /// The declaration of a variable.
    Variable,
    /// A rewriting rule.
    Rule,
    /// The binding of an operation to a symbol.
    Operation,
    /// An empty line, or one of white space only.
    Nothing,
    /// Anything else.
    Unknown,
}

/// The settings, by their keywords.
#[derive(Debug, PartialEq, Eq, Clone, Copy, Structural)]
pub enum Setting {
    Axiom,
    Iter,
    InitialRot,
    InitialPos,
    InitialThickness,
    Background,
    InitialColor,
    Canvas,
    Seed,
    Inject,
}

/// The setting whose keyword `line` begins with.
pub open spec fn setting_of(line: Seq<char>) -> Option<Setting> {
    if AXIOM@.is_prefix_of(line) {
        Some(Setting::Axiom)
    } else if ITER@.is_prefix_of(line) {
        Some(Setting::Iter)
    } else if INITIAL_ROT@.is_prefix_of(line) {
        Some(Setting::InitialRot)
    } else if INITIAL_POS@.is_prefix_of(line) {
        Some(Setting::InitialPos)
    } else if INITIAL_THICKNESS@.is_prefix_of(line) {
        Some(Setting::InitialThickness)
    } else if BACKGROUND@.is_prefix_of(line) {
        Some(Setting::Background)
    } else if INITIAL_COLOR@.is_prefix_of(line) {
        Some(Setting::InitialColor)
    } else if CANVAS@.is_prefix_of(line) {
        Some(Setting::Canvas)
    } else if SEED@.is_prefix_of(line) {
        Some(Setting::Seed)
    } else if INJECT@.is_prefix_of(line) {
        Some(Setting::Inject)
    } else {
        None
    }
}

/// The kind of a line that has no white space at either end. The first of
/// these decides: the keyword of a setting at the beginning; the marker `->`
/// of a rule anywhere; the marker `:` of an operation as the second
/// character; the sign `=` anywhere; nothing at all.
pub open spec fn kind_of(line: Seq<char>) -> LineType {
    if setting_of(line) is Some {
        LineType::Config
    } else if has_pair(line, '-', '>') {
        LineType::Rule
    } else if line.len() >= 2 && line[1] == ':' {
        LineType::Operation
    } else if has_char(line, '=') {
        LineType::Variable
    } else if line.len() == 0 {
        LineType::Nothing
    } else {
        LineType::Unknown
    }
}

/// The kind of a line; the white space around it does not count.
pub open spec fn line_type(line: Seq<char>) -> LineType {
    kind_of(trimmed(line))
}

/// Finds the setting whose keyword `line` begins with.
pub fn find_setting(line: &[char]) -> (setting: Option<Setting>)
    ensures
        setting == setting_of(line@),
{
    if starts_with(line, AXIOM) {
        Some(Setting::Axiom)
    } else if starts_with(line, ITER) {
        Some(Setting::Iter)
    } else if starts_with(line, INITIAL_ROT) {
        Some(Setting::InitialRot)
    } else if starts_with(line, INITIAL_POS) {
        Some(Setting::InitialPos)
    } else if starts_with(line, INITIAL_THICKNESS) {
        Some(Setting::InitialThickness)
    } else if starts_with(line, BACKGROUND) {
        Some(Setting::Background)
    } else if starts_with(line, INITIAL_COLOR) {
        Some(Setting::InitialColor)
    } else if starts_with(line, CANVAS) {
        Some(Setting::Canvas)
    } else if starts_with(line, SEED) {
        Some(Setting::Seed)
    } else if starts_with(line, INJECT) {
        Some(Setting::Inject)
    } else {
        None
    }
}

/// Tells the kind of a line that has no white space at either end.
pub fn classify(line: &[char]) -> (kind: LineType)
    ensures
        kind == kind_of(line@),
{
    if find_setting(line).is_some() {
        LineType::Config
    } else if find_pair(line, '-', '>') < line.len() {
        LineType::Rule
    } else if line.len() >= 2 && line[1] == ':' {
        LineType::Operation
    } else if find_char(line, '=') < line.len() {
        LineType::Variable
    } else if line.len() == 0 {
        LineType::Nothing
    } else {
        LineType::Unknown
    }
}

/// The value of a setting: what follows the first space of the line.
pub open spec fn value_of(line: Seq<char>) -> Option<Seq<char>> {
    if has_char(line, ' ') {
        Some(line.skip(offset_of(line, ' ') + 1))
    } else {
        None
    }
}

/// A text or an error, with the text by its characters.
pub open spec fn text_outcome(outcome: Result<String, ParsingError>) -> Result<
    Seq<char>,
    ParsingError,
> {
    match outcome {
        Ok(text) => Ok(text@),
        Err(e) => Err(e),
    }
}

/// Two texts or an error, with the texts by their characters.
pub open spec fn pair_outcome(outcome: Result<(String, String), ParsingError>) -> Result<
    (Seq<char>, Seq<char>),
    ParsingError,
> {
    match outcome {
        Ok(pair) => Ok((pair.0@, pair.1@)),
        Err(e) => Err(e),
    }
}

/// Finds the value of a setting.
fn value(line: &[char]) -> (found: Option<&[char]>)
    ensures
        match found {
            Some(text) => value_of(line@) == Some(text@),
            None => value_of(line@) is None,
        },
{
    let space = find_char(line, ' ');
    if space < line.len() {
        Some(after(line, space + 1))
    } else {
        None
    }
}

/// The axiom that a line sets: the value of the line, which must be there.
pub open spec fn axiom_of(line: Seq<char>) -> Result<Seq<char>, ParsingError> {
    match value_of(line) {
        Some(text) => Ok(text),
        None => Err(ParsingError::InvalidFormat),
    }
}

/// Reads the axiom from its line.
pub fn parse_axiom(line: &str) -> (outcome: Result<String, ParsingError>)
    ensures
        text_outcome(outcome) == axiom_of(line@),
{
    let chars = to_chars(line);
    match value(chars.as_slice()) {
        Some(text) => Ok(to_text(text)),
        None => Err(ParsingError::InvalidFormat),
    }
}

/// The number of generations that a line sets: a whole number that is not
/// negative and that the machine's word holds.
pub open spec fn iter_of(line: Seq<char>) -> Result<usize, ParsingError> {
    match value_of(line) {
        Some(text) => match natural_usize(text) {
            Some(n) => Ok(n),
            None => Err(ParsingError::InvalidInteger),
        },
        None => Err(ParsingError::InvalidFormat),
    }
}

/// Reads the number of generations from its line.
pub fn parse_iter(line: &str) -> (outcome: Result<usize, ParsingError>)
    ensures
        outcome == iter_of(line@),
{
    let chars = to_chars(line);
    match value(chars.as_slice()) {
        Some(text) => match parse_usize(text) {
            Some(n) => Ok(n),
            None => Err(ParsingError::InvalidInteger),
        },
        None => Err(ParsingError::InvalidFormat),
    }
}

/// The number that a line sets: the value of the line, which must be a
/// literal for a number. The literal is kept as it is written.
pub open spec fn number_of(line: Seq<char>) -> Result<Seq<char>, ParsingError> {
    match value_of(line) {
        Some(text) => if is_float_literal(text) {
            Ok(text)
        } else {
            Err(ParsingError::InvalidFloatingPoint)
        },
        None => Err(ParsingError::InvalidFormat),
    }
}

/// Reads a number from the line of its setting.
fn parse_number(line: &str) -> (outcome: Result<String, ParsingError>)
    ensures
        text_outcome(outcome) == number_of(line@),
{
    let chars = to_chars(line);
    match value(chars.as_slice()) {
        Some(text) => if is_float(text) {
            Ok(to_text(text))
        } else {
            Err(ParsingError::InvalidFloatingPoint)
        },
        None => Err(ParsingError::InvalidFormat),
    }
}

/// Reads the turtle's first direction, in radians, from its line.
pub fn parse_initial_rot(line: &str) -> (outcome: Result<String, ParsingError>)
    ensures
        text_outcome(outcome) == number_of(line@),
{
    parse_number(line)
}

/// Reads the first width of the line from its line.
pub fn parse_initial_thickness(line: &str) -> (outcome: Result<String, ParsingError>)
    ensures
        text_outcome(outcome) == number_of(line@),
{
    parse_number(line)
}

/// The seed that a line sets: its value as it stands, and the empty text
/// where the line has none.
pub open spec fn seed_of(line: Seq<char>) -> Seq<char> {
    match value_of(line) {
        Some(text) => text,
        None => Seq::empty(),
    }
}

/// Reads the seed from its line. Every text is a seed, so this never fails.
pub fn parse_seed(line: &str) -> (outcome: Result<String, ParsingError>)
    ensures
        text_outcome(outcome) == Ok::<Seq<char>, ParsingError>(seed_of(line@)),
{
    let chars = to_chars(line);
    match value(chars.as_slice()) {
        Some(text) => Ok(to_text(text)),
        None => Ok(String::new()),
    }
}

/// What a field of a pair is to be.
#[derive(Debug, PartialEq, Eq, Clone, Copy, Structural)]
pub enum FieldKind {
    /// A whole number of 32 bits.
    Integer,
    /// A whole number of 32 bits that is not negative.
    Offset,
    /// A literal for a number.
    Number,
    /// Any text.
    Text,
}

/// `text` reads as a field of the given kind.
pub open spec fn is_field(kind: FieldKind, text: Seq<char>) -> bool {
    match kind {
        FieldKind::Integer => integer_i32(text) is Some,
        FieldKind::Offset => natural_u32(text) is Some,
        FieldKind::Number => is_float_literal(text),
        FieldKind::Text => true,
    }
}

/// The first field of a pair: what stands before the first comma, without
/// the white space around it.
pub open spec fn first_field(text: Seq<char>) -> Seq<char> {
    trimmed(text.take(offset_of(text, ',')))
}

/// The second field of a pair: what stands between the first comma and the
/// next one, or the end, without the white space around it.
pub open spec fn second_field(text: Seq<char>) -> Option<Seq<char>> {
    if has_char(text, ',') {
        let rest = text.skip(offset_of(text, ',') + 1);
        Some(trimmed(rest.take(offset_of(rest, ','))))
    } else {
        None
    }
}

/// The two fields of a pair. The first field is looked at first: where it
/// does not read as its kind, that is the error, whether or not a second
/// field is there. Further fields do not count.
pub open spec fn tuple_of(text: Seq<char>, first: FieldKind, second: FieldKind) -> Result<
    (Seq<char>, Seq<char>),
    ParsingError,
> {
    if !is_field(first, first_field(text)) {
        Err(ParsingError::InvalidTuple)
    } else {
        match second_field(text) {
            None => Err(ParsingError::InvalidFormat),
            Some(field) => if is_field(second, field) {
                Ok((first_field(text), field))
            } else {
                Err(ParsingError::InvalidTuple)
            },
        }
    }
}

/// Tells whether `text` reads as a field of the given kind.
fn check_field(kind: FieldKind, text: &[char]) -> (yes: bool)
    ensures
        yes == is_field(kind, text@),
{
    match kind {
        FieldKind::Integer => parse_i32(text).is_some(),
        FieldKind::Offset => parse_u32(text).is_some(),
        FieldKind::Number => is_float(text),
        FieldKind::Text => true,
    }
}

/// Reads the two fields of a pair from a run of characters.
fn read_tuple<'a>(text: &'a [char], first: FieldKind, second: FieldKind) -> (outcome: Result<
    (&'a [char], &'a [char]),
    ParsingError,
>)
    ensures
        match outcome {
            Ok(pair) => tuple_of(text@, first, second) == Ok::<
                (Seq<char>, Seq<char>),
                ParsingError,
            >((pair.0@, pair.1@)),
            Err(e) => tuple_of(text@, first, second) == Err::<(Seq<char>, Seq<char>), ParsingError>(
                e,
            ),
        },
{
    let comma = find_char(text, ',');
    let one = trim(before(text, comma));
    if !check_field(first, one) {
        return Err(ParsingError::InvalidTuple);
    }
    if comma >= text.len() {
        return Err(ParsingError::InvalidFormat);
    }
    let rest = after(text, comma + 1);
    let next = find_char(rest, ',');
    let two = trim(before(rest, next));
    if !check_field(second, two) {
        return Err(ParsingError::InvalidTuple);
    }
    Ok((one, two))
}

/// Reads a pair of fields, each of its kind, and hands them back as they
/// are written.
pub fn parse_tuple_arg(line: &str, first: FieldKind, second: FieldKind) -> (outcome: Result<
    (String, String),
    ParsingError,
>)
    ensures
        pair_outcome(outcome) == tuple_of(line@, first, second),
{
    let chars = to_chars(line);
    match read_tuple(chars.as_slice(), first, second) {
        Ok(pair) => Ok((to_text(pair.0), to_text(pair.1))),
        Err(e) => Err(e),
    }
}

/// The turtle's first position that a line sets: a pair of numbers.
pub open spec fn initial_pos_of(line: Seq<char>) -> Result<(Seq<char>, Seq<char>), ParsingError> {
    match value_of(line) {
        Some(text) => tuple_of(text, FieldKind::Number, FieldKind::Number),
        None => Err(ParsingError::InvalidFormat),
    }
}

/// Reads the turtle's first position from its line.
pub fn parse_initial_pos(line: &str) -> (outcome: Result<(String, String), ParsingError>)
    ensures
        pair_outcome(outcome) == initial_pos_of(line@),
{
    let chars = to_chars(line);
    match value(chars.as_slice()) {
        Some(text) => match read_tuple(text, FieldKind::Number, FieldKind::Number) {
            Ok(pair) => Ok((to_text(pair.0), to_text(pair.1))),
            Err(e) => Err(e),
        },
        None => Err(ParsingError::InvalidFormat),
    }
}

/// The size of the canvas that a line sets: a pair of whole numbers, neither
/// of them negative.
pub open spec fn canvas_of(line: Seq<char>) -> Result<(i32, i32), ParsingError> {
    match value_of(line) {
        Some(text) => match tuple_of(text, FieldKind::Integer, FieldKind::Integer) {
            Ok(pair) => {
                let width = integer_i32(pair.0)->0;
                let height = integer_i32(pair.1)->0;
                if width < 0 || height < 0 {
                    Err(ParsingError::InvalidInteger)
                } else {
                    Ok((width, height))
                }
            },
            Err(e) => Err(e),
        },
        None => Err(ParsingError::InvalidFormat),
    }
}

/// Reads the size of the canvas from its line.
pub fn parse_canvas(line: &str) -> (outcome: Result<(i32, i32), ParsingError>)
    ensures
        outcome == canvas_of(line@),
{
    let chars = to_chars(line);
    match value(chars.as_slice()) {
        Some(text) => match read_tuple(text, FieldKind::Integer, FieldKind::Integer) {
            Ok(pair) => match (parse_i32(pair.0), parse_i32(pair.1)) {
                (Some(width), Some(height)) => {
                    if width < 0 || height < 0 {
                        Err(ParsingError::InvalidInteger)
                    } else {
                        Ok((width, height))
                    }
                },
                _ => Err(ParsingError::InvalidTuple),
            },
            Err(e) => Err(e),
        },
        None => Err(ParsingError::InvalidFormat),
    }
}

/// An injection as it is written: an offset, a comma, and a text that is
/// not empty.
pub open spec fn injection_of(part: Seq<char>) -> Result<(u32, Seq<char>), ParsingError> {
    match tuple_of(part, FieldKind::Offset, FieldKind::Text) {
        Ok(pair) => if pair.1.len() == 0 {
            Err(ParsingError::InvalidTuple)
        } else {
            Ok((natural_u32(pair.0)->0, pair.1))
        },
        Err(e) => Err(e),
    }
}

/// The injections that a text lists, one space between each two. The first
/// one that does not read decides the error.
pub open spec fn injection_list_of(text: Seq<char>) -> Result<Seq<(u32, Seq<char>)>, ParsingError>
    decreases text.len(),
{
    let end = offset_of(text, ' ');
    match injection_of(text.take(end)) {
        Err(e) => Err(e),
        Ok(injection) => if 0 <= end < text.len() {
            match injection_list_of(text.skip(end + 1)) {
                Err(e) => Err(e),
                Ok(rest) => Ok(seq![injection] + rest),
            }
        } else {
            Ok(seq![injection])
        },
    }
}

/// The injections that a line sets: those that its value lists, and none
/// where the line has no value.
pub open spec fn injections_of(line: Seq<char>) -> Result<Seq<(u32, Seq<char>)>, ParsingError> {
    match value_of(line) {
        Some(text) => injection_list_of(text),
        None => Ok(Seq::empty()),
    }
}

/// Every injection of a list that reads has a text.
pub proof fn lemma_injections_have_text(text: Seq<char>)
    ensures
        injection_list_of(text) matches Ok(list) ==> forall|i: int|
            0 <= i < list.len() ==> (#[trigger] list[i]).1.len() > 0,
    decreases text.len(),
{
    let end = offset_of(text, ' ');
    if injection_of(text.take(end)) is Ok && 0 <= end < text.len() {
        lemma_injections_have_text(text.skip(end + 1));
    }
}

/// Reads one injection.
fn read_injection(part: &[char]) -> (outcome: Result<(u32, String), ParsingError>)
    ensures
        match outcome {
            Ok(injection) => injection_of(part@) == Ok::<(u32, Seq<char>), ParsingError>(
                (injection.0, injection.1@),
            ),
            Err(e) => injection_of(part@) == Err::<(u32, Seq<char>), ParsingError>(e),
        },
{
    match read_tuple(part, FieldKind::Offset, FieldKind::Text) {
        Ok(pair) => {
            if pair.1.len() == 0 {
                return Err(ParsingError::InvalidTuple);
            }
            match parse_u32(pair.0) {
                Some(offset) => Ok((offset, to_text(pair.1))),
                None => Err(ParsingError::InvalidTuple),
            }
        },
        Err(e) => Err(e),
    }
}

/// Reads a list of injections and adds them to `list`.
fn read_injection_list(text: &[char], list: &mut Vec<(u32, String)>) -> (outcome: Result<
    (),
    ParsingError,
>)
    ensures
        match outcome {
            Ok(_) => injection_list_of(text@) == Ok::<Seq<(u32, Seq<char>)>, ParsingError>(
                injection_views(final(list)@).skip(old(list)@.len() as int),
            ) && injection_views(final(list)@).take(old(list)@.len() as int) == injection_views(
                old(list)@,
            ) && final(list)@.len() >= old(list)@.len(),
            Err(e) => injection_list_of(text@) == Err::<Seq<(u32, Seq<char>)>, ParsingError>(e),
        },
    decreases text@.len(),
{
    let end = find_char(text, ' ');
    let ghost before_views = injection_views(list@);
    let ghost count = list@.len() as int;
    match read_injection(before(text, end)) {
        Err(e) => Err(e),
        Ok(injection) => {
            let ghost pair = (injection.0, injection.1@);
            list.push(injection);
            let ghost pushed = injection_views(list@);
            assert(pushed =~= before_views.push(pair));
            if end < text.len() {
                match read_injection_list(after(text, end + 1), list) {
                    Err(e) => Err(e),
                    Ok(_) => {
                        proof {
                            let views = injection_views(list@);
                            let rest = injection_list_of(text@.skip(end + 1))->Ok_0;
                            assert(views.take(count + 1) == pushed);
                            assert(views.skip(count + 1) == rest);
                            assert(views.take(count) =~= views.take(count + 1).take(count));
                            assert(views.skip(count) =~= seq![pair] + rest) by {
                                assert(views.skip(count)[0] == views.take(count + 1)[count]);
                                assert(views.skip(count).skip(1) =~= views.skip(count + 1));
                            }
                        }
                        Ok(())
                    },
                }
            } else {
                proof {
                    assert(pushed.skip(count) =~= seq![pair]);
                    assert(pushed.take(count) =~= before_views);
                }
                Ok(())
            }
        },
    }
}

/// Reads the injections from their line.
pub fn parse_injections(line: &str) -> (outcome: Result<Vec<(u32, String)>, ParsingError>)
    ensures
        match outcome {
            Ok(list) => injections_of(line@) == Ok::<Seq<(u32, Seq<char>)>, ParsingError>(
                injection_views(list@),
            ),
            Err(e) => injections_of(line@) == Err::<Seq<(u32, Seq<char>)>, ParsingError>(e),
        },
        outcome matches Ok(list) ==> forall|i: int|
            0 <= i < list@.len() ==> (#[trigger] list@[i]).1@.len() > 0,
{
    let chars = to_chars(line);
    let mut list: Vec<(u32, String)> = Vec::new();
    match value(chars.as_slice()) {
        Some(text) => match read_injection_list(text, &mut list) {
            Ok(_) => {
                proof {
                    assert(injection_views(list@).skip(0) =~= injection_views(list@));
                    lemma_injections_have_text(text@);
                    let read = injection_list_of(text@)->Ok_0;
                    assert(read == injection_views(list@));
                    assert forall|i: int| 0 <= i < list@.len() implies (#[trigger] list@[i]).1@.len()
                        > 0 by {
                        assert(read[i].1 == list@[i].1@);
                    }
                }
                Ok(list)
            },
            Err(e) => Err(e),
        },
        None => {
            assert(injection_views(list@) =~= Seq::<(u32, Seq<char>)>::empty());
            Ok(list)
        },
    }
}

/// The rule that a line declares. The line is cut in two at its first
/// marker `->`; the symbol is the first character of the left part, which
/// must have one once the white space around it is taken away, and the
/// replacement is the right part without the white space around it.
pub open spec fn rule_of(line: Seq<char>) -> Result<(char, Seq<char>), ParsingError> {
    let marker = offset_of_pair(line, '-', '>');
    let left = trimmed(line.take(marker));
    if has_pair(line, '-', '>') && left.len() > 0 {
        Ok((left[0], trimmed(line.skip(marker + 2))))
    } else {
        Err(ParsingError::InvalidFormat)
    }
}

/// Reads a rule from its line.
pub fn parse_rule(line: &str) -> (outcome: Result<(char, String), ParsingError>)
    ensures
        match outcome {
            Ok(rule) => rule_of(line@) == Ok::<(char, Seq<char>), ParsingError>((rule.0, rule.1@)),
            Err(e) => rule_of(line@) == Err::<(char, Seq<char>), ParsingError>(e),
        },
{
    let chars = to_chars(line);
    let text = chars.as_slice();
    let marker = find_pair(text, '-', '>');
    if marker >= text.len() {
        return Err(ParsingError::InvalidFormat);
    }
    proof {
        lemma_offset_of_pair(text@, '-', '>');
    }
    let left = trim(before(text, marker));
    if left.len() == 0 {
        return Err(ParsingError::InvalidFormat);
    }
    let symbol: char = left[0];
    Ok((symbol, to_text(trim(after(text, marker + 2)))))
}

/// The variable that a line declares. The line is cut in two at its first
/// sign `=`; the name is the left part and the value the right part, each
/// without the white space around it, and the value must be a literal for a
/// number.
pub open spec fn variable_of(line: Seq<char>) -> Result<(Seq<char>, Seq<char>), ParsingError> {
    let sign = offset_of(line, '=');
    if !has_char(line, '=') {
        Err(ParsingError::InvalidFormat)
    } else if !is_float_literal(trimmed(line.skip(sign + 1))) {
        Err(ParsingError::InvalidFloatingPoint)
    } else {
        Ok((trimmed(line.take(sign)), trimmed(line.skip(sign + 1))))
    }
}

/// Reads the declaration of a variable from its line.
pub fn parse_variable(line: &str) -> (outcome: Result<(String, String), ParsingError>)
    ensures
        pair_outcome(outcome) == variable_of(line@),
{
    let chars = to_chars(line);
    let text = chars.as_slice();
    let sign = find_char(text, '=');
    if sign >= text.len() {
        return Err(ParsingError::InvalidFormat);
    }
    let value = trim(after(text, sign + 1));
    if !is_float(value) {
        return Err(ParsingError::InvalidFloatingPoint);
    }
    Ok((to_text(trim(before(text, sign))), to_text(value)))
}

/// What the answer of the colour library stands for: its colour, or the
/// error of this crate for a colour that it refuses.
pub fn color_outcome(answer: Result<Color, ParseColorError>) -> (outcome: Result<
    Color,
    ParsingError,
>)
    ensures
        outcome == match answer {
            Ok(color) => Ok::<Color, ParsingError>(color),
            Err(_) => Err::<Color, ParsingError>(ParsingError::InvalidColor),
        },
{
    match answer {
        Ok(color) => Ok(color),
        Err(_) => Err(ParsingError::InvalidColor),
    }
}

/// The colour that a text writes in one of the notations of CSS.
pub open spec fn color_of(text: Seq<char>) -> Result<Color, ParsingError> {
    match css_color(text) {
        Some(color) => Ok(color),
        None => Err(ParsingError::InvalidColor),
    }
}

/// The colour that a line sets: that of its value, which must be there.
pub open spec fn color_setting_of(line: Seq<char>) -> Result<Color, ParsingError> {
    match value_of(line) {
        Some(text) => color_of(text),
        None => Err(ParsingError::InvalidFormat),
    }
}

/// Reads a colour from a run of characters.
fn read_color(text: &[char]) -> (outcome: Result<Color, ParsingError>)
    ensures
        outcome == color_of(text@),
{
    let written = to_text(text);
    color_outcome(parse_color(written.as_str()))
}

/// Reads a colour from the line of its setting.
fn parse_color_setting(line: &str) -> (outcome: Result<Color, ParsingError>)
    ensures
        outcome == color_setting_of(line@),
{
    let chars = to_chars(line);
    match value(chars.as_slice()) {
        Some(text) => read_color(text),
        None => Err(ParsingError::InvalidFormat),
    }
}

/// Reads the colour of the canvas from its line.
pub fn parse_background_color(line: &str) -> (outcome: Result<Color, ParsingError>)
    ensures
        outcome == color_setting_of(line@),
{
    parse_color_setting(line)
}

/// Reads the first colour of the line from its line.
pub fn parse_initial_color(line: &str) -> (outcome: Result<Color, ParsingError>)
    ensures
        outcome == color_setting_of(line@),
{
    parse_color_setting(line)
}

/// What the answer of the expression library stands for: the expression
/// with the text that it was read from, or the error of this crate for an
/// expression that it refuses.
pub fn expression_outcome(source: String, answer: Result<Expr, meval::Error>) -> (outcome: Result<
    Expression,
    ParsingError,
>)
    ensures
        match answer {
            Ok(parsed) => outcome == Ok::<Expression, ParsingError>(Expression { source, parsed }),
            Err(_) => outcome == Err::<Expression, ParsingError>(ParsingError::InvalidExpression),
        },
{
    match answer {
        Ok(parsed) => Ok(Expression { source, parsed }),
        Err(_) => Err(ParsingError::InvalidExpression),
    }
}

/// The expression that a text writes: the text without the white space
/// around it, where the expression library takes that.
pub open spec fn expression_of(text: Seq<char>) -> Result<Seq<char>, ParsingError> {
    if parsed_expression(trimmed(text)) is Some {
        Ok(trimmed(text))
    } else {
        Err(ParsingError::InvalidExpression)
    }
}

/// The expression of an operation that must have one.
pub open spec fn argument_of(argument: Option<Seq<char>>) -> Result<Seq<char>, ParsingError> {
    match argument {
        Some(text) => expression_of(text),
        None => Err(ParsingError::InvalidFormat),
    }
}

/// The operation that is made of an expression, or the error that stands in
/// the expression's place.
pub open spec fn made_of(
    expression: Result<Seq<char>, ParsingError>,
    make: spec_fn(Seq<char>) -> OperationView,
) -> Result<OperationView, ParsingError> {
    match expression {
        Ok(text) => Ok(make(text)),
        Err(e) => Err(e),
    }
}

/// The text of the expression in an assignment `name = expression`: what
/// follows the second space, and nothing where there is no second space.
pub open spec fn assigned_text(argument: Seq<char>) -> Seq<char> {
    match value_of(argument) {
        Some(text) => text,
        None => Seq::empty(),
    }
}

/// The operation that a text writes. Its first word decides: the keyword of
/// an operation, with the expression or the colour after it where the
/// operation takes one; or, in a text with a sign `=`, the name of a variable
/// that is given the value of the expression after the second space.
pub open spec fn operation_of(text: Seq<char>) -> Result<OperationView, ParsingError> {
    let keyword = text.take(offset_of(text, ' '));
    let argument = value_of(text);
    if keyword == FORWARD@ {
        made_of(argument_of(argument), |e: Seq<char>| OperationView::Forward(e))
    } else if keyword == JUMP@ {
        made_of(argument_of(argument), |e: Seq<char>| OperationView::Jump(e))
    } else if keyword == DOT@ {
        made_of(argument_of(argument), |e: Seq<char>| OperationView::Dot(e))
    } else if keyword == ROTATE@ {
        made_of(argument_of(argument), |e: Seq<char>| OperationView::Rotate(e))
    } else if keyword == THICKNESS@ {
        made_of(argument_of(argument), |e: Seq<char>| OperationView::Thickness(e))
    } else if keyword == IGNORE@ {
        made_of(argument_of(argument), |e: Seq<char>| OperationView::Ignore(e))
    } else if keyword == PUSH@ {
        Ok(OperationView::PushStack)
    } else if keyword == POP@ {
        Ok(OperationView::PopStack)
    } else if keyword == COLOR@ {
        match argument {
            Some(written) => match color_of(written) {
                Ok(color) => Ok(OperationView::SetColor(color)),
                Err(e) => Err(e),
            },
            None => Err(ParsingError::InvalidFormat),
        }
    } else if has_char(text, '=') {
        match argument {
            Some(rest) => made_of(
                expression_of(assigned_text(rest)),
                |e: Seq<char>| OperationView::SetVar(keyword, e),
            ),
            None => Err(ParsingError::InvalidFormat),
        }
    } else {
        Err(ParsingError::InvalidOperation)
    }
}

/// Reads an expression from a run of characters.
fn read_expression(text: &[char]) -> (outcome: Result<Expression, ParsingError>)
    ensures
        match outcome {
            Ok(expression) => expression.wf() && expression_of(text@) == Ok::<
                Seq<char>,
                ParsingError,
            >(expression@),
            Err(e) => expression_of(text@) == Err::<Seq<char>, ParsingError>(e),
        },
{
    let source = to_text(trim(text));
    proof {
        lemma_trimmed_is_tight(text@);
    }
    let answer = parse_expression(source.as_str());
    expression_outcome(source, answer)
}

/// Reads the expression of an operation that must have one.
fn read_argument(argument: Option<&[char]>) -> (outcome: Result<Expression, ParsingError>)
    ensures
        match outcome {
            Ok(expression) => expression.wf() && argument_of(
                match argument {
                    Some(text) => Some(text@),
                    None => None,
                },
            ) == Ok::<Seq<char>, ParsingError>(expression@),
            Err(e) => argument_of(
                match argument {
                    Some(text) => Some(text@),
                    None => None,
                },
            ) == Err::<Seq<char>, ParsingError>(e),
        },
{
    match argument {
        Some(text) => read_expression(text),
        None => Err(ParsingError::InvalidFormat),
    }
}

/// An operation or an error, with the operation by its view.
pub open spec fn operation_outcome(outcome: Result<Operation, ParsingError>) -> Result<
    OperationView,
    ParsingError,
> {
    match outcome {
        Ok(operation) => Ok(operation@),
        Err(e) => Err(e),
    }
}

/// Reads an operation from a run of characters.
fn read_operation(text: &[char]) -> (outcome: Result<Operation, ParsingError>)
    ensures
        operation_outcome(outcome) == operation_of(text@),
        outcome matches Ok(operation) ==> operation.wf(),
{
    let space = find_char(text, ' ');
    let keyword = before(text, space);
    let argument = value(text);
    if same_text(keyword, FORWARD) {
        match read_argument(argument) {
            Ok(e) => Ok(Operation::Forward(e)),
            Err(e) => Err(e),
        }
    } else if same_text(keyword, JUMP) {
        match read_argument(argument) {
            Ok(e) => Ok(Operation::Jump(e)),
            Err(e) => Err(e),
        }
    } else if same_text(keyword, DOT) {
        match read_argument(argument) {
            Ok(e) => Ok(Operation::Dot(e)),
            Err(e) => Err(e),
        }
    } else if same_text(keyword, ROTATE) {
        match read_argument(argument) {
            Ok(e) => Ok(Operation::Rotate(e)),
            Err(e) => Err(e),
        }
    } else if same_text(keyword, THICKNESS) {
        match read_argument(argument) {
            Ok(e) => Ok(Operation::Thickness(e)),
            Err(e) => Err(e),
        }
    } else if same_text(keyword, IGNORE) {
        match read_argument(argument) {
            Ok(e) => Ok(Operation::Ignore(e)),
            Err(e) => Err(e),
        }
    } else if same_text(keyword, PUSH) {
        Ok(Operation::PushStack)
    } else if same_text(keyword, POP) {
        Ok(Operation::PopStack)
    } else if same_text(keyword, COLOR) {
        match argument {
            Some(written) => match read_color(written) {
                Ok(color) => Ok(Operation::SetColor(color)),
                Err(e) => Err(e),
            },
            None => Err(ParsingError::InvalidFormat),
        }
    } else if find_char(text, '=') < text.len() {
        match argument {
            Some(rest) => {
                let assigned: &[char] = match value(rest) {
                    Some(written) => written,
                    None => after(rest, rest.len()),
                };
                match read_expression(assigned) {
                    Ok(e) => Ok(Operation::SetVar(to_text(keyword), e)),
                    Err(e) => Err(e),
                }
            },
            None => Err(ParsingError::InvalidFormat),
        }
    } else {
        Err(ParsingError::InvalidOperation)
    }
}

/// Reads an operation: a keyword with what it takes, or an assignment to a
/// variable.
pub fn parse_operation(operation: &str) -> (outcome: Result<Operation, ParsingError>)
    ensures
        operation_outcome(outcome) == operation_of(operation@),
        outcome matches Ok(made) ==> made.wf(),
{
    let chars = to_chars(operation);
    read_operation(chars.as_slice())
}

/// The binding that a line declares: the symbol is the first character of
/// the line, and the operation is written after the second character,
/// which is the marker. White space around the operation does not count.
pub open spec fn binding_of(line: Seq<char>) -> Result<(char, OperationView), ParsingError> {
    if line.len() < 2 {
        Err(ParsingError::InvalidFormat)
    } else {
        match operation_of(trimmed(line.skip(2))) {
            Ok(operation) => Ok((line[0], operation)),
            Err(e) => Err(e),
        }
    }
}

/// Reads the binding of an operation to a symbol from its line.
pub fn parse_char_operation(line: &str) -> (outcome: Result<(char, Operation), ParsingError>)
    ensures
        match outcome {
            Ok(binding) => binding.1.wf() && binding_of(line@) == Ok::<
                (char, OperationView),
                ParsingError,
            >((binding.0, binding.1@)),
            Err(e) => binding_of(line@) == Err::<(char, OperationView), ParsingError>(e),
        },
{
    let chars = to_chars(line);
    let text = chars.as_slice();
    if text.len() < 2 {
        return Err(ParsingError::InvalidFormat);
    }
    let symbol: char = text[0];
    match read_operation(trim(after(text, 2))) {
        Ok(operation) => Ok((symbol, operation)),
        Err(e) => Err(e),
    }
}

/// The fields of a pair that reads are of their kinds.
pub proof fn lemma_tuple_fields(text: Seq<char>, first: FieldKind, second: FieldKind)
    ensures
        tuple_of(text, first, second) matches Ok(pair) ==> is_field(first, pair.0) && is_field(
            second,
            pair.1,
        ),
{
}

} // verus!
