//! What is to be drawn: the system, the turtle's first pose, the canvas, and
//! what each symbol makes the turtle do.

use crate::engine::{rule_map, LSystem};
use crate::inject::{apply, patched};
use crate::number::{all_digits, digit_run, is_decimal_number, is_digit, is_float_literal};
use crate::outside::{color_from_rgba8, css_color, get_rng, parse_color, parsed_expression};
use crate::outside::{rgba8_color, seeded_generator};
use csscolorparser::Color;
use meval::Expr;
use rand_pcg::Pcg64;
use vstd::prelude::*;
use vstd::string::StringExecFns;

verus! {

/// An arithmetic expression: the text that was written, and what the
/// expression library has made of it. It is evaluated anew each time its
/// operation is carried out.
#[derive(Debug, PartialEq)]
pub struct Expression {
    pub source: String,
    pub parsed: Expr,
}

impl View for Expression {
    type V = Seq<char>;

    open spec fn view(&self) -> Seq<char> {
        self.source@
    }
}

impl Expression {
    /// The parsed form is the one that belongs to the text.
    pub open spec fn wf(&self) -> bool {
        parsed_expression(self.source@) == Some(self.parsed)
    }
}

/// What a symbol makes the turtle do.
#[derive(Debug, PartialEq)]
pub enum Operation {
    /// Move by the value of the expression and draw a line.
    Forward(Expression),
    /// Move without drawing.
    Jump(Expression),
    /// Draw a disc of the given radius where the turtle stands.
    Dot(Expression),
    /// Turn by the value of the expression, in radians.
    Rotate(Expression),
    /// Set the width of the line.
    Thickness(Expression),
    /// Pass over as many of the following symbols as the expression says.
    Ignore(Expression),
    /// Save pose and variables.
    PushStack,
    /// Go back to what was saved last.
    PopStack,
    /// Set the colour of the line.
    SetColor(Color),
    /// Give a variable the value of the expression.
    SetVar(String, Expression),
}

/// An operation as a value of mathematics: each text by its characters.
pub ghost enum OperationView {
    Forward(Seq<char>),
    Jump(Seq<char>),
    Dot(Seq<char>),
    Rotate(Seq<char>),
    Thickness(Seq<char>),
    Ignore(Seq<char>),
    PushStack,
    PopStack,
    SetColor(Color),
    SetVar(Seq<char>, Seq<char>),
}

impl View for Operation {
    type V = OperationView;

    open spec fn view(&self) -> OperationView {
        match *self {
            Operation::Forward(e) => OperationView::Forward(e@),
            Operation::Jump(e) => OperationView::Jump(e@),
            Operation::Dot(e) => OperationView::Dot(e@),
            Operation::Rotate(e) => OperationView::Rotate(e@),
            Operation::Thickness(e) => OperationView::Thickness(e@),
            Operation::Ignore(e) => OperationView::Ignore(e@),
            Operation::PushStack => OperationView::PushStack,
            Operation::PopStack => OperationView::PopStack,
            Operation::SetColor(c) => OperationView::SetColor(c),
            Operation::SetVar(name, e) => OperationView::SetVar(name@, e@),
        }
    }
}

impl Operation {
    /// The expression of the operation, where it has one, is well formed.
    pub open spec fn wf(&self) -> bool {
        match *self {
            Operation::Forward(e) => e.wf(),
            Operation::Jump(e) => e.wf(),
            Operation::Dot(e) => e.wf(),
            Operation::Rotate(e) => e.wf(),
            Operation::Thickness(e) => e.wf(),
            Operation::Ignore(e) => e.wf(),
            Operation::PushStack => true,
            Operation::PopStack => true,
            Operation::SetColor(_) => true,
            Operation::SetVar(_, e) => e.wf(),
        }
    }
}

/// The views of a list of operations, in its order.
pub open spec fn operation_views(operations: Seq<Operation>) -> Seq<OperationView> {
    Seq::new(operations.len(), |i: int| operations[i]@)
}

/// The injections with each text by its characters.
pub open spec fn injection_views(injections: Seq<(u32, String)>) -> Seq<(u32, Seq<char>)> {
    Seq::new(injections.len(), |i: int| (injections[i].0, injections[i].1@))
}

/// The variables with name and value by their characters.
pub open spec fn variable_views(variables: Seq<(String, String)>) -> Seq<(Seq<char>, Seq<char>)> {
    Seq::new(variables.len(), |i: int| (variables[i].0@, variables[i].1@))
}

/// The bindings with each list of operations by its views.
pub open spec fn binding_views(bindings: Seq<(char, Vec<Operation>)>) -> Seq<
    (char, Seq<OperationView>),
> {
    Seq::new(bindings.len(), |i: int| (bindings[i].0, operation_views(bindings[i].1@)))
}

/// The rules with each replacement by its characters.
pub open spec fn rule_views(rules: Map<u32, String>) -> Map<u32, Seq<char>> {
    Map::new(|k: u32| rules.contains_key(k), |k: u32| rules[k]@)
}

/// Where `name` stands in a list of variables, or the length of the list.
pub open spec fn variable_index(variables: Seq<(Seq<char>, Seq<char>)>, name: Seq<char>) -> int
    decreases variables.len(),
{
    if variables.len() == 0 || variables[0].0 == name {
        0
    } else {
        1 + variable_index(variables.drop_first(), name)
    }
}

/// The list of variables after `name` has been given `value`: the value
/// takes the place of an earlier one for that name, or the pair comes last.
pub open spec fn with_variable(
    variables: Seq<(Seq<char>, Seq<char>)>,
    name: Seq<char>,
    value: Seq<char>,
) -> Seq<(Seq<char>, Seq<char>)> {
    let at = variable_index(variables, name);
    if 0 <= at < variables.len() {
        variables.update(at, (name, value))
    } else {
        variables.push((name, value))
    }
}

/// Where `symbol` stands in a list of bindings, or the length of the list.
pub open spec fn binding_index(bindings: Seq<(char, Seq<OperationView>)>, symbol: char) -> int
    decreases bindings.len(),
{
    if bindings.len() == 0 || bindings[0].0 == symbol {
        0
    } else {
        1 + binding_index(bindings.drop_first(), symbol)
    }
}

/// The bindings after one more operation has been bound to `symbol`: it
/// comes after those that the symbol has already.
pub open spec fn with_operation(
    bindings: Seq<(char, Seq<OperationView>)>,
    symbol: char,
    operation: OperationView,
) -> Seq<(char, Seq<OperationView>)> {
    let at = binding_index(bindings, symbol);
    if 0 <= at < bindings.len() {
        bindings.update(at, (symbol, bindings[at].1.push(operation)))
    } else {
        bindings.push((symbol, seq![operation]))
    }
}

/// The operations that are bound to `symbol`, in the order in which they
/// were declared; none where the symbol is not bound.
pub open spec fn operations_of(bindings: Seq<(char, Seq<OperationView>)>, symbol: char) -> Seq<
    OperationView,
> {
    let at = binding_index(bindings, symbol);
    if 0 <= at < bindings.len() {
        bindings[at].1
    } else {
        Seq::empty()
    }
}

/// A rendering specification as a value of mathematics.
pub ghost struct RendererView {
    pub start: Seq<char>,
    pub rules: Map<u32, Seq<char>>,
    pub iter: usize,
    pub initial_pos: (Seq<char>, Seq<char>),
    pub initial_rot: Seq<char>,
    pub initial_thickness: Seq<char>,
    pub background_color: Color,
    pub initial_color: Color,
    pub canvas: (i32, i32),
    pub seed: Seq<char>,
    pub injections: Seq<(u32, Seq<char>)>,
    pub variables: Seq<(Seq<char>, Seq<char>)>,
    pub operations: Seq<(char, Seq<OperationView>)>,
}

/// All that a drawing is made from. Numbers that may have a fraction are
/// held as the literals that were read; `expression` holds the expanded
/// string with its injections, as `update_expr` left it.
#[derive(Debug, PartialEq)]
pub struct LSystemRenderer {
    pub lsystem: LSystem,
    pub iter: usize,
    pub initial_pos: (String, String),
    pub initial_rot: String,
    pub initial_thickness: String,
    pub background_color: Color,
    pub initial_color: Color,
    pub canvas: (i32, i32),
    pub seed: String,
    pub injections: Vec<(u32, String)>,
    pub variables: Vec<(String, String)>,
    pub operations: Vec<(char, Vec<Operation>)>,
    pub expression: String,
    pub rng: Pcg64,
}

impl View for LSystemRenderer {
    type V = RendererView;

    open spec fn view(&self) -> RendererView {
        RendererView {
            start: self.lsystem.start@,
            rules: rule_views(self.lsystem.rules@),
            iter: self.iter,
            initial_pos: (self.initial_pos.0@, self.initial_pos.1@),
            initial_rot: self.initial_rot@,
            initial_thickness: self.initial_thickness@,
            background_color: self.background_color,
            initial_color: self.initial_color,
            canvas: self.canvas,
            seed: self.seed@,
            injections: injection_views(self.injections@),
            variables: variable_views(self.variables@),
            operations: binding_views(self.operations@),
        }
    }
}

/// No name occurs twice in a list of variables.
pub open spec fn distinct_names(variables: Seq<(Seq<char>, Seq<char>)>) -> bool {
    forall|i: int, j: int|
        0 <= i < j < variables.len() ==> (#[trigger] variables[i]).0 != (#[trigger] variables[j]).0
}

/// No symbol occurs twice in a list of bindings.
pub open spec fn distinct_symbols(bindings: Seq<(char, Seq<OperationView>)>) -> bool {
    forall|i: int, j: int|
        0 <= i < j < bindings.len() ==> (#[trigger] bindings[i]).0 != (#[trigger] bindings[j]).0
}

impl LSystemRenderer {
    /// What holds of a specification that was read from text: its numbers
    /// are literals, its canvas has a size, each injection has a text, no
    /// variable and no symbol is declared twice, and each expression is the
    /// parsed form of its text.
    pub open spec fn wf(&self) -> bool {
        &&& is_float_literal(self.initial_pos.0@)
        &&& is_float_literal(self.initial_pos.1@)
        &&& is_float_literal(self.initial_rot@)
        &&& is_float_literal(self.initial_thickness@)
        &&& self.canvas.0 >= 0
        &&& self.canvas.1 >= 0
        &&& forall|i: int|
            0 <= i < self.injections@.len() ==> (#[trigger] self.injections@[i]).1@.len() > 0
        &&& forall|i: int|
            0 <= i < self.variables@.len() ==> is_float_literal(
                (#[trigger] self.variables@[i]).1@,
            )
        &&& distinct_names(variable_views(self.variables@))
        &&& distinct_symbols(binding_views(self.operations@))
        &&& forall|i: int, j: int|
            0 <= i < self.operations@.len() && 0 <= j < self.operations@[i].1@.len()
                ==> (#[trigger] self.operations@[i].1@[j]).wf()
    }
}

/// The colour of a name as the colour library reads it, and the colour of
/// the given channels should it not know the name.
pub open spec fn named_color(name: Seq<char>, r: u8, g: u8, b: u8) -> Color {
    match css_color(name) {
        Some(color) => color,
        None => rgba8_color(r, g, b, 255),
    }
}

/// Reads the colour of a name, and makes the colour of the given channels,
/// with nothing of it transparent, where the name is not known.
pub fn color_by_name(name: &str, r: u8, g: u8, b: u8) -> (color: Color)
    ensures
        color == named_color(name@, r, g, b),
{
    match parse_color(name) {
        Ok(color) => color,
        Err(_) => color_from_rgba8(r, g, b, 255),
    }
}

/// The specification that an empty configuration stands for.
pub open spec fn default_view() -> RendererView {
    RendererView {
        start: Seq::empty(),
        rules: Map::empty(),
        iter: 1,
        initial_pos: ("375"@, "560"@),
        initial_rot: "0"@,
        initial_thickness: "1"@,
        background_color: named_color("white"@, 255, 255, 255),
        initial_color: named_color("black"@, 0, 0, 0),
        canvas: (750i32, 750i32),
        seed: "Default Seed"@,
        injections: Seq::empty(),
        variables: Seq::empty(),
        operations: Seq::empty(),
    }
}

/// A text of one to three digits is a literal for a number.
pub proof fn lemma_short_digits_are_literal(text: Seq<char>)
    requires
        1 <= text.len() <= 3,
        all_digits(text),
    ensures
        is_float_literal(text),
{
    reveal_with_fuel(digit_run, 4);
    assert(is_digit(text[0]));
    if text.len() >= 2 {
        assert(is_digit(text[1]));
        assert(text.drop_first()[0] == text[1]);
    }
    if text.len() >= 3 {
        assert(is_digit(text[2]));
        assert(text.drop_first().drop_first()[0] == text[2]);
    }
    assert(digit_run(text) == text.len());
    assert(text.skip(text.len() as int).len() == 0);
    assert(is_decimal_number(text));
}

impl Default for LSystemRenderer {
    /// The specification that an empty configuration stands for: no axiom
    /// and no rule, one generation, a canvas of 750 by 750 in the colour
    /// `white` with the turtle at (375, 560), a line of width 1 in the
    /// colour `black`, and no injection, variable or operation.
    fn default() -> (renderer: Self)
        ensures
            renderer.wf(),
            renderer@ == default_view(),
            renderer.expression@.len() == 0,
            renderer.rng == seeded_generator("Default Seed"@),
    {
        let seed = String::from_str("Default Seed");
        let rng = get_rng(seed.as_str());
        let renderer = LSystemRenderer {
            lsystem: LSystem::new("", &[]),
            iter: 1,
            initial_pos: (String::from_str("375"), String::from_str("560")),
            initial_rot: String::from_str("0"),
            initial_thickness: String::from_str("1"),
            background_color: color_by_name("white", 255, 255, 255),
            initial_color: color_by_name("black", 0, 0, 0),
            canvas: (750, 750),
            seed,
            injections: Vec::new(),
            variables: Vec::new(),
            operations: Vec::new(),
            expression: String::new(),
            rng,
        };
        proof {
            reveal_strlit("");
            reveal_strlit("375");
            reveal_strlit("560");
            reveal_strlit("0");
            reveal_strlit("1");
            lemma_short_digits_are_literal("375"@);
            lemma_short_digits_are_literal("560"@);
            lemma_short_digits_are_literal("0"@);
            lemma_short_digits_are_literal("1"@);
            assert(rule_map(Seq::<(char, String)>::empty()) =~= Map::<
                u32,
                String,
            >::empty());
            assert(renderer.lsystem.start@ =~= Seq::<char>::empty());
            assert(rule_views(renderer.lsystem.rules@) =~= Map::<u32, Seq<char>>::empty());
            assert(injection_views(renderer.injections@) =~= Seq::<(u32, Seq<char>)>::empty());
            assert(variable_views(renderer.variables@) =~= Seq::<(Seq<char>, Seq<char>)>::empty());
            assert(binding_views(renderer.operations@) =~= Seq::<
                (char, Seq<OperationView>),
            >::empty());
        }
        renderer
    }
}

impl LSystemRenderer {
    /// A specification with the given parts. Its expanded string is that of
    /// the system after `iter` generations, without the injections, and its
    /// generator is the one that belongs to the seed.
    pub fn new(
        lsystem: LSystem,
        iter: usize,
        initial_pos: (String, String),
        initial_rot: String,
        initial_thickness: String,
        background_color: Color,
        initial_color: Color,
        canvas: (i32, i32),
        seed: String,
        injections: Vec<(u32, String)>,
        variables: Vec<(String, String)>,
        operations: Vec<(char, Vec<Operation>)>,
    ) -> (renderer: Self)
        ensures
            renderer.lsystem == lsystem,
            renderer.iter == iter,
            renderer.initial_pos == initial_pos,
            renderer.initial_rot == initial_rot,
            renderer.initial_thickness == initial_thickness,
            renderer.background_color == background_color,
            renderer.initial_color == initial_color,
            renderer.canvas == canvas,
            renderer.seed == seed,
            renderer.injections == injections,
            renderer.variables == variables,
            renderer.operations == operations,
            renderer.expression@ == lsystem.expansion(iter as nat),
            renderer.rng == seeded_generator(seed@),
    {
        let expression = lsystem.expand(iter);
        let rng = get_rng(seed.as_str());
        LSystemRenderer {
            lsystem,
            iter,
            initial_pos,
            initial_rot,
            initial_thickness,
            background_color,
            initial_color,
            canvas,
            seed,
            injections,
            variables,
            operations,
            expression,
            rng,
        }
    }

    /// The string that the turtle is to walk: the expansion of the system
    /// with the injections set into it.
    pub open spec fn patched_expansion(&self) -> Seq<char> {
        patched(self.lsystem.expansion(self.iter as nat), injection_views(self.injections@))
    }

    /// Expands the system anew and sets the injections into the result.
    /// Nothing but the expanded string changes.
    pub fn update_expr(&mut self)
        ensures
            final(self).expression@ == old(self).patched_expansion(),
            *final(self) == (LSystemRenderer { expression: final(self).expression, ..*old(self) }),
    {
        let expanded = self.lsystem.expand(self.iter);
        self.expression = apply(expanded.as_str(), &self.injections);
    }

    /// Starts the generator anew from the seed. Nothing but the generator
    /// changes.
    pub fn update_rng(&mut self)
        ensures
            final(self).rng == seeded_generator(old(self).seed@),
            *final(self) == (LSystemRenderer { rng: final(self).rng, ..*old(self) }),
    {
        self.rng = get_rng(self.seed.as_str());
    }
}

/// The generator depends on the seed alone: two specifications with the same
/// seed have the same generator once each has started it anew.
pub proof fn lemma_same_seed_same_generator(first: LSystemRenderer, second: LSystemRenderer)
    requires
        first.seed@ == second.seed@,
        first.rng == seeded_generator(first.seed@),
        second.rng == seeded_generator(second.seed@),
    ensures
        first.rng == second.rng,
{
}

} // verus!
