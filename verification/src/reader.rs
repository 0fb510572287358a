//! Bringing a line into a rendering specification: the line is read as what
//! its kind says, and what it declares takes its place among the settings,
//! rules, variables and operations that are already there.

use crate::engine::rule_key;
use crate::parser::{axiom_of, binding_of, canvas_of, color_setting_of, initial_pos_of};
use crate::parser::{classify, find_setting, lemma_tuple_fields, line_type, value_of};
use crate::parser::{injections_of, iter_of, kind_of, number_of, rule_of, seed_of, setting_of};
use crate::parser::{parse_axiom, parse_background_color, parse_canvas, parse_char_operation};
use crate::parser::{parse_initial_color, parse_initial_pos, parse_initial_rot};
use crate::parser::{parse_initial_thickness, parse_injections, parse_iter, parse_rule};
use crate::parser::{parse_seed, parse_variable, variable_of};
use crate::parser::{FieldKind, LineType, ParsingError, Setting};
use crate::renderer::{binding_index, binding_views, distinct_names, distinct_symbols};
use crate::renderer::{operation_views, rule_views, variable_index, variable_views};
use crate::renderer::{with_operation, with_variable};
use crate::renderer::{LSystemRenderer, Operation, OperationView, RendererView};
use crate::text::{to_chars, to_text, trim, trimmed};
use vstd::prelude::*;

verus! {

broadcast use vstd::std_specs::hash::group_hash_axioms;

/// What can be brought up to date by a line of configuration.
pub trait Updatable<T> {
    /// Takes the line in, and tells of what kind it was.
    fn update(&mut self, conf: T) -> Result<LineType, ParsingError>;

    /// Tells the kind of the line, and changes nothing.
    fn get_line_type(&self, conf: T) -> LineType;
}

/// A specification after a setting has been read from its line.
pub open spec fn setting_effect(view: RendererView, setting: Setting, line: Seq<char>) -> Result<
    RendererView,
    ParsingError,
> {
    match setting {
        Setting::Axiom => match axiom_of(line) {
            Ok(start) => Ok(RendererView { start, ..view }),
            Err(e) => Err(e),
        },
        Setting::Iter => match iter_of(line) {
            Ok(iter) => Ok(RendererView { iter, ..view }),
            Err(e) => Err(e),
        },
        Setting::InitialRot => match number_of(line) {
            Ok(initial_rot) => Ok(RendererView { initial_rot, ..view }),
            Err(e) => Err(e),
        },
        Setting::InitialPos => match initial_pos_of(line) {
            Ok(initial_pos) => Ok(RendererView { initial_pos, ..view }),
            Err(e) => Err(e),
        },
        Setting::InitialThickness => match number_of(line) {
            Ok(initial_thickness) => Ok(RendererView { initial_thickness, ..view }),
            Err(e) => Err(e),
        },
        Setting::Background => match color_setting_of(line) {
            Ok(background_color) => Ok(RendererView { background_color, ..view }),
            Err(e) => Err(e),
        },
        Setting::InitialColor => match color_setting_of(line) {
            Ok(initial_color) => Ok(RendererView { initial_color, ..view }),
            Err(e) => Err(e),
        },
        Setting::Canvas => match canvas_of(line) {
            Ok(canvas) => Ok(RendererView { canvas, ..view }),
            Err(e) => Err(e),
        },
        Setting::Seed => Ok(RendererView { seed: seed_of(line), ..view }),
        Setting::Inject => match injections_of(line) {
            Ok(injections) => Ok(RendererView { injections, ..view }),
            Err(e) => Err(e),
        },
    }
}

/// A specification after a line without white space around it has been
/// taken in, or the error with which the line is refused. A setting takes
/// the place of the one before; a rule takes the place of the rule that its
/// symbol had; a variable takes the place of the one of its name; an
/// operation comes after those that its symbol has already.
pub open spec fn tight_effect(view: RendererView, line: Seq<char>) -> Result<
    RendererView,
    ParsingError,
> {
    match kind_of(line) {
        LineType::Nothing => Ok(view),
        LineType::Config => setting_effect(view, setting_of(line)->0, line),
        LineType::Rule => match rule_of(line) {
            Ok(rule) => Ok(RendererView { rules: view.rules.insert(rule_key(rule.0), rule.1), ..view }),
            Err(e) => Err(e),
        },
        LineType::Operation => match binding_of(line) {
            Ok(binding) => Ok(
                RendererView {
                    operations: with_operation(view.operations, binding.0, binding.1),
                    ..view
                },
            ),
            Err(e) => Err(e),
        },
        LineType::Variable => match variable_of(line) {
            Ok(variable) => Ok(
                RendererView {
                    variables: with_variable(view.variables, variable.0, variable.1),
                    ..view
                },
            ),
            Err(e) => Err(e),
        },
        LineType::Unknown => Err(ParsingError::UnknownAction),
    }
}

/// A specification after a line has been taken in; the white space around
/// the line does not count.
pub open spec fn effect(view: RendererView, line: Seq<char>) -> Result<RendererView, ParsingError> {
    tight_effect(view, trimmed(line))
}

/// `variable_index` is the place of the first variable of that name.
pub proof fn lemma_variable_index(variables: Seq<(Seq<char>, Seq<char>)>, name: Seq<char>)
    ensures
        0 <= variable_index(variables, name) <= variables.len(),
        forall|i: int| 0 <= i < variable_index(variables, name) ==> variables[i].0 != name,
        variable_index(variables, name) < variables.len() ==> variables[variable_index(
            variables,
            name,
        )].0 == name,
    decreases variables.len(),
{
    if variables.len() == 0 || variables[0].0 == name {
    } else {
        let rest = variables.drop_first();
        lemma_variable_index(rest, name);
        assert forall|i: int| 0 <= i < variable_index(variables, name) implies variables[i].0
            != name by {
            if i > 0 {
                assert(variables[i] == rest[i - 1]);
            }
        }
    }
}

/// `binding_index` is the place of the binding of that symbol.
pub proof fn lemma_binding_index(bindings: Seq<(char, Seq<OperationView>)>, symbol: char)
    ensures
        0 <= binding_index(bindings, symbol) <= bindings.len(),
        forall|i: int| 0 <= i < binding_index(bindings, symbol) ==> bindings[i].0 != symbol,
        binding_index(bindings, symbol) < bindings.len() ==> bindings[binding_index(
            bindings,
            symbol,
        )].0 == symbol,
    decreases bindings.len(),
{
    if bindings.len() == 0 || bindings[0].0 == symbol {
    } else {
        let rest = bindings.drop_first();
        lemma_binding_index(rest, symbol);
        assert forall|i: int| 0 <= i < binding_index(bindings, symbol) implies bindings[i].0
            != symbol by {
            if i > 0 {
                assert(bindings[i] == rest[i - 1]);
            }
        }
    }
}

/// Gives the variable `name` the value `value`.
pub fn set_variable(variables: &mut Vec<(String, String)>, name: String, value: String)
    ensures
        variable_views(final(variables)@) == with_variable(
            variable_views(old(variables)@),
            name@,
            value@,
        ),
        forall|i: int|
            0 <= i < final(variables)@.len() ==> (#[trigger] final(variables)@[i]).1@ == value@ || (
            i < old(variables)@.len() && final(variables)@[i] == old(variables)@[i]),
{
    let ghost views = variable_views(variables@);
    let mut i: usize = 0;
    proof {
        assert(views.skip(0) =~= views);
    }
    while i < variables.len() && !(variables[i].0 == name)
        invariant
            i <= variables.len(),
            views == variable_views(variables@),
            variables@ == old(variables)@,
            variable_index(views, name@) == i + variable_index(views.skip(i as int), name@),
        decreases variables.len() - i,
    {
        proof {
            assert(views.skip(i as int).drop_first() =~= views.skip(i + 1));
            assert(views.skip(i as int)[0] == views[i as int]);
        }
        i += 1;
    }
    if i < variables.len() {
        proof {
            assert(views.skip(i as int)[0] == views[i as int]);
        }
        variables.set(i, (name, value));
        assert(variable_views(variables@) =~= views.update(i as int, (name@, value@)));
    } else {
        variables.push((name, value));
        assert(variable_views(variables@) =~= views.push((name@, value@)));
    }
}

/// Binds one more operation to `symbol`.
pub fn add_operation(
    bindings: &mut Vec<(char, Vec<Operation>)>,
    symbol: char,
    operation: Operation,
)
    ensures
        binding_views(final(bindings)@) == with_operation(
            binding_views(old(bindings)@),
            symbol,
            operation@,
        ),
        (forall|i: int, j: int|
            0 <= i < old(bindings)@.len() && 0 <= j < old(bindings)@[i].1@.len() ==> (
            #[trigger] old(bindings)@[i].1@[j]).wf()) && operation.wf() ==> (forall|i: int, j: int|
            0 <= i < final(bindings)@.len() && 0 <= j < final(bindings)@[i].1@.len() ==> (
            #[trigger] final(bindings)@[i].1@[j]).wf()),
{
    let ghost views = binding_views(bindings@);
    let ghost op_view = operation@;
    let mut i: usize = 0;
    proof {
        assert(views.skip(0) =~= views);
    }
    while i < bindings.len() && bindings[i].0 != symbol
        invariant
            i <= bindings.len(),
            views == binding_views(bindings@),
            bindings@ == old(bindings)@,
            binding_index(views, symbol) == i + binding_index(views.skip(i as int), symbol),
        decreases bindings.len() - i,
    {
        proof {
            assert(views.skip(i as int).drop_first() =~= views.skip(i + 1));
            assert(views.skip(i as int)[0] == views[i as int]);
        }
        i += 1;
    }
    if i < bindings.len() {
        proof {
            assert(views.skip(i as int)[0] == views[i as int]);
        }
        let mut entry = bindings.remove(i);
        let ghost before = entry.1@;
        entry.1.push(operation);
        proof {
            assert(operation_views(entry.1@) =~= operation_views(before).push(op_view));
        }
        bindings.insert(i, entry);
        proof {
            assert(binding_views(bindings@) =~= views.update(
                i as int,
                (symbol, views[i as int].1.push(op_view)),
            ));
            assert forall|a: int, b: int|
                0 <= a < bindings@.len() && 0 <= b < bindings@[a].1@.len() && (forall|i: int, j: int|
                    0 <= i < old(bindings)@.len() && 0 <= j < old(bindings)@[i].1@.len() ==> (
                    #[trigger] old(bindings)@[i].1@[j]).wf()) && operation.wf() implies (
            #[trigger] bindings@[a].1@[b]).wf() by {
                if a == i {
                    if b < before.len() {
                        assert(bindings@[a].1@[b] == old(bindings)@[a].1@[b]);
                    }
                } else {
                    assert(bindings@[a] == old(bindings)@[a]);
                }
            }
        }
    } else {
        let mut list: Vec<Operation> = Vec::new();
        list.push(operation);
        proof {
            assert(operation_views(list@) =~= seq![op_view]);
        }
        bindings.push((symbol, list));
        proof {
            assert(binding_views(bindings@) =~= views.push((symbol, seq![op_view])));
            assert forall|a: int, b: int|
                0 <= a < bindings@.len() && 0 <= b < bindings@[a].1@.len() && (forall|i: int, j: int|
                    0 <= i < old(bindings)@.len() && 0 <= j < old(bindings)@[i].1@.len() ==> (
                    #[trigger] old(bindings)@[i].1@[j]).wf()) && operation.wf() implies (
            #[trigger] bindings@[a].1@[b]).wf() by {
                if a < old(bindings)@.len() {
                    assert(bindings@[a] == old(bindings)@[a]);
                }
            }
        }
    }
}

/// Giving a variable a value leaves no name twice.
pub proof fn lemma_with_variable_distinct(
    variables: Seq<(Seq<char>, Seq<char>)>,
    name: Seq<char>,
    value: Seq<char>,
)
    requires
        distinct_names(variables),
    ensures
        distinct_names(with_variable(variables, name, value)),
{
    lemma_variable_index(variables, name);
    let at = variable_index(variables, name);
    let after = with_variable(variables, name, value);
    assert forall|i: int, j: int| 0 <= i < j < after.len() implies (#[trigger] after[i]).0 != (
    #[trigger] after[j]).0 by {
        if at < variables.len() {
            assert(after[i].0 == variables[i].0);
            assert(after[j].0 == variables[j].0);
        } else {
            if j < variables.len() {
                assert(after[i] == variables[i]);
                assert(after[j] == variables[j]);
            } else {
                assert(after[i] == variables[i]);
            }
        }
    }
}

/// Binding an operation leaves no symbol twice.
pub proof fn lemma_with_operation_distinct(
    bindings: Seq<(char, Seq<OperationView>)>,
    symbol: char,
    operation: OperationView,
)
    requires
        distinct_symbols(bindings),
    ensures
        distinct_symbols(with_operation(bindings, symbol, operation)),
{
    lemma_binding_index(bindings, symbol);
    let at = binding_index(bindings, symbol);
    let after = with_operation(bindings, symbol, operation);
    assert forall|i: int, j: int| 0 <= i < j < after.len() implies (#[trigger] after[i]).0 != (
    #[trigger] after[j]).0 by {
        if at < bindings.len() {
            assert(after[i].0 == bindings[i].0);
            assert(after[j].0 == bindings[j].0);
        } else {
            if j < bindings.len() {
                assert(after[i] == bindings[i]);
                assert(after[j] == bindings[j]);
            } else {
                assert(after[i] == bindings[i]);
            }
        }
    }
}

impl LSystemRenderer {
    /// Reads a setting from its line and puts it in its place. Where the
    /// line does not read, nothing changes.
    pub fn update_setting(&mut self, setting: Setting, line: &str) -> (outcome: Result<
        (),
        ParsingError,
    >)
        ensures
            match outcome {
                Ok(_) => setting_effect(old(self)@, setting, line@) == Ok::<
                    RendererView,
                    ParsingError,
                >(final(self)@),
                Err(e) => setting_effect(old(self)@, setting, line@) == Err::<
                    RendererView,
                    ParsingError,
                >(e) && *final(self) == *old(self),
            },
            final(self).expression == old(self).expression,
            final(self).rng == old(self).rng,
            final(self).variables == old(self).variables,
            final(self).operations == old(self).operations,
            old(self).wf() ==> final(self).wf(),
    {
        match setting {
            Setting::Axiom => match parse_axiom(line) {
                Ok(start) => {
                    self.lsystem.start = start;
                    Ok(())
                },
                Err(e) => Err(e),
            },
            Setting::Iter => match parse_iter(line) {
                Ok(iter) => {
                    self.iter = iter;
                    Ok(())
                },
                Err(e) => Err(e),
            },
            Setting::InitialRot => match parse_initial_rot(line) {
                Ok(initial_rot) => {
                    self.initial_rot = initial_rot;
                    Ok(())
                },
                Err(e) => Err(e),
            },
            Setting::InitialPos => match parse_initial_pos(line) {
                Ok(initial_pos) => {
                    proof {
                        lemma_tuple_fields(
                            value_of(line@)->0,
                            FieldKind::Number,
                            FieldKind::Number,
                        );
                    }
                    self.initial_pos = initial_pos;
                    Ok(())
                },
                Err(e) => Err(e),
            },
            Setting::InitialThickness => match parse_initial_thickness(line) {
                Ok(initial_thickness) => {
                    self.initial_thickness = initial_thickness;
                    Ok(())
                },
                Err(e) => Err(e),
            },
            Setting::Background => match parse_background_color(line) {
                Ok(color) => {
                    self.background_color = color;
                    Ok(())
                },
                Err(e) => Err(e),
            },
            Setting::InitialColor => match parse_initial_color(line) {
                Ok(color) => {
                    self.initial_color = color;
                    Ok(())
                },
                Err(e) => Err(e),
            },
            Setting::Canvas => match parse_canvas(line) {
                Ok(canvas) => {
                    self.canvas = canvas;
                    Ok(())
                },
                Err(e) => Err(e),
            },
            Setting::Seed => match parse_seed(line) {
                Ok(seed) => {
                    self.seed = seed;
                    Ok(())
                },
                Err(e) => Err(e),
            },
            Setting::Inject => match parse_injections(line) {
                Ok(injections) => {
                    self.injections = injections;
                    Ok(())
                },
                Err(e) => Err(e),
            },
        }
    }
}

impl Updatable<&str> for LSystemRenderer {
    /// Takes one line in. A line that reads changes what it declares and
    /// nothing else; a line that does not read, or is of no known kind,
    /// changes nothing and is answered with its error. The expanded string
    /// and the generator are never touched.
    fn update(&mut self, line: &str) -> (outcome: Result<LineType, ParsingError>)
        ensures
            match outcome {
                Ok(kind) => kind == line_type(line@) && effect(old(self)@, line@) == Ok::<
                    RendererView,
                    ParsingError,
                >(final(self)@),
                Err(e) => effect(old(self)@, line@) == Err::<RendererView, ParsingError>(e)
                    && *final(self) == *old(self),
            },
            final(self).expression == old(self).expression,
            final(self).rng == old(self).rng,
            old(self).wf() ==> final(self).wf(),
    {
        let chars = to_chars(line);
        let tight = trim(chars.as_slice());
        let text = to_text(tight);
        let kind = classify(tight);
        match kind {
            LineType::Nothing => Ok(kind),
            LineType::Unknown => Err(ParsingError::UnknownAction),
            LineType::Rule => match parse_rule(text.as_str()) {
                Ok(rule) => {
                    let symbol: char = rule.0;
                    let ghost before = self.lsystem.rules@;
                    self.lsystem.rules.insert(symbol as u32, rule.1);
                    proof {
                        assert(rule_views(self.lsystem.rules@) =~= rule_views(before).insert(
                            rule_key(symbol),
                            rule.1@,
                        ));
                    }
                    Ok(kind)
                },
                Err(e) => Err(e),
            },
            LineType::Operation => match parse_char_operation(text.as_str()) {
                Ok(binding) => {
                    proof {
                        if self.wf() {
                            lemma_with_operation_distinct(
                                binding_views(self.operations@),
                                binding.0,
                                binding.1@,
                            );
                        }
                    }
                    add_operation(&mut self.operations, binding.0, binding.1);
                    Ok(kind)
                },
                Err(e) => Err(e),
            },
            LineType::Variable => match parse_variable(text.as_str()) {
                Ok(variable) => {
                    proof {
                        if self.wf() {
                            lemma_with_variable_distinct(
                                variable_views(self.variables@),
                                variable.0@,
                                variable.1@,
                            );
                        }
                    }
                    set_variable(&mut self.variables, variable.0, variable.1);
                    Ok(kind)
                },
                Err(e) => Err(e),
            },
            LineType::Config => match find_setting(tight) {
                Some(setting) => match self.update_setting(setting, text.as_str()) {
                    Ok(_) => Ok(kind),
                    Err(e) => Err(e),
                },
                None => Err(ParsingError::UnknownAction),
            },
        }
    }

    /// Tells the kind of a line; the white space around it does not count.
    fn get_line_type(&self, line: &str) -> (kind: LineType)
        ensures
            kind == line_type(line@),
    {
        let chars = to_chars(line);
        classify(trim(chars.as_slice()))
    }
}

} // verus!
