//! Writing a configuration out and reading it back: the specification that
//! is read from the written text is the one that was written out.

use crate::config::{shown_value, ConfigLines};
use crate::export::{line_end, written, written_group, written_lines};
use crate::loader::{empty_load, exported, keyword_of, lines_of, listed_settings, load_all};
use crate::loader::{load_step, setting_line, setting_lines, without_return, LoadView};
use crate::number::{all_digits, decimal_value, integer_i32, is_digit, natural, natural_usize};
use crate::parser::{axiom_of, canvas_of, color_setting_of, first_field, initial_pos_of};
use crate::parser::{injections_of, iter_of, kind_of, number_of, second_field, seed_of};
use crate::parser::{setting_of, value_of, LineType, ParsingError, Setting};
use crate::parser::{AXIOM, BACKGROUND, CANVAS, INITIAL_COLOR, INITIAL_POS, INITIAL_ROT};
use crate::parser::{INITIAL_THICKNESS, ITER, SEED};
use crate::reader::{effect, setting_effect};
use crate::renderer::{default_view, lemma_short_digits_are_literal, RendererView};
use crate::text::{has_char, is_whitespace, lemma_offset_of, offset_of, offset_of_pair};
use crate::text::{lemma_trim_end_shape, lemma_trim_start_shape, lemma_trimmed_is_tight};
use crate::text::{trim_end, trim_start, trimmed};
use vstd::prelude::*;

verus! {

/// A specification after a line has been met: the line is taken in if it
/// reads, and leaves no trace if not.
pub open spec fn absorb(view: RendererView, line: Seq<char>) -> RendererView {
    match effect(view, line) {
        Ok(after) => after,
        Err(_) => view,
    }
}

/// A specification after a run of lines has been met.
pub open spec fn absorb_all(view: RendererView, lines: Seq<Seq<char>>) -> RendererView
    decreases lines.len(),
{
    if lines.len() == 0 {
        view
    } else {
        absorb(absorb_all(view, lines.drop_last()), lines.last())
    }
}

/// The specification that is read from a run of lines is the one that has
/// met them all.
pub proof fn lemma_load_renders(state: LoadView, lines: Seq<Seq<char>>)
    ensures
        load_all(state, lines).renderer == absorb_all(state.renderer, lines),
    decreases lines.len(),
{
    if lines.len() > 0 {
        lemma_load_renders(state, lines.drop_last());
    }
}

/// Meeting two runs of lines one after the other is meeting them as one.
proof fn lemma_absorb_concat(view: RendererView, first: Seq<Seq<char>>, second: Seq<Seq<char>>)
    ensures
        absorb_all(view, first + second) == absorb_all(absorb_all(view, first), second),
    decreases second.len(),
{
    if second.len() == 0 {
        assert(first + second =~= first);
    } else {
        lemma_absorb_concat(view, first, second.drop_last());
        assert((first + second).drop_last() =~= first + second.drop_last());
        assert((first + second).last() == second.last());
    }
}

/// A line that does not read is isolated: the specification that is read
/// from a run of lines with such a line among them is the one that is read
/// from the lines before it and the lines after it.
pub proof fn lemma_unread_line_is_isolated(
    state: LoadView,
    before: Seq<Seq<char>>,
    line: Seq<char>,
    after: Seq<Seq<char>>,
)
    requires
        effect(load_all(state, before).renderer, line) is Err,
    ensures
        load_all(state, before.push(line) + after).renderer == load_all(
            state,
            before + after,
        ).renderer,
{
    lemma_load_renders(state, before.push(line) + after);
    lemma_load_renders(state, before + after);
    lemma_load_renders(state, before);
    lemma_absorb_concat(state.renderer, before.push(line), after);
    lemma_absorb_concat(state.renderer, before, after);
    assert(before.push(line).drop_last() =~= before);
}

/// Meeting a line and then a run of lines.
proof fn lemma_absorb_first(view: RendererView, line: Seq<char>, rest: Seq<Seq<char>>)
    ensures
        absorb_all(view, seq![line] + rest) == absorb_all(absorb(view, line), rest),
{
    lemma_absorb_concat(view, seq![line], rest);
    assert(seq![line].drop_last() =~= Seq::<Seq<char>>::empty());
    assert(absorb_all(view, seq![line].drop_last()) == view);
    assert(seq![line].last() == line);
    assert(absorb_all(view, seq![line]) == absorb(view, line));
}

/// White space at the end of a line does not count.
proof fn lemma_trimmed_without_last(line: Seq<char>)
    requires
        line.len() > 0,
        is_whitespace(line.last()),
    ensures
        trimmed(line.drop_last()) == trimmed(line),
    decreases line.len(),
{
    if line.len() == 1 {
        assert(line.drop_last() =~= Seq::<char>::empty());
        assert(line.drop_first() =~= Seq::<char>::empty());
    } else if is_whitespace(line[0]) {
        lemma_trimmed_without_last(line.drop_first());
        assert(line.drop_last().drop_first() =~= line.drop_first().drop_last());
    } else {
    }
}

/// A carriage return at the end of a line does not count.
proof fn lemma_absorb_without_return(view: RendererView, line: Seq<char>)
    ensures
        absorb(view, without_return(line)) == absorb(view, line),
{
    if line.len() > 0 && line.last() == '\r' {
        lemma_trimmed_without_last(line);
    }
}

/// An empty line leaves no trace.
proof fn lemma_absorb_empty(view: RendererView)
    ensures
        absorb(view, Seq::empty()) == view,
{
    assert(trimmed(Seq::<char>::empty()) =~= Seq::<char>::empty());
    assert(offset_of_pair(Seq::<char>::empty(), '-', '>') == 0);
    lemma_no_setting_in_empty();
}

/// The empty line begins with no keyword.
proof fn lemma_no_setting_in_empty()
    ensures
        setting_of(Seq::empty()) is None,
{
    reveal_strlit("axiom");
    reveal_strlit("iter");
    reveal_strlit("initial_rot");
    reveal_strlit("initial_pos");
    reveal_strlit("initial_thickness");
    reveal_strlit("background");
    reveal_strlit("initial_color");
    reveal_strlit("canvas");
    reveal_strlit("seed");
    reveal_strlit("inject");
}

/// The first line of a text: where a text begins with a line that holds no
/// line feed, and a line feed after it, its lines are that line, without
/// the carriage return it may end with, and the lines of the rest.
proof fn lemma_lines_of_first(line: Seq<char>, rest: Seq<char>)
    requires
        !has_char(line, line_end()),
    ensures
        lines_of(line.push(line_end()) + rest) == seq![without_return(line)] + lines_of(rest),
{
    let text = line.push(line_end()) + rest;
    lemma_offset_in_front(line, line_end(), rest);
    assert(text.take(line.len() as int) =~= line);
    assert(text.skip(line.len() as int + 1) =~= rest);
}

/// Where a text does not hold a character, the first place of the
/// character in the text with the character and more after it is the one
/// after the text.
proof fn lemma_offset_in_front(line: Seq<char>, c: char, rest: Seq<char>)
    requires
        !has_char(line, c),
    ensures
        offset_of(line.push(c) + rest, c) == line.len(),
    decreases line.len(),
{
    let text = line.push(c) + rest;
    lemma_offset_of(line, c);
    if line.len() == 0 {
        assert(text[0] == c);
    } else {
        assert(text[0] == line[0]);
        assert(line[0] != c);
        lemma_offset_of(line.drop_first(), c);
        lemma_offset_in_front(line.drop_first(), c, rest);
        assert(text.drop_first() =~= line.drop_first().push(c) + rest);
    }
}

/// A text in which a character stands nowhere does not hold it.
proof fn lemma_offset_absent(text: Seq<char>, c: char)
    requires
        forall|i: int| 0 <= i < text.len() ==> text[i] != c,
    ensures
        !has_char(text, c),
    decreases text.len(),
{
    if text.len() > 0 {
        assert(text[0] != c);
        assert forall|i: int| 0 <= i < text.drop_first().len() implies text.drop_first()[i]
            != c by {
            assert(text.drop_first()[i] == text[i + 1]);
        }
        lemma_offset_absent(text.drop_first(), c);
    }
}

/// No line of `lines` holds a line feed.
pub open spec fn are_single_lines(lines: Seq<Seq<char>>) -> bool {
    forall|i: int| 0 <= i < lines.len() ==> !has_char(#[trigger] lines[i], line_end())
}

/// Reading the written lines, and more: what has met the text of a run of
/// lines and then a rest has met the lines and then the lines of the rest.
proof fn lemma_absorb_written_lines(
    view: RendererView,
    lines: Seq<Seq<char>>,
    rest: Seq<char>,
)
    requires
        are_single_lines(lines),
    ensures
        absorb_all(view, lines_of(written_lines(lines) + rest)) == absorb_all(
            absorb_all(view, lines),
            lines_of(rest),
        ),
    decreases lines.len(),
{
    if lines.len() == 0 {
        assert(written_lines(lines) + rest =~= rest);
    } else {
        let front = lines.drop_last();
        let last = lines.last();
        assert forall|i: int| 0 <= i < front.len() implies !has_char(
            #[trigger] front[i],
            line_end(),
        ) by {
            assert(front[i] == lines[i]);
        }
        assert(lines[lines.len() - 1] == last);
        if last.len() == 0 {
            lemma_absorb_written_lines(view, front, rest);
            assert(last =~= Seq::<char>::empty());
            lemma_absorb_empty(absorb_all(view, front));
        } else {
            let tail = last.push(line_end()) + rest;
            lemma_absorb_written_lines(view, front, tail);
            assert(written_lines(lines) + rest =~= written_lines(front) + tail);
            lemma_lines_of_first(last, rest);
            lemma_absorb_first(absorb_all(view, front), without_return(last), lines_of(rest));
            lemma_absorb_without_return(absorb_all(view, front), last);
        }
    }
}

/// Reading a written group, and more.
proof fn lemma_absorb_written_group(
    view: RendererView,
    lines: Seq<Seq<char>>,
    rest: Seq<char>,
)
    requires
        are_single_lines(lines),
    ensures
        absorb_all(view, lines_of(written_group(lines) + rest)) == absorb_all(
            absorb_all(view, lines),
            lines_of(rest),
        ),
{
    let tail = Seq::<char>::empty().push(line_end()) + rest;
    assert(written_group(lines) + rest =~= written_lines(lines) + tail);
    lemma_absorb_written_lines(view, lines, tail);
    assert(offset_of(Seq::<char>::empty(), line_end()) == 0);
    lemma_lines_of_first(Seq::empty(), rest);
    lemma_absorb_first(absorb_all(view, lines), Seq::empty(), lines_of(rest));
    lemma_absorb_empty(absorb_all(view, lines));
}

/// Reading a written configuration: what has met its text has met the
/// settings, the variables, the operations and the rules, in this order.
proof fn lemma_absorb_written(
    view: RendererView,
    configurations: Seq<Seq<char>>,
    variables: Seq<Seq<char>>,
    operations: Seq<Seq<char>>,
    rules: Seq<Seq<char>>,
)
    requires
        are_single_lines(configurations),
        are_single_lines(variables),
        are_single_lines(operations),
        are_single_lines(rules),
    ensures
        absorb_all(view, lines_of(written(configurations, variables, operations, rules)))
            == absorb_all(
            absorb_all(absorb_all(absorb_all(view, configurations), variables), operations),
            rules,
        ),
{
    let none = Seq::<char>::empty();
    let r = written_group(rules);
    let o = written_group(operations) + r;
    let v = written_group(variables) + o;
    assert(written(configurations, variables, operations, rules) =~= written_group(configurations)
        + v);
    lemma_absorb_written_group(view, configurations, v);
    lemma_absorb_written_group(absorb_all(view, configurations), variables, o);
    lemma_absorb_written_group(
        absorb_all(absorb_all(view, configurations), variables),
        operations,
        r,
    );
    assert(r =~= written_group(rules) + none);
    lemma_absorb_written_group(
        absorb_all(absorb_all(absorb_all(view, configurations), variables), operations),
        rules,
        none,
    );
    assert(lines_of(none) =~= Seq::<Seq<char>>::empty());
}

/// The part of a specification that a line is about.
pub ghost enum Part {
    /// One of the settings.
    Setting(Setting),
    /// The rules.
    Rules,
    /// The operations.
    Operations,
    /// The variables.
    Variables,
    /// No part: the line is empty or of no known kind.
    Nothing,
}

/// The part that a line is about.
pub open spec fn part_of(line: Seq<char>) -> Part {
    match kind_of(trimmed(line)) {
        LineType::Config => Part::Setting(setting_of(trimmed(line))->0),
        LineType::Rule => Part::Rules,
        LineType::Operation => Part::Operations,
        LineType::Variable => Part::Variables,
        LineType::Nothing => Part::Nothing,
        LineType::Unknown => Part::Nothing,
    }
}

/// Whether a line reads does not depend on the specification that it
/// meets.
pub proof fn lemma_reads_anywhere(first: RendererView, second: RendererView, line: Seq<char>)
    ensures
        effect(first, line) is Ok <==> effect(second, line) is Ok,
{
}

/// Lines that are about different parts can change places.
pub proof fn lemma_absorb_commutes(view: RendererView, first: Seq<char>, second: Seq<char>)
    requires
        part_of(first) != part_of(second),
    ensures
        absorb(absorb(view, first), second) == absorb(absorb(view, second), first),
{
    lemma_reads_anywhere(view, absorb(view, first), second);
    lemma_reads_anywhere(view, absorb(view, second), first);
    if effect(view, first) is Err || effect(view, second) is Err {
    } else {
        let a = trimmed(first);
        let b = trimmed(second);
        match (part_of(first), part_of(second)) {
            (Part::Setting(s), Part::Setting(t)) => {
                lemma_settings_commute(view, s, a, t, b);
            },
            _ => {},
        }
    }
}

/// What a setting is set to.
pub ghost enum SettingValue {
    Text(Seq<char>),
    Count(usize),
    Pair((Seq<char>, Seq<char>)),
    Colour(csscolorparser::Color),
    Size((i32, i32)),
    Injections(Seq<(u32, Seq<char>)>),
}

/// What the line of a setting sets it to.
pub open spec fn setting_value(setting: Setting, line: Seq<char>) -> Result<
    SettingValue,
    ParsingError,
> {
    match setting {
        Setting::Axiom => match axiom_of(line) {
            Ok(x) => Ok(SettingValue::Text(x)),
            Err(e) => Err(e),
        },
        Setting::Iter => match iter_of(line) {
            Ok(x) => Ok(SettingValue::Count(x)),
            Err(e) => Err(e),
        },
        Setting::InitialRot => match number_of(line) {
            Ok(x) => Ok(SettingValue::Text(x)),
            Err(e) => Err(e),
        },
        Setting::InitialPos => match initial_pos_of(line) {
            Ok(x) => Ok(SettingValue::Pair(x)),
            Err(e) => Err(e),
        },
        Setting::InitialThickness => match number_of(line) {
            Ok(x) => Ok(SettingValue::Text(x)),
            Err(e) => Err(e),
        },
        Setting::Background => match color_setting_of(line) {
            Ok(x) => Ok(SettingValue::Colour(x)),
            Err(e) => Err(e),
        },
        Setting::InitialColor => match color_setting_of(line) {
            Ok(x) => Ok(SettingValue::Colour(x)),
            Err(e) => Err(e),
        },
        Setting::Canvas => match canvas_of(line) {
            Ok(x) => Ok(SettingValue::Size(x)),
            Err(e) => Err(e),
        },
        Setting::Seed => Ok(SettingValue::Text(seed_of(line))),
        Setting::Inject => match injections_of(line) {
            Ok(x) => Ok(SettingValue::Injections(x)),
            Err(e) => Err(e),
        },
    }
}

/// A specification with one setting set; a value of the wrong kind sets
/// nothing.
pub open spec fn with_setting(view: RendererView, setting: Setting, value: SettingValue)
    -> RendererView {
    match (setting, value) {
        (Setting::Axiom, SettingValue::Text(x)) => RendererView { start: x, ..view },
        (Setting::Iter, SettingValue::Count(x)) => RendererView { iter: x, ..view },
        (Setting::InitialRot, SettingValue::Text(x)) => RendererView { initial_rot: x, ..view },
        (Setting::InitialPos, SettingValue::Pair(x)) => RendererView { initial_pos: x, ..view },
        (Setting::InitialThickness, SettingValue::Text(x)) => RendererView {
            initial_thickness: x,
            ..view
        },
        (Setting::Background, SettingValue::Colour(x)) => RendererView {
            background_color: x,
            ..view
        },
        (Setting::InitialColor, SettingValue::Colour(x)) => RendererView {
            initial_color: x,
            ..view
        },
        (Setting::Canvas, SettingValue::Size(x)) => RendererView { canvas: x, ..view },
        (Setting::Seed, SettingValue::Text(x)) => RendererView { seed: x, ..view },
        (Setting::Inject, SettingValue::Injections(x)) => RendererView { injections: x, ..view },
        _ => view,
    }
}

/// The line of a setting sets what it reads as, and nothing else.
proof fn lemma_setting_effect(view: RendererView, setting: Setting, line: Seq<char>)
    ensures
        setting_effect(view, setting, line) == match setting_value(setting, line) {
            Ok(value) => Ok::<RendererView, ParsingError>(with_setting(view, setting, value)),
            Err(e) => Err::<RendererView, ParsingError>(e),
        },
{
}

/// Two different settings can be set in either order.
proof fn lemma_with_setting_commutes(
    view: RendererView,
    s: Setting,
    x: SettingValue,
    t: Setting,
    y: SettingValue,
)
    requires
        s != t,
    ensures
        with_setting(with_setting(view, s, x), t, y) == with_setting(with_setting(view, t, y), s, x),
{
}

/// A setting that is set twice has the later value, where that is of its
/// kind.
proof fn lemma_with_setting_overrides(
    view: RendererView,
    s: Setting,
    x: SettingValue,
    line: Seq<char>,
)
    requires
        setting_value(s, line) is Ok,
    ensures
        with_setting(with_setting(view, s, x), s, setting_value(s, line)->Ok_0) == with_setting(
            view,
            s,
            setting_value(s, line)->Ok_0,
        ),
{
}

/// Two different settings can change places.
proof fn lemma_settings_commute(
    view: RendererView,
    s: Setting,
    a: Seq<char>,
    t: Setting,
    b: Seq<char>,
)
    requires
        s != t,
        setting_effect(view, s, a) is Ok,
        setting_effect(view, t, b) is Ok,
    ensures
        setting_effect(setting_effect(view, s, a)->Ok_0, t, b) is Ok,
        setting_effect(setting_effect(view, t, b)->Ok_0, s, a) is Ok,
        setting_effect(setting_effect(view, s, a)->Ok_0, t, b) == setting_effect(
            setting_effect(view, t, b)->Ok_0,
            s,
            a,
        ),
{
    lemma_setting_effect(view, s, a);
    lemma_setting_effect(view, t, b);
    let x = setting_value(s, a)->Ok_0;
    let y = setting_value(t, b)->Ok_0;
    lemma_setting_effect(with_setting(view, s, x), t, b);
    lemma_setting_effect(with_setting(view, t, y), s, a);
    lemma_with_setting_commutes(view, s, x, t, y);
}

/// Of two lines for one setting the later one stands, if it reads.
pub proof fn lemma_absorb_overrides(view: RendererView, first: Seq<char>, second: Seq<char>)
    requires
        part_of(first) is Setting,
        part_of(first) == part_of(second),
        effect(view, second) is Ok,
    ensures
        absorb(absorb(view, first), second) == absorb(view, second),
{
    lemma_reads_anywhere(view, absorb(view, first), second);
    let s = setting_of(trimmed(first))->0;
    let a = trimmed(first);
    let b = trimmed(second);
    lemma_setting_effect(view, s, a);
    lemma_setting_effect(view, s, b);
    if effect(view, first) is Ok {
        let x = setting_value(s, a)->Ok_0;
        lemma_setting_effect(with_setting(view, s, x), s, b);
        lemma_with_setting_overrides(view, s, x, b);
    }
}

/// A line can go before a run of lines that are about other parts.
proof fn lemma_absorb_moves(view: RendererView, lines: Seq<Seq<char>>, line: Seq<char>)
    requires
        forall|i: int| 0 <= i < lines.len() ==> part_of(#[trigger] lines[i]) != part_of(line),
    ensures
        absorb(absorb_all(view, lines), line) == absorb_all(absorb(view, line), lines),
    decreases lines.len(),
{
    if lines.len() > 0 {
        let front = lines.drop_last();
        assert forall|i: int| 0 <= i < front.len() implies part_of(#[trigger] front[i])
            != part_of(line) by {
            assert(front[i] == lines[i]);
        }
        assert(lines[lines.len() - 1] == lines.last());
        lemma_absorb_commutes(absorb_all(view, front), lines.last(), line);
        lemma_absorb_moves(view, front, line);
    }
}

/// No character of `text` is white space.
pub open spec fn has_no_blank(text: Seq<char>) -> bool {
    forall|i: int| 0 <= i < text.len() ==> !is_whitespace(#[trigger] text[i])
}

/// `first` is no beginning of a text: the two differ at place `at`.
proof fn lemma_not_prefix(first: Seq<char>, text: Seq<char>, at: int)
    requires
        0 <= at < first.len(),
        at < text.len() ==> first[at] != text[at],
    ensures
        !first.is_prefix_of(text),
{
    if first.len() <= text.len() {
        assert(text.subrange(0, first.len() as int)[at] == text[at]);
    }
}

/// A keyword holds no white space, and a text that begins with the keyword
/// of a setting is a line of that setting and of no other.
proof fn lemma_keyword(setting: Setting, rest: Seq<char>)
    ensures
        keyword_of(setting).len() > 0,
        has_no_blank(keyword_of(setting)),
        setting_of(keyword_of(setting) + rest) == Some(setting),
{
    reveal_strlit("axiom");
    reveal_strlit("iter");
    reveal_strlit("initial_rot");
    reveal_strlit("initial_pos");
    reveal_strlit("initial_thickness");
    reveal_strlit("background");
    reveal_strlit("initial_color");
    reveal_strlit("canvas");
    reveal_strlit("seed");
    reveal_strlit("inject");
    let keyword = keyword_of(setting);
    let text = keyword + rest;
    assert(keyword =~= text.subrange(0, keyword.len() as int));
    assert(keyword.is_prefix_of(text));
    match setting {
        Setting::Axiom => {},
        Setting::Iter => {
            lemma_not_prefix(AXIOM@, text, 0);
        },
        Setting::InitialRot => {
            lemma_not_prefix(AXIOM@, text, 0);
            lemma_not_prefix(ITER@, text, 1);
        },
        Setting::InitialPos => {
            lemma_not_prefix(AXIOM@, text, 0);
            lemma_not_prefix(ITER@, text, 1);
            lemma_not_prefix(INITIAL_ROT@, text, 8);
        },
        Setting::InitialThickness => {
            lemma_not_prefix(AXIOM@, text, 0);
            lemma_not_prefix(ITER@, text, 1);
            lemma_not_prefix(INITIAL_ROT@, text, 8);
            lemma_not_prefix(INITIAL_POS@, text, 8);
        },
        Setting::Background => {
            lemma_not_prefix(AXIOM@, text, 0);
            lemma_not_prefix(ITER@, text, 0);
            lemma_not_prefix(INITIAL_ROT@, text, 0);
            lemma_not_prefix(INITIAL_POS@, text, 0);
            lemma_not_prefix(INITIAL_THICKNESS@, text, 0);
        },
        Setting::InitialColor => {
            lemma_not_prefix(AXIOM@, text, 0);
            lemma_not_prefix(ITER@, text, 1);
            lemma_not_prefix(INITIAL_ROT@, text, 8);
            lemma_not_prefix(INITIAL_POS@, text, 8);
            lemma_not_prefix(INITIAL_THICKNESS@, text, 8);
            lemma_not_prefix(BACKGROUND@, text, 0);
        },
        Setting::Canvas => {
            lemma_not_prefix(AXIOM@, text, 0);
            lemma_not_prefix(ITER@, text, 0);
            lemma_not_prefix(INITIAL_ROT@, text, 0);
            lemma_not_prefix(INITIAL_POS@, text, 0);
            lemma_not_prefix(INITIAL_THICKNESS@, text, 0);
            lemma_not_prefix(BACKGROUND@, text, 0);
            lemma_not_prefix(INITIAL_COLOR@, text, 0);
        },
        Setting::Seed => {
            lemma_not_prefix(AXIOM@, text, 0);
            lemma_not_prefix(ITER@, text, 0);
            lemma_not_prefix(INITIAL_ROT@, text, 0);
            lemma_not_prefix(INITIAL_POS@, text, 0);
            lemma_not_prefix(INITIAL_THICKNESS@, text, 0);
            lemma_not_prefix(BACKGROUND@, text, 0);
            lemma_not_prefix(INITIAL_COLOR@, text, 0);
            lemma_not_prefix(CANVAS@, text, 0);
        },
        Setting::Inject => {
            lemma_not_prefix(AXIOM@, text, 0);
            lemma_not_prefix(ITER@, text, 1);
            lemma_not_prefix(INITIAL_ROT@, text, 2);
            lemma_not_prefix(INITIAL_POS@, text, 2);
            lemma_not_prefix(INITIAL_THICKNESS@, text, 2);
            lemma_not_prefix(BACKGROUND@, text, 0);
            lemma_not_prefix(INITIAL_COLOR@, text, 2);
            lemma_not_prefix(CANVAS@, text, 0);
            lemma_not_prefix(SEED@, text, 0);
        },
    }
}

/// A text that neither begins nor ends with white space; the empty text is
/// one.
pub open spec fn is_tight(text: Seq<char>) -> bool {
    text.len() > 0 ==> !is_whitespace(text[0]) && !is_whitespace(text.last())
}

/// A tight text is its own trimmed form.
proof fn lemma_tight_is_trimmed(text: Seq<char>)
    requires
        is_tight(text),
    ensures
        trimmed(text) == text,
{
}

/// The line of a setting with a value: it is a line of that setting, and
/// its value is the value.
proof fn lemma_setting_line(setting: Setting, value: Seq<char>)
    requires
        value.len() > 0,
        is_tight(value),
    ensures
        trimmed(setting_line(keyword_of(setting), value)) == setting_line(
            keyword_of(setting),
            value,
        ),
        kind_of(setting_line(keyword_of(setting), value)) == LineType::Config,
        setting_of(setting_line(keyword_of(setting), value)) == Some(setting),
        value_of(setting_line(keyword_of(setting), value)) == Some(value),
{
    let keyword = keyword_of(setting);
    let line = setting_line(keyword, value);
    lemma_keyword(setting, seq![' '] + value);
    assert(keyword + (seq![' '] + value) =~= line);
    assert(line[0] == keyword[0]);
    assert(line.last() == value.last());
    assert forall|i: int| 0 <= i < keyword.len() implies keyword[i] != ' ' by {
        assert(!is_whitespace(keyword[i]));
    }
    lemma_offset_absent(keyword, ' ');
    lemma_offset_in_front(keyword, ' ', value);
    assert(line.skip(keyword.len() as int + 1) =~= value);
}

/// The line of a setting without a value: without the space at its end it
/// is the keyword, a line of that setting that holds no value.
proof fn lemma_bare_setting_line(setting: Setting)
    ensures
        trimmed(setting_line(keyword_of(setting), Seq::empty())) == keyword_of(setting),
        kind_of(keyword_of(setting)) == LineType::Config,
        setting_of(keyword_of(setting)) == Some(setting),
        value_of(keyword_of(setting)) is None,
{
    let keyword = keyword_of(setting);
    let line = setting_line(keyword, Seq::empty());
    lemma_keyword(setting, Seq::empty());
    assert(keyword + Seq::<char>::empty() =~= keyword);
    assert(line =~= keyword.push(' '));
    assert(line[0] == keyword[0]);
    assert(line.drop_last() =~= keyword);
    assert forall|i: int| 0 <= i < keyword.len() implies keyword[i] != ' ' by {
        assert(!is_whitespace(keyword[i]));
    }
    lemma_offset_absent(keyword, ' ');
    assert(!is_whitespace(keyword.last()));
    assert(trim_start(line) == line);
    assert(is_whitespace(line.last()));
    assert(trim_end(keyword) == keyword);
    assert(trim_end(line) == trim_end(line.drop_last()));
}

/// The line of a setting is about that setting, whatever tight value it
/// holds.
proof fn lemma_setting_line_part(setting: Setting, value: Seq<char>)
    requires
        is_tight(value),
    ensures
        part_of(setting_line(keyword_of(setting), value)) == Part::Setting(setting),
{
    if value.len() > 0 {
        lemma_setting_line(setting, value);
    } else {
        assert(value =~= Seq::<char>::empty());
        lemma_bare_setting_line(setting);
    }
}

/// A line of a setting that holds a space, with no white space after the
/// first of its spaces. The line is taken without the white space around
/// it.
pub open spec fn is_plain(line: Seq<char>) -> bool {
    &&& has_char(line, ' ')
    &&& offset_of(line, ' ') + 1 < line.len()
    &&& !is_whitespace(line[offset_of(line, ' ') + 1])
}

/// The value that a plain line shows in an editor is the value that is read
/// from it, and it is not empty.
proof fn lemma_plain_value(line: Seq<char>)
    requires
        is_plain(trimmed(line)),
    ensures
        shown_value(trimmed(line)) == value_of(trimmed(line))->0,
        value_of(trimmed(line)) is Some,
        shown_value(trimmed(line)).len() > 0,
        is_tight(shown_value(trimmed(line))),
{
    let tight = trimmed(line);
    let space = offset_of(tight, ' ');
    lemma_offset_of(tight, ' ');
    lemma_trimmed_is_tight(line);
    let from_space = tight.skip(space);
    let value = tight.skip(space + 1);
    assert(from_space[0] == ' ');
    assert(is_whitespace(from_space[0]));
    assert(from_space.drop_first() =~= value);
    assert(value[0] == tight[space + 1]);
    assert(value.last() == tight.last());
    assert(trim_start(value) == value);
    assert(trim_start(from_space) == trim_start(from_space.drop_first()));
    assert(trim_end(value) == value);
}

/// A plain line of a setting that reads can give way to the line that an
/// editor writes for it.
proof fn lemma_written_setting_line(view: RendererView, line: Seq<char>)
    requires
        kind_of(trimmed(line)) == LineType::Config,
        is_plain(trimmed(line)),
    ensures
        absorb(
            view,
            setting_line(
                keyword_of(setting_of(trimmed(line))->0),
                shown_value(trimmed(line)),
            ),
        ) == absorb(view, line),
{
    let setting = setting_of(trimmed(line))->0;
    lemma_plain_value(line);
    lemma_setting_line(setting, shown_value(trimmed(line)));
}

/// Putting a line in the place of an earlier one: where a run of lines
/// holds one line about the part that `line` is about, and `line` reads,
/// meeting the run and what comes after it and then `line` is meeting the
/// run with `written` in that place, where `written` does what `line` does.
proof fn lemma_replace_line(
    view: RendererView,
    lines: Seq<Seq<char>>,
    at: int,
    rest: Seq<Seq<char>>,
    line: Seq<char>,
    written: Seq<char>,
)
    requires
        0 <= at < lines.len(),
        part_of(line) is Setting,
        part_of(lines[at]) == part_of(line),
        forall|i: int|
            0 <= i < lines.len() && i != at ==> part_of(#[trigger] lines[i]) != part_of(line),
        forall|i: int| 0 <= i < rest.len() ==> part_of(#[trigger] rest[i]) != part_of(line),
        effect(view, line) is Ok,
        forall|any: RendererView| #[trigger] absorb(any, written) == absorb(any, line),
    ensures
        absorb_all(view, lines.update(at, written) + rest) == absorb(
            absorb_all(view, lines + rest),
            line,
        ),
{
    let head = lines.take(at);
    let tail = lines.skip(at + 1);
    let before = absorb_all(view, head);
    assert(lines =~= head + seq![lines[at]] + tail);
    assert(lines.update(at, written) =~= head + seq![written] + tail);
    assert forall|i: int| 0 <= i < tail.len() implies part_of(#[trigger] tail[i]) != part_of(
        line,
    ) by {
        assert(tail[i] == lines[at + 1 + i]);
    }
    // the right side
    lemma_absorb_concat(view, lines, rest);
    lemma_absorb_moves(absorb_all(view, lines), rest, line);
    lemma_absorb_concat(view, head + seq![lines[at]], tail);
    lemma_absorb_concat(view, head, seq![lines[at]]);
    assert(seq![lines[at]] =~= seq![lines[at]] + Seq::<Seq<char>>::empty());
    lemma_absorb_first(before, lines[at], Seq::empty());
    lemma_absorb_moves(absorb(before, lines[at]), tail, line);
    lemma_reads_anywhere(view, before, line);
    lemma_absorb_overrides(before, lines[at], line);
    // the left side
    lemma_absorb_concat(view, lines.update(at, written), rest);
    lemma_absorb_concat(view, head + seq![written], tail);
    lemma_absorb_concat(view, head, seq![written]);
    assert(seq![written] =~= seq![written] + Seq::<Seq<char>>::empty());
    lemma_absorb_first(before, written, Seq::empty());
}

/// Putting a line at the end of a run of lines, before lines that are about
/// other parts.
proof fn lemma_insert_line(
    view: RendererView,
    lines: Seq<Seq<char>>,
    rest: Seq<Seq<char>>,
    line: Seq<char>,
)
    requires
        forall|i: int| 0 <= i < rest.len() ==> part_of(#[trigger] rest[i]) != part_of(line),
    ensures
        absorb_all(view, lines.push(line) + rest) == absorb(absorb_all(view, lines + rest), line),
{
    lemma_absorb_concat(view, lines, rest);
    lemma_absorb_moves(absorb_all(view, lines), rest, line);
    lemma_absorb_concat(view, lines.push(line), rest);
    assert(lines.push(line).drop_last() =~= lines);
}

/// The place of a setting in the list of an editor.
pub open spec fn place_of(setting: Setting) -> int {
    match setting {
        Setting::Axiom => 0,
        Setting::Iter => 1,
        Setting::InitialPos => 2,
        Setting::InitialRot => 3,
        Setting::InitialThickness => 4,
        Setting::Background => 5,
        Setting::InitialColor => 6,
        Setting::Canvas => 7,
        Setting::Seed => 8,
        Setting::Inject => 9,
    }
}

/// Each setting stands once in the list of an editor, at its place.
proof fn lemma_places()
    ensures
        listed_settings().len() == 10,
        forall|setting: Setting|
            0 <= #[trigger] place_of(setting) < 10 && listed_settings()[place_of(setting)]
                == setting,
        forall|i: int| 0 <= i < 10 ==> place_of(#[trigger] listed_settings()[i]) == i,
{
}

/// The lines that stand for what has been read: the lines of the settings,
/// then the lines of the variables, the operations and the rules.
pub open spec fn lines_for(state: LoadView) -> Seq<Seq<char>> {
    setting_lines(state.settings) + state.variables + state.operations + state.rules
}

/// Every line of a run is about the given part.
pub open spec fn are_about(lines: Seq<Seq<char>>, part: Part) -> bool {
    forall|i: int| 0 <= i < lines.len() ==> part_of(#[trigger] lines[i]) == part
}

/// What has been read is in order: the value of each setting is tight and
/// every setting has one, each line is with the lines of its kind, and the
/// specification is the one that the lines stand for.
pub open spec fn is_in_order(state: LoadView) -> bool {
    &&& forall|setting: Setting| #[trigger] state.settings.contains_key(setting)
    &&& forall|setting: Setting| is_tight((#[trigger] state.settings[setting]).0)
    &&& are_about(state.variables, Part::Variables)
    &&& are_about(state.operations, Part::Operations)
    &&& are_about(state.rules, Part::Rules)
    &&& absorb_all(default_view(), lines_for(state)) == state.renderer
}

/// A line that reads, and that is plain if it is the line of a setting.
/// Whether a line reads does not depend on the specification that it meets.
pub open spec fn reads_well(line: Seq<char>) -> bool {
    &&& effect(default_view(), line) is Ok
    &&& kind_of(trimmed(line)) == LineType::Config ==> is_plain(trimmed(line))
}

/// Every line of a run reads well.
pub open spec fn all_read_well(lines: Seq<Seq<char>>) -> bool {
    forall|i: int| 0 <= i < lines.len() ==> reads_well(#[trigger] lines[i])
}

/// The lines of the settings are about their settings.
proof fn lemma_setting_lines_parts(entries: Map<Setting, (Seq<char>, bool)>)
    requires
        forall|setting: Setting| is_tight((#[trigger] entries[setting]).0),
    ensures
        setting_lines(entries).len() == 10,
        forall|i: int|
            0 <= i < 10 ==> part_of(#[trigger] setting_lines(entries)[i]) == Part::Setting(
                listed_settings()[i],
            ),
{
    lemma_places();
    assert forall|i: int| 0 <= i < 10 implies part_of(#[trigger] setting_lines(entries)[i])
        == Part::Setting(listed_settings()[i]) by {
        let setting = listed_settings()[i];
        lemma_setting_line_part(setting, entries[setting].0);
    }
}

/// An empty line leaves what has been read in order.
proof fn lemma_step_nothing(state: LoadView, line: Seq<char>)
    requires
        is_in_order(state),
        reads_well(line),
        kind_of(trimmed(line)) == LineType::Nothing,
    ensures
        is_in_order(load_step(state, line)),
{
    let after = load_step(state, line);
    lemma_reads_anywhere(default_view(), state.renderer, line);
    assert(after.renderer == state.renderer);
    assert(after.settings == state.settings);
    assert(after.variables == state.variables);
    assert(after.operations == state.operations);
    assert(after.rules == state.rules);
}

/// A rule that reads leaves what has been read in order.
proof fn lemma_step_rule(state: LoadView, line: Seq<char>)
    requires
        is_in_order(state),
        reads_well(line),
        kind_of(trimmed(line)) == LineType::Rule,
    ensures
        is_in_order(load_step(state, line)),
{
    let after = load_step(state, line);
    lemma_reads_anywhere(default_view(), state.renderer, line);
    assert(after.renderer == absorb(state.renderer, line));
    assert(after.settings == state.settings);
    assert(after.variables == state.variables);
    assert(after.operations == state.operations);
    assert(after.rules == state.rules.push(line));
    assert(lines_for(after) =~= lines_for(state).push(line));
    assert(lines_for(after).drop_last() =~= lines_for(state));
    assert forall|i: int| 0 <= i < after.rules.len() implies part_of(#[trigger] after.rules[i])
        == Part::Rules by {
        if i < state.rules.len() {
            assert(after.rules[i] == state.rules[i]);
        }
    }
}

/// An operation that reads leaves what has been read in order.
proof fn lemma_step_operation(state: LoadView, line: Seq<char>)
    requires
        is_in_order(state),
        reads_well(line),
        kind_of(trimmed(line)) == LineType::Operation,
    ensures
        is_in_order(load_step(state, line)),
{
    let after = load_step(state, line);
    lemma_reads_anywhere(default_view(), state.renderer, line);
    assert(after.renderer == absorb(state.renderer, line));
    assert(after.settings == state.settings);
    assert(after.variables == state.variables);
    assert(after.operations == state.operations.push(line));
    assert(after.rules == state.rules);
    let front = setting_lines(state.settings) + state.variables + state.operations;
    assert(lines_for(after) =~= front.push(line) + state.rules);
    assert(lines_for(state) =~= front + state.rules);
    lemma_insert_line(default_view(), front, state.rules, line);
    assert forall|i: int| 0 <= i < after.operations.len() implies part_of(
        #[trigger] after.operations[i],
    ) == Part::Operations by {
        if i < state.operations.len() {
            assert(after.operations[i] == state.operations[i]);
        }
    }
}

/// A variable that reads leaves what has been read in order.
proof fn lemma_step_variable(state: LoadView, line: Seq<char>)
    requires
        is_in_order(state),
        reads_well(line),
        kind_of(trimmed(line)) == LineType::Variable,
    ensures
        is_in_order(load_step(state, line)),
{
    let after = load_step(state, line);
    lemma_reads_anywhere(default_view(), state.renderer, line);
    assert(after.renderer == absorb(state.renderer, line));
    assert(after.settings == state.settings);
    assert(after.variables == state.variables.push(line));
    assert(after.operations == state.operations);
    assert(after.rules == state.rules);
    let front = setting_lines(state.settings) + state.variables;
    let rest = state.operations + state.rules;
    assert(lines_for(after) =~= front.push(line) + rest);
    assert(lines_for(state) =~= front + rest);
    assert forall|i: int| 0 <= i < rest.len() implies part_of(#[trigger] rest[i]) != part_of(
        line,
    ) by {
        if i < state.operations.len() {
            assert(rest[i] == state.operations[i]);
        } else {
            assert(rest[i] == state.rules[i - state.operations.len()]);
        }
    }
    lemma_insert_line(default_view(), front, rest, line);
    assert forall|i: int| 0 <= i < after.variables.len() implies part_of(
        #[trigger] after.variables[i],
    ) == Part::Variables by {
        if i < state.variables.len() {
            assert(after.variables[i] == state.variables[i]);
        }
    }
}

/// A plain setting that reads leaves what has been read in order.
proof fn lemma_step_setting(state: LoadView, line: Seq<char>)
    requires
        is_in_order(state),
        reads_well(line),
        kind_of(trimmed(line)) == LineType::Config,
    ensures
        is_in_order(load_step(state, line)),
{
    let view = default_view();
    let after = load_step(state, line);
    let tight = trimmed(line);
    let settings = setting_lines(state.settings);
    let setting = setting_of(tight)->0;
    let at = place_of(setting);
    let shown = shown_value(tight);
    let written = setting_line(keyword_of(setting), shown);
    let rest = state.variables + state.operations + state.rules;
    lemma_reads_anywhere(view, state.renderer, line);
    lemma_setting_lines_parts(state.settings);
    lemma_places();
    lemma_plain_value(line);
    assert(trimmed(tight) == tight) by {
        lemma_trimmed_is_tight(line);
        lemma_tight_is_trimmed(tight);
    }
    assert(after.renderer == absorb(state.renderer, line));
    assert(after.settings == state.settings.insert(setting, (shown, false)));
    assert(after.variables == state.variables);
    assert(after.operations == state.operations);
    assert(after.rules == state.rules);
    assert(setting_lines(after.settings) =~= settings.update(at, written)) by {
        assert forall|i: int| 0 <= i < 10 implies setting_lines(after.settings)[i]
            == settings.update(at, written)[i] by {
            let other = listed_settings()[i];
            if i != at {
                assert(other != setting);
            }
        }
    }
    assert(lines_for(after) =~= settings.update(at, written) + rest);
    assert(lines_for(state) =~= settings + rest);
    assert forall|i: int| 0 <= i < rest.len() implies part_of(#[trigger] rest[i]) != part_of(
        line,
    ) by {
        if i < state.variables.len() {
            assert(rest[i] == state.variables[i]);
        } else if i < state.variables.len() + state.operations.len() {
            assert(rest[i] == state.operations[i - state.variables.len()]);
        } else {
            assert(rest[i] == state.rules[i - state.variables.len() - state.operations.len()]);
        }
    }
    assert forall|any: RendererView| #[trigger] absorb(any, written) == absorb(any, line) by {
        lemma_written_setting_line(any, line);
    }
    assert forall|i: int| 0 <= i < settings.len() && i != at implies part_of(
        #[trigger] settings[i],
    ) != part_of(line) by {
        assert(listed_settings()[i] != setting);
    }
    lemma_replace_line(view, settings, at, rest, line, written);
    assert forall|other: Setting| #[trigger] after.settings.contains_key(other) by {
        assert(state.settings.contains_key(other));
    }
    assert forall|other: Setting| is_tight((#[trigger] after.settings[other]).0) by {
        assert(state.settings.contains_key(other));
        if other != setting {
            assert(after.settings[other] == state.settings[other]);
        }
    }
}

/// One more line that reads well leaves what has been read in order.
proof fn lemma_step_in_order(state: LoadView, line: Seq<char>)
    requires
        is_in_order(state),
        reads_well(line),
    ensures
        is_in_order(load_step(state, line)),
{
    match kind_of(trimmed(line)) {
        LineType::Nothing => lemma_step_nothing(state, line),
        LineType::Unknown => {},
        LineType::Rule => lemma_step_rule(state, line),
        LineType::Operation => lemma_step_operation(state, line),
        LineType::Variable => lemma_step_variable(state, line),
        LineType::Config => lemma_step_setting(state, line),
    }
}

/// The line that an editor writes for a setting that has not been entered.
pub open spec fn default_line(setting: Setting) -> Seq<char> {
    setting_line(keyword_of(setting), ConfigLines::default_entries()[setting].0)
}

/// A specification that meets the line of a setting with the value that the
/// setting has already stays as it is (settings whose value is a text).
proof fn lemma_default_texts()
    ensures
        absorb(default_view(), default_line(Setting::Axiom)) == default_view(),
        absorb(default_view(), default_line(Setting::Inject)) == default_view(),
        absorb(default_view(), default_line(Setting::Seed)) == default_view(),
        absorb(default_view(), default_line(Setting::Background)) == default_view(),
        absorb(default_view(), default_line(Setting::InitialColor)) == default_view(),
{
    reveal_strlit("Default Seed");
    reveal_strlit("white");
    reveal_strlit("black");
    lemma_bare_setting_line(Setting::Axiom);
    lemma_bare_setting_line(Setting::Inject);
    lemma_setting_line(Setting::Seed, "Default Seed"@);
    lemma_setting_line(Setting::Background, "white"@);
    lemma_setting_line(Setting::InitialColor, "black"@);
    assert(default_view().injections =~= Seq::<(u32, Seq<char>)>::empty());
}

/// The same for the settings whose value is one number.
proof fn lemma_default_numbers()
    ensures
        absorb(default_view(), default_line(Setting::Iter)) == default_view(),
        absorb(default_view(), default_line(Setting::InitialRot)) == default_view(),
        absorb(default_view(), default_line(Setting::InitialThickness)) == default_view(),
{
    reveal_strlit("0");
    reveal_strlit("1");
    lemma_setting_line(Setting::Iter, "1"@);
    lemma_setting_line(Setting::InitialRot, "0"@);
    lemma_setting_line(Setting::InitialThickness, "1"@);
    lemma_short_digits_are_literal("0"@);
    lemma_short_digits_are_literal("1"@);
    reveal_with_fuel(decimal_value, 3);
    assert(is_digit("1"@[0]));
    assert(all_digits("1"@));
    assert("1"@.drop_last().len() == 0);
    assert(decimal_value("1"@) == 1);
    assert(natural("1"@) == Some(1nat));
    assert(natural_usize("1"@) == Some(1usize));
}

/// The fields of a pair of two numbers of three digits each.
proof fn lemma_pair_of_three_digits(text: Seq<char>, first: Seq<char>, second: Seq<char>)
    requires
        first.len() == 3,
        second.len() == 3,
        all_digits(first),
        all_digits(second),
        text == first.push(',') + second,
    ensures
        first_field(text) == first,
        second_field(text) == Some(second),
{
    assert forall|i: int| 0 <= i < first.len() implies first[i] != ',' by {
        assert(is_digit(first[i]));
    }
    lemma_offset_absent(first, ',');
    lemma_offset_in_front(first, ',', second);
    assert(text.take(3) =~= first);
    assert(text.skip(4) =~= second);
    assert forall|i: int| 0 <= i < second.len() implies second[i] != ',' by {
        assert(is_digit(second[i]));
    }
    lemma_offset_absent(second, ',');
    lemma_offset_of(second, ',');
    assert(second.take(3) =~= second);
    assert(is_digit(first[0]) && is_digit(first[2]));
    assert(is_digit(second[0]) && is_digit(second[2]));
    assert(first.last() == first[2]);
    assert(second.last() == second[2]);
    lemma_tight_is_trimmed(first);
    lemma_tight_is_trimmed(second);
}

/// The same for the settings whose value is a pair.
proof fn lemma_default_pairs()
    ensures
        absorb(default_view(), default_line(Setting::InitialPos)) == default_view(),
        absorb(default_view(), default_line(Setting::Canvas)) == default_view(),
{
    reveal_strlit("375,560");
    reveal_strlit("375");
    reveal_strlit("560");
    reveal_strlit("750,750");
    reveal_strlit("750");
    lemma_setting_line(Setting::InitialPos, "375,560"@);
    lemma_setting_line(Setting::Canvas, "750,750"@);
    assert("375,560"@ =~= "375"@.push(',') + "560"@);
    assert("750,750"@ =~= "750"@.push(',') + "750"@);
    assert(all_digits("375"@)) by {
        assert forall|i: int| 0 <= i < 3 implies is_digit(#[trigger] "375"@[i]) by {
            assert(i == 0 || i == 1 || i == 2);
        }
    }
    assert(all_digits("560"@)) by {
        assert forall|i: int| 0 <= i < 3 implies is_digit(#[trigger] "560"@[i]) by {
            assert(i == 0 || i == 1 || i == 2);
        }
    }
    assert(all_digits("750"@)) by {
        assert forall|i: int| 0 <= i < 3 implies is_digit(#[trigger] "750"@[i]) by {
            assert(i == 0 || i == 1 || i == 2);
        }
    }
    lemma_pair_of_three_digits("375,560"@, "375"@, "560"@);
    lemma_pair_of_three_digits("750,750"@, "750"@, "750"@);
    lemma_short_digits_are_literal("375"@);
    lemma_short_digits_are_literal("560"@);
    reveal_with_fuel(decimal_value, 5);
    let digits = "750"@;
    assert(digits.drop_last().len() == 2);
    assert(digits.drop_last().drop_last().len() == 1);
    assert(digits.drop_last().drop_last().drop_last().len() == 0);
    assert(digits.last() == '0');
    assert(digits.drop_last().last() == '5');
    assert(digits.drop_last().drop_last().last() == '7');
    assert(decimal_value(digits) == 750);
    assert(natural(digits) == Some(750nat));
    assert(integer_i32(digits) == Some(750i32));
}

/// A specification that meets a run of lines, each of which leaves it as
/// it is, stays as it is.
proof fn lemma_absorb_fixed(view: RendererView, lines: Seq<Seq<char>>)
    requires
        forall|i: int| 0 <= i < lines.len() ==> absorb(view, #[trigger] lines[i]) == view,
    ensures
        absorb_all(view, lines) == view,
    decreases lines.len(),
{
    if lines.len() > 0 {
        assert forall|i: int| 0 <= i < lines.drop_last().len() implies absorb(
            view,
            #[trigger] lines.drop_last()[i],
        ) == view by {
            assert(lines.drop_last()[i] == lines[i]);
        }
        lemma_absorb_fixed(view, lines.drop_last());
        assert(lines[lines.len() - 1] == lines.last());
    }
}

/// The values that the settings have before the first line are tight.
proof fn lemma_default_entries_tight()
    ensures
        forall|setting: Setting|
            is_tight((#[trigger] ConfigLines::default_entries()[setting]).0),
        forall|setting: Setting| #[trigger] ConfigLines::default_entries().contains_key(setting),
{
    reveal_strlit("Default Seed");
    reveal_strlit("white");
    reveal_strlit("black");
    reveal_strlit("0");
    reveal_strlit("1");
    reveal_strlit("375,560");
    reveal_strlit("750,750");
    assert forall|setting: Setting|
        is_tight((#[trigger] ConfigLines::default_entries()[setting]).0) by {
        match setting {
            Setting::Axiom => {},
            Setting::Iter => {},
            Setting::InitialRot => {},
            Setting::InitialPos => {},
            Setting::InitialThickness => {},
            Setting::Background => {},
            Setting::InitialColor => {},
            Setting::Canvas => {},
            Setting::Seed => {},
            Setting::Inject => {},
        }
    }
}

/// A specification that meets the lines that an editor writes for the
/// settings before anything is entered stays the one that stands for an
/// empty configuration.
proof fn lemma_default_lines()
    ensures
        absorb_all(default_view(), setting_lines(ConfigLines::default_entries()))
            == default_view(),
{
    let lines = setting_lines(ConfigLines::default_entries());
    lemma_default_texts();
    lemma_default_numbers();
    lemma_default_pairs();
    assert forall|i: int| 0 <= i < lines.len() implies absorb(default_view(), #[trigger] lines[i])
        == default_view() by {
        let setting = listed_settings()[i];
        assert(lines[i] == default_line(setting));
        match setting {
            Setting::Axiom => {},
            Setting::Iter => {},
            Setting::InitialRot => {},
            Setting::InitialPos => {},
            Setting::InitialThickness => {},
            Setting::Background => {},
            Setting::InitialColor => {},
            Setting::Canvas => {},
            Setting::Seed => {},
            Setting::Inject => {},
        }
    }
    lemma_absorb_fixed(default_view(), lines);
}

/// Before the first line, what has been read is in order.
proof fn lemma_empty_in_order()
    ensures
        is_in_order(empty_load()),
{
    let state = empty_load();
    lemma_default_entries_tight();
    lemma_default_lines();
    assert(lines_for(state) =~= setting_lines(state.settings));
}

/// What has been read from lines that all read well is in order.
pub proof fn lemma_all_in_order(lines: Seq<Seq<char>>)
    requires
        all_read_well(lines),
    ensures
        is_in_order(load_all(empty_load(), lines)),
    decreases lines.len(),
{
    if lines.len() == 0 {
        lemma_empty_in_order();
    } else {
        assert forall|i: int| 0 <= i < lines.drop_last().len() implies reads_well(
            #[trigger] lines.drop_last()[i],
        ) by {
            assert(lines.drop_last()[i] == lines[i]);
        }
        lemma_all_in_order(lines.drop_last());
        assert(lines[lines.len() - 1] == lines.last());
        lemma_step_in_order(load_all(empty_load(), lines.drop_last()), lines.last());
    }
}

/// A character stands nowhere in `text`.
pub open spec fn holds_none(text: Seq<char>, c: char) -> bool {
    forall|i: int| 0 <= i < text.len() ==> #[trigger] text[i] != c
}

/// A text that does not hold a character is one in which it stands nowhere.
proof fn lemma_holds_none(text: Seq<char>, c: char)
    ensures
        holds_none(text, c) <==> !has_char(text, c),
{
    lemma_offset_of(text, c);
    if holds_none(text, c) {
        lemma_offset_absent(text, c);
    }
}

/// What is left of a text after trimming holds no character that the text
/// does not hold.
proof fn lemma_trimmed_holds_none(text: Seq<char>, c: char)
    requires
        holds_none(text, c),
    ensures
        holds_none(trimmed(text), c),
{
    lemma_trim_start_shape(text);
    let inner = trim_start(text);
    lemma_trim_end_shape(inner);
    let cut = text.len() - inner.len();
    assert forall|i: int| 0 <= i < trimmed(text).len() implies #[trigger] trimmed(text)[i]
        != c by {
        assert(trimmed(text)[i] == inner.take(trimmed(text).len() as int)[i]);
        assert(inner[i] == text.skip(cut)[i]);
        assert(text[cut + i] != c);
    }
}

/// The lines of a text hold no line feed.
proof fn lemma_lines_are_single(text: Seq<char>)
    ensures
        are_single_lines(lines_of(text)),
    decreases text.len(),
{
    let end = offset_of(text, line_end());
    lemma_offset_of(text, line_end());
    if text.len() == 0 {
    } else if 0 <= end < text.len() {
        lemma_lines_are_single(text.skip(end + 1));
        let first = without_return(text.take(end));
        assert(holds_none(first, line_end())) by {
            assert forall|i: int| 0 <= i < first.len() implies #[trigger] first[i]
                != line_end() by {
                assert(first[i] == text[i]);
            }
        }
        lemma_holds_none(first, line_end());
        let rest = lines_of(text.skip(end + 1));
        assert forall|i: int| 0 <= i < lines_of(text).len() implies !has_char(
            #[trigger] lines_of(text)[i],
            line_end(),
        ) by {
            if i > 0 {
                assert(lines_of(text)[i] == rest[i - 1]);
            }
        }
    } else {
    }
}

/// The lines that stand for what has been read hold no line feed.
pub open spec fn is_written_in_lines(state: LoadView) -> bool {
    &&& are_single_lines(setting_lines(state.settings))
    &&& are_single_lines(state.variables)
    &&& are_single_lines(state.operations)
    &&& are_single_lines(state.rules)
}

/// The line of a setting holds no line feed where its value holds none.
proof fn lemma_setting_line_is_single(setting: Setting, value: Seq<char>)
    requires
        holds_none(value, line_end()),
    ensures
        !has_char(setting_line(keyword_of(setting), value), line_end()),
{
    let keyword = keyword_of(setting);
    let line = setting_line(keyword, value);
    lemma_keyword(setting, Seq::empty());
    assert forall|i: int| 0 <= i < line.len() implies #[trigger] line[i] != line_end() by {
        if i < keyword.len() {
            assert(line[i] == keyword[i]);
            assert(!is_whitespace(keyword[i]));
        } else if i == keyword.len() {
        } else {
            assert(line[i] == value[i - keyword.len() - 1]);
        }
    }
    lemma_holds_none(line, line_end());
}

/// One more line without a line feed leaves the lines without line feeds.
proof fn lemma_step_written_in_lines(state: LoadView, line: Seq<char>)
    requires
        is_written_in_lines(state),
        !has_char(line, line_end()),
    ensures
        is_written_in_lines(load_step(state, line)),
{
    let after = load_step(state, line);
    let tight = trimmed(line);
    lemma_places();
    match kind_of(tight) {
        LineType::Config => {
            if has_char(tight, ' ') {
                let setting = setting_of(tight)->0;
                let shown = shown_value(tight);
                lemma_holds_none(line, line_end());
                lemma_trimmed_holds_none(line, line_end());
                let from_space = tight.skip(offset_of(tight, ' '));
                lemma_offset_of(tight, ' ');
                assert(holds_none(from_space, line_end())) by {
                    assert forall|i: int| 0 <= i < from_space.len() implies #[trigger] from_space[i]
                        != line_end() by {
                        assert(from_space[i] == tight[offset_of(tight, ' ') + i]);
                    }
                }
                lemma_trimmed_holds_none(from_space, line_end());
                lemma_setting_line_is_single(setting, shown);
                let before = setting_lines(state.settings);
                let lines = setting_lines(after.settings);
                assert forall|i: int| 0 <= i < lines.len() implies !has_char(
                    #[trigger] lines[i],
                    line_end(),
                ) by {
                    if listed_settings()[i] != setting {
                        assert(lines[i] == before[i]);
                    }
                }
            } else {
                assert(after.settings == state.settings);
            }
        },
        LineType::Variable => {
            assert forall|i: int| 0 <= i < after.variables.len() implies !has_char(
                #[trigger] after.variables[i],
                line_end(),
            ) by {
                if i < state.variables.len() {
                    assert(after.variables[i] == state.variables[i]);
                }
            }
        },
        LineType::Operation => {
            assert forall|i: int| 0 <= i < after.operations.len() implies !has_char(
                #[trigger] after.operations[i],
                line_end(),
            ) by {
                if i < state.operations.len() {
                    assert(after.operations[i] == state.operations[i]);
                }
            }
        },
        LineType::Rule => {
            assert forall|i: int| 0 <= i < after.rules.len() implies !has_char(
                #[trigger] after.rules[i],
                line_end(),
            ) by {
                if i < state.rules.len() {
                    assert(after.rules[i] == state.rules[i]);
                }
            }
        },
        LineType::Nothing => {},
        LineType::Unknown => {},
    }
}

/// The lines that an editor writes before anything is entered hold no line
/// feed.
proof fn lemma_empty_written_in_lines()
    ensures
        is_written_in_lines(empty_load()),
{
    reveal_strlit("Default Seed");
    reveal_strlit("white");
    reveal_strlit("black");
    reveal_strlit("0");
    reveal_strlit("1");
    reveal_strlit("375,560");
    reveal_strlit("750,750");
    let entries = ConfigLines::default_entries();
    let lines = setting_lines(entries);
    assert forall|i: int| 0 <= i < lines.len() implies !has_char(#[trigger] lines[i], line_end()) by {
        let setting = listed_settings()[i];
        let value = entries[setting].0;
        assert(holds_none(value, line_end())) by {
            match setting {
                Setting::Axiom => {},
                Setting::Iter => {},
                Setting::InitialRot => {},
                Setting::InitialPos => {},
                Setting::InitialThickness => {},
                Setting::Background => {},
                Setting::InitialColor => {},
                Setting::Canvas => {},
                Setting::Seed => {},
                Setting::Inject => {},
            }
        }
        lemma_setting_line_is_single(setting, value);
    }
}

/// What has been read from lines without line feeds is written in lines
/// without line feeds.
proof fn lemma_all_written_in_lines(lines: Seq<Seq<char>>)
    requires
        are_single_lines(lines),
    ensures
        is_written_in_lines(load_all(empty_load(), lines)),
    decreases lines.len(),
{
    if lines.len() == 0 {
        lemma_empty_written_in_lines();
    } else {
        assert forall|i: int| 0 <= i < lines.drop_last().len() implies !has_char(
            #[trigger] lines.drop_last()[i],
            line_end(),
        ) by {
            assert(lines.drop_last()[i] == lines[i]);
        }
        lemma_all_written_in_lines(lines.drop_last());
        assert(lines[lines.len() - 1] == lines.last());
        lemma_step_written_in_lines(load_all(empty_load(), lines.drop_last()), lines.last());
    }
}

/// A configuration in which every line reads, and in which no line of a
/// setting is without a value or has white space between the space after
/// its keyword and its value.
pub open spec fn is_valid(text: Seq<char>) -> bool {
    all_read_well(lines_of(text))
}

/// Meeting a run of lines with an empty line at its end.
proof fn lemma_absorb_with_empty(view: RendererView, lines: Seq<Seq<char>>)
    ensures
        absorb_all(view, lines.push(Seq::empty())) == absorb_all(view, lines),
{
    assert(lines.push(Seq::empty()).drop_last() =~= lines);
    lemma_absorb_empty(absorb_all(view, lines));
}

/// An empty line at the end of a run of lines without line feeds.
proof fn lemma_single_with_empty(lines: Seq<Seq<char>>)
    requires
        are_single_lines(lines),
    ensures
        are_single_lines(lines.push(Seq::empty())),
{
    assert forall|i: int| 0 <= i < lines.push(Seq::empty()).len() implies !has_char(
        #[trigger] lines.push(Seq::empty())[i],
        line_end(),
    ) by {
        if i < lines.len() {
            assert(lines.push(Seq::empty())[i] == lines[i]);
        }
    }
}

/// Written out and read back: the specification that is read from the text
/// that is written out of a valid configuration is the specification that
/// was read from the configuration.
pub proof fn lemma_round_trip(text: Seq<char>)
    requires
        is_valid(text),
    ensures
        load_all(
            empty_load(),
            lines_of(exported(load_all(empty_load(), lines_of(text)))),
        ).renderer == load_all(empty_load(), lines_of(text)).renderer,
{
    let view = default_view();
    let state = load_all(empty_load(), lines_of(text));
    let settings = setting_lines(state.settings);
    let none = Seq::<char>::empty();
    lemma_lines_are_single(text);
    lemma_all_written_in_lines(lines_of(text));
    lemma_all_in_order(lines_of(text));
    lemma_single_with_empty(state.variables);
    lemma_single_with_empty(state.operations);
    lemma_single_with_empty(state.rules);
    lemma_load_renders(empty_load(), lines_of(exported(state)));
    lemma_absorb_written(
        view,
        settings,
        state.variables.push(none),
        state.operations.push(none),
        state.rules.push(none),
    );
    let first = absorb_all(view, settings);
    let second = absorb_all(first, state.variables);
    let third = absorb_all(second, state.operations);
    lemma_absorb_with_empty(first, state.variables);
    lemma_absorb_with_empty(second, state.operations);
    lemma_absorb_with_empty(third, state.rules);
    lemma_absorb_concat(view, settings, state.variables);
    lemma_absorb_concat(view, settings + state.variables, state.operations);
    lemma_absorb_concat(view, settings + state.variables + state.operations, state.rules);
}

} // verus!
