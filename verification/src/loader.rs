//! Reading a whole configuration: the text is cut into lines, each line is
//! taken in on its own, and what was read is laid out for an editor. A line
//! that does not read is reported and does not stop the others.

use crate::config::{entries_after, ConfigLines};
use crate::export::{serialized, texts, written, ConfEditor};
use crate::outside::push_char;
use crate::parser::{line_type, LineType, ParsingError, Setting};
use crate::parser::{AXIOM, BACKGROUND, CANVAS, INITIAL_COLOR, INITIAL_POS, INITIAL_ROT};
use crate::parser::{INITIAL_THICKNESS, INJECT, ITER, SEED};
use crate::reader::{effect, Updatable};
use crate::renderer::{default_view, LSystemRenderer, RendererView};
use crate::text::{after, before, find_char, offset_of, to_chars, to_text, trim, trimmed};
use vstd::prelude::*;
use vstd::string::StringExecFns;

verus! {

/// A line without the carriage return that it may end with.
pub open spec fn without_return(line: Seq<char>) -> Seq<char> {
    if line.len() > 0 && line.last() == '\r' {
        line.drop_last()
    } else {
        line
    }
}

/// The lines of a text. A line ends with a line feed, or with a carriage
/// return and a line feed, neither of which belongs to it; the last line
/// needs no ending. The empty text has no line.
pub open spec fn lines_of(text: Seq<char>) -> Seq<Seq<char>>
    decreases text.len(),
{
    let end = offset_of(text, '\n');
    if text.len() == 0 {
        Seq::empty()
    } else if 0 <= end < text.len() {
        seq![without_return(text.take(end))] + lines_of(text.skip(end + 1))
    } else {
        seq![text]
    }
}

/// Cuts a text into its lines.
pub fn split_lines(text: &str) -> (lines: Vec<String>)
    ensures
        texts(lines@) == lines_of(text@),
{
    let chars = to_chars(text);
    let mut rest: &[char] = chars.as_slice();
    let mut lines: Vec<String> = Vec::new();
    proof {
        assert(texts(lines@) + lines_of(rest@) =~= lines_of(text@));
    }
    while rest.len() > 0
        invariant
            texts(lines@) + lines_of(rest@) == lines_of(text@),
        decreases rest@.len(),
    {
        let ghost read = texts(lines@);
        let end = find_char(rest, '\n');
        if end < rest.len() {
            let whole = before(rest, end);
            let line = if whole.len() > 0 && whole[whole.len() - 1] == '\r' {
                proof {
                    assert(whole@.take(whole.len() - 1) =~= whole@.drop_last());
                }
                before(whole, whole.len() - 1)
            } else {
                whole
            };
            lines.push(to_text(line));
            proof {
                assert(texts(lines@) =~= read.push(line@));
                assert(read.push(line@) + lines_of(rest@.skip(end + 1)) =~= read + lines_of(
                    rest@,
                ));
            }
            rest = after(rest, end + 1);
        } else {
            lines.push(to_text(rest));
            proof {
                assert(texts(lines@) =~= read.push(rest@));
                assert(read.push(rest@) + lines_of(Seq::<char>::empty()) =~= read + lines_of(
                    rest@,
                ));
            }
            rest = after(rest, rest.len());
        }
    }
    proof {
        assert(texts(lines@) + lines_of(rest@) =~= texts(lines@));
    }
    lines
}

/// What came of a line: its kind, and the error if it did not read.
#[derive(Debug, PartialEq, Eq, Clone, Copy, Structural)]
pub struct LineReport {
    pub kind: LineType,
    pub error: Option<ParsingError>,
}

/// The report on a line that meets a specification.
pub open spec fn report_of(view: RendererView, line: Seq<char>) -> LineReport {
    LineReport {
        kind: line_type(line),
        error: match effect(view, line) {
            Ok(_) => None,
            Err(e) => Some(e),
        },
    }
}

/// What has been read, as a value of mathematics: the specification, the
/// entries of the settings, and the lines of the other kinds as they were
/// written.
pub ghost struct LoadView {
    pub renderer: RendererView,
    pub settings: Map<Setting, (Seq<char>, bool)>,
    pub variables: Seq<Seq<char>>,
    pub operations: Seq<Seq<char>>,
    pub rules: Seq<Seq<char>>,
}

/// What has been read after one more line. The specification takes the line
/// in if it reads, and stays as it is if not. A setting is entered with its
/// mark; a line of another kind is put with the lines of its kind, whether
/// it reads or not; an empty or unknown line leaves no trace.
pub open spec fn load_step(state: LoadView, line: Seq<char>) -> LoadView {
    let outcome = effect(state.renderer, line);
    let renderer = match outcome {
        Ok(view) => view,
        Err(_) => state.renderer,
    };
    match line_type(line) {
        LineType::Config => LoadView {
            renderer,
            settings: entries_after(state.settings, trimmed(line), outcome is Err),
            ..state
        },
        LineType::Variable => LoadView { renderer, variables: state.variables.push(line), ..state },
        LineType::Operation => LoadView {
            renderer,
            operations: state.operations.push(line),
            ..state
        },
        LineType::Rule => LoadView { renderer, rules: state.rules.push(line), ..state },
        LineType::Nothing => LoadView { renderer, ..state },
        LineType::Unknown => LoadView { renderer, ..state },
    }
}

/// What has been read after a run of lines, taken in one after the other.
pub open spec fn load_all(state: LoadView, lines: Seq<Seq<char>>) -> LoadView
    decreases lines.len(),
{
    if lines.len() == 0 {
        state
    } else {
        load_step(load_all(state, lines.drop_last()), lines.last())
    }
}

/// What has been read before the first line: the specification and the
/// entries that stand for an empty configuration, and no line.
pub open spec fn empty_load() -> LoadView {
    LoadView {
        renderer: default_view(),
        settings: ConfigLines::default_entries(),
        variables: Seq::empty(),
        operations: Seq::empty(),
        rules: Seq::empty(),
    }
}

/// What the reading of a configuration hands out.
#[derive(Debug)]
pub struct Loaded {
    /// The specification that the lines describe.
    pub renderer: LSystemRenderer,
    /// The settings as they were entered.
    pub settings: ConfigLines,
    /// The lines of variables, operations and rules; no line of a setting.
    pub editor: ConfEditor,
    /// One report for each line, in the order of the lines.
    pub reports: Vec<LineReport>,
}

impl View for Loaded {
    type V = LoadView;

    open spec fn view(&self) -> LoadView {
        LoadView {
            renderer: self.renderer@,
            settings: self.settings@,
            variables: texts(self.editor.variables@),
            operations: texts(self.editor.operations@),
            rules: texts(self.editor.rules@),
        }
    }
}

/// Reads a configuration line by line, beginning with the specification and
/// the entries that stand for an empty configuration.
pub fn load(lines: &Vec<String>) -> (loaded: Loaded)
    ensures
        loaded.renderer.wf(),
        loaded.editor.configurations@.len() == 0,
        loaded.reports@.len() == lines@.len(),
        loaded@ == load_all(empty_load(), texts(lines@)),
        forall|i: int|
            0 <= i < lines@.len() ==> #[trigger] loaded.reports@[i] == report_of(
                load_all(empty_load(), texts(lines@).take(i)).renderer,
                lines@[i]@,
            ),
{
    let mut loaded = Loaded {
        renderer: LSystemRenderer::default(),
        settings: ConfigLines::default(),
        editor: ConfEditor::default(),
        reports: Vec::new(),
    };
    let ghost start = empty_load();
    let ghost all = texts(lines@);
    let mut i: usize = 0;
    proof {
        assert(loaded@.variables =~= Seq::<Seq<char>>::empty());
        assert(loaded@.operations =~= Seq::<Seq<char>>::empty());
        assert(loaded@.rules =~= Seq::<Seq<char>>::empty());
        assert(all.take(0) =~= Seq::<Seq<char>>::empty());
    }
    while i < lines.len()
        invariant
            i <= lines.len(),
            all == texts(lines@),
            loaded.renderer.wf(),
            loaded.editor.configurations@.len() == 0,
            loaded.reports@.len() == i,
            start == empty_load(),
            loaded@ == load_all(start, all.take(i as int)),
            forall|k: int|
                0 <= k < i ==> #[trigger] loaded.reports@[k] == report_of(
                    load_all(start, all.take(k)).renderer,
                    lines@[k]@,
                ),
        decreases lines.len() - i,
    {
        let line = lines[i].as_str();
        let ghost state = loaded@;
        proof {
            assert(all.take(i + 1).drop_last() =~= all.take(i as int));
            assert(all.take(i + 1).last() == line@);
        }
        let outcome = loaded.renderer.update(line);
        let kind = loaded.renderer.get_line_type(line);
        let error = match outcome {
            Ok(_) => None,
            Err(e) => Some(e),
        };
        match kind {
            LineType::Config => {
                let tight = to_text(trim(to_chars(line).as_slice()));
                loaded.settings.update(tight.as_str(), error.is_some());
            },
            LineType::Variable => {
                let ghost before = texts(loaded.editor.variables@);
                loaded.editor.variables.push(String::from_str(line));
                assert(texts(loaded.editor.variables@) =~= before.push(line@));
            },
            LineType::Operation => {
                let ghost before = texts(loaded.editor.operations@);
                loaded.editor.operations.push(String::from_str(line));
                assert(texts(loaded.editor.operations@) =~= before.push(line@));
            },
            LineType::Rule => {
                let ghost before = texts(loaded.editor.rules@);
                loaded.editor.rules.push(String::from_str(line));
                assert(texts(loaded.editor.rules@) =~= before.push(line@));
            },
            LineType::Nothing => {},
            LineType::Unknown => {},
        }
        loaded.reports.push(LineReport { kind, error });
        assert(loaded@ == load_step(state, line@));
        i += 1;
    }
    proof {
        assert(all.take(lines.len() as int) =~= all);
    }
    loaded
}

/// A specification after a run of lines of an editor, with a mark that is
/// set once a line has not read. Empty lines are left out, and so is every
/// line after the first one that does not read.
pub open spec fn taken(state: (RendererView, bool), lines: Seq<Seq<char>>) -> (RendererView, bool)
    decreases lines.len(),
{
    if lines.len() == 0 {
        state
    } else {
        let before = taken(state, lines.drop_last());
        if before.1 || lines.last().len() == 0 {
            before
        } else {
            match effect(before.0, lines.last()) {
                Ok(view) => (view, false),
                Err(_) => (before.0, true),
            }
        }
    }
}

/// Takes the lines of one group in, up to the first that does not read.
fn take_lines(renderer: &mut LSystemRenderer, lines: &Vec<String>, failed: bool) -> (errors: bool)
    ensures
        (final(renderer)@, errors) == taken((old(renderer)@, failed), texts(lines@)),
        final(renderer).expression == old(renderer).expression,
        final(renderer).rng == old(renderer).rng,
        old(renderer).wf() ==> final(renderer).wf(),
{
    let ghost all = texts(lines@);
    let ghost start = (renderer@, failed);
    let mut errors = failed;
    let mut i: usize = 0;
    proof {
        assert(all.take(0) =~= Seq::<Seq<char>>::empty());
    }
    while i < lines.len() && !errors
        invariant
            i <= lines.len(),
            all == texts(lines@),
            (renderer@, errors) == taken(start, all.take(i as int)),
            renderer.expression == old(renderer).expression,
            renderer.rng == old(renderer).rng,
            old(renderer).wf() ==> renderer.wf(),
        decreases lines.len() - i,
    {
        proof {
            assert(all.take(i + 1).drop_last() =~= all.take(i as int));
            assert(all.take(i + 1).last() == lines@[i as int]@);
        }
        if !lines[i].as_str().is_empty() {
            if renderer.update(lines[i].as_str()).is_err() {
                errors = true;
            }
        }
        i += 1;
    }
    proof {
        lemma_taken_stops(start, all, i as int);
    }
    errors
}

/// Once a line has not read, the lines after it change nothing.
pub proof fn lemma_taken_stops(state: (RendererView, bool), lines: Seq<Seq<char>>, n: int)
    requires
        0 <= n <= lines.len(),
        n == lines.len() || taken(state, lines.take(n)).1,
    ensures
        taken(state, lines) == taken(state, lines.take(n)),
    decreases lines.len() - n,
{
    if n == lines.len() {
        assert(lines.take(n) =~= lines);
    } else {
        assert(lines.take(n + 1).drop_last() =~= lines.take(n));
        lemma_taken_stops(state, lines, n + 1);
    }
}

/// Brings a specification up to date with the lines of an editor: settings,
/// rules, operations and variables, in this order, without the lines that
/// are empty. The first line that does not read ends it; the answer tells
/// whether there was one.
pub fn update_renderer(renderer: &mut LSystemRenderer, conf: &ConfEditor) -> (errors: bool)
    ensures
        (final(renderer)@, errors) == taken(
            taken(
                taken(
                    taken((old(renderer)@, false), texts(conf.configurations@)),
                    texts(conf.rules@),
                ),
                texts(conf.operations@),
            ),
            texts(conf.variables@),
        ),
        final(renderer).expression == old(renderer).expression,
        final(renderer).rng == old(renderer).rng,
        old(renderer).wf() ==> final(renderer).wf(),
{
    let errors = take_lines(renderer, &conf.configurations, false);
    let errors = take_lines(renderer, &conf.rules, errors);
    let errors = take_lines(renderer, &conf.operations, errors);
    take_lines(renderer, &conf.variables, errors)
}

/// The line of a setting: its keyword, a space, and its value.
pub open spec fn setting_line(keyword: Seq<char>, value: Seq<char>) -> Seq<char> {
    keyword.push(' ') + value
}

/// The keyword of a setting.
pub open spec fn keyword_of(setting: Setting) -> Seq<char> {
    match setting {
        Setting::Axiom => AXIOM@,
        Setting::Iter => ITER@,
        Setting::InitialRot => INITIAL_ROT@,
        Setting::InitialPos => INITIAL_POS@,
        Setting::InitialThickness => INITIAL_THICKNESS@,
        Setting::Background => BACKGROUND@,
        Setting::InitialColor => INITIAL_COLOR@,
        Setting::Canvas => CANVAS@,
        Setting::Seed => SEED@,
        Setting::Inject => INJECT@,
    }
}

/// The settings in the order in which an editor lists them.
pub open spec fn listed_settings() -> Seq<Setting> {
    seq![
        Setting::Axiom,
        Setting::Iter,
        Setting::InitialPos,
        Setting::InitialRot,
        Setting::InitialThickness,
        Setting::Background,
        Setting::InitialColor,
        Setting::Canvas,
        Setting::Seed,
        Setting::Inject,
    ]
}

/// The lines of the settings: one for each setting, in the order of the
/// list, with the value that was entered for it.
pub open spec fn setting_lines(entries: Map<Setting, (Seq<char>, bool)>) -> Seq<Seq<char>> {
    Seq::new(
        listed_settings().len(),
        |i: int| setting_line(keyword_of(listed_settings()[i]), entries[listed_settings()[i]].0),
    )
}

/// Writes the line of a setting.
fn write_setting(keyword: &str, value: &str) -> (line: String)
    ensures
        line@ == setting_line(keyword@, value@),
{
    let mut line = String::from_str(keyword);
    push_char(&mut line, ' ');
    line.append(value);
    line
}

/// Puts the lines of the settings at the end of the settings of an editor.
pub fn init_config_editor(config_lines: &ConfigLines, conf: &mut ConfEditor)
    ensures
        texts(final(conf).configurations@) == texts(old(conf).configurations@) + setting_lines(
            config_lines@,
        ),
        final(conf).rules == old(conf).rules,
        final(conf).operations == old(conf).operations,
        final(conf).variables == old(conf).variables,
{
    let ghost before = texts(conf.configurations@);
    conf.configurations.push(write_setting(AXIOM, config_lines.start.0.as_str()));
    conf.configurations.push(write_setting(ITER, config_lines.iter.0.as_str()));
    conf.configurations.push(write_setting(INITIAL_POS, config_lines.initial_pos.0.as_str()));
    conf.configurations.push(write_setting(INITIAL_ROT, config_lines.initial_rot.0.as_str()));
    conf.configurations.push(
        write_setting(INITIAL_THICKNESS, config_lines.initial_thickness.0.as_str()),
    );
    conf.configurations.push(write_setting(BACKGROUND, config_lines.background_color.0.as_str()));
    conf.configurations.push(write_setting(INITIAL_COLOR, config_lines.initial_color.0.as_str()));
    conf.configurations.push(write_setting(CANVAS, config_lines.canvas.0.as_str()));
    conf.configurations.push(write_setting(SEED, config_lines.seed.0.as_str()));
    conf.configurations.push(write_setting(INJECT, config_lines.injections.0.as_str()));
    proof {
        let lines = setting_lines(config_lines@);
        let now = texts(conf.configurations@);
        assert(lines.len() == 10);
        assert(now.len() == before.len() + 10);
        assert forall|i: int| 0 <= i < now.len() implies now[i] == (before + lines)[i] by {
            if i >= before.len() {
                let k = i - before.len();
                assert(lines[k] == setting_line(
                    keyword_of(listed_settings()[k]),
                    config_lines@[listed_settings()[k]].0,
                ));
            } else {
                assert(now[i] == before[i]);
            }
        }
        assert(now =~= before + lines);
    }
}

/// Gives each of the three lists of declarations an empty line at its end,
/// for the next declaration to be entered.
pub fn add_empty_entries(conf: &mut ConfEditor)
    ensures
        texts(final(conf).variables@) == texts(old(conf).variables@).push(Seq::empty()),
        texts(final(conf).rules@) == texts(old(conf).rules@).push(Seq::empty()),
        texts(final(conf).operations@) == texts(old(conf).operations@).push(Seq::empty()),
        final(conf).configurations == old(conf).configurations,
{
    let ghost variables = texts(conf.variables@);
    let ghost rules = texts(conf.rules@);
    let ghost operations = texts(conf.operations@);
    conf.variables.push(String::new());
    conf.rules.push(String::new());
    conf.operations.push(String::new());
    proof {
        assert(texts(conf.variables@) =~= variables.push(Seq::empty()));
        assert(texts(conf.rules@) =~= rules.push(Seq::empty()));
        assert(texts(conf.operations@) =~= operations.push(Seq::empty()));
    }
}

/// The text that is written out of what has been read: the lines of the
/// settings, and the lines of the variables, the operations and the rules,
/// each of these three with the empty line that an editor keeps at its end.
pub open spec fn exported(state: LoadView) -> Seq<char> {
    written(
        setting_lines(state.settings),
        state.variables.push(Seq::empty()),
        state.operations.push(Seq::empty()),
        state.rules.push(Seq::empty()),
    )
}

/// Lays out for an editor what has been read: each list of declarations
/// gets its empty line, and the lines of the settings are written. The text
/// of the editor is then the text that is written out of what was read.
pub fn lay_out(loaded: Loaded) -> (laid: Loaded)
    requires
        loaded.editor.configurations@.len() == 0,
    ensures
        serialized(laid.editor) == exported(loaded@),
        texts(laid.editor.configurations@) == setting_lines(loaded.settings@),
        texts(laid.editor.variables@) == texts(loaded.editor.variables@).push(Seq::empty()),
        texts(laid.editor.operations@) == texts(loaded.editor.operations@).push(Seq::empty()),
        texts(laid.editor.rules@) == texts(loaded.editor.rules@).push(Seq::empty()),
        laid.renderer == loaded.renderer,
        laid.settings == loaded.settings,
        laid.reports == loaded.reports,
{
    let mut laid = loaded;
    let ghost before = texts(laid.editor.configurations@);
    add_empty_entries(&mut laid.editor);
    init_config_editor(&laid.settings, &mut laid.editor);
    proof {
        assert(before + setting_lines(laid.settings@) =~= setting_lines(laid.settings@));
    }
    laid
}

/// The marks of the lines of one kind, in the order of the lines: a mark is
/// set where the line did not read.
pub open spec fn marks(reports: Seq<LineReport>, kind: LineType) -> Seq<bool>
    decreases reports.len(),
{
    if reports.len() == 0 {
        Seq::empty()
    } else if reports.last().kind == kind {
        marks(reports.drop_last(), kind).push(reports.last().error is Some)
    } else {
        marks(reports.drop_last(), kind)
    }
}

/// Gathers the marks of the lines of one kind.
pub fn marks_of(reports: &Vec<LineReport>, kind: LineType) -> (found: Vec<bool>)
    ensures
        found@ == marks(reports@, kind),
{
    let mut found: Vec<bool> = Vec::new();
    let mut i: usize = 0;
    proof {
        assert(reports@.take(0) =~= Seq::<LineReport>::empty());
    }
    while i < reports.len()
        invariant
            i <= reports.len(),
            found@ == marks(reports@.take(i as int), kind),
        decreases reports.len() - i,
    {
        proof {
            assert(reports@.take(i + 1).drop_last() =~= reports@.take(i as int));
            assert(reports@.take(i + 1).last() == reports@[i as int]);
        }
        if reports[i].kind == kind {
            found.push(reports[i].error.is_some());
        }
        i += 1;
    }
    proof {
        assert(reports@.take(reports.len() as int) =~= reports@);
    }
    found
}

} // verus!
