use lindenmayer::export::serialize_renderer;
use lindenmayer::loader::{
    add_empty_entries, init_config_editor, lay_out, load, marks_of, split_lines,
    update_renderer, LineReport,
};
use lindenmayer::{ConfEditor, ConfigLines, LSystemRenderer, LineType, ParsingError, Updatable};

#[test]
fn lines_are_those_of_the_standard_library() {
    let cases = [
        "", "a", "a\n", "a\nb", "a\n\nb\n", "\n", "\n\n", "a\r\nb\r\n", "a\rb\n", "a\r", "\r\n",
        "a\r\r\n", "axiom F\niter 3\n\nF -> F+F",
    ];
    for case in cases {
        let expected: Vec<String> = case.lines().map(|line| line.to_string()).collect();
        assert_eq!(split_lines(case), expected, "{:?}", case);
    }
}

fn lines(text: &str) -> Vec<String> {
    split_lines(text)
}

#[test]
fn one_bad_line_does_not_stop_the_others() {
    let loaded = load(&lines("axiom F\ncanvas -5,10\niter 4\n"));
    assert_eq!(
        loaded.reports,
        vec![
            LineReport { kind: LineType::Config, error: None },
            LineReport { kind: LineType::Config, error: Some(ParsingError::InvalidInteger) },
            LineReport { kind: LineType::Config, error: None },
        ]
    );
    assert_eq!(loaded.renderer.lsystem.start, "F");
    assert_eq!(loaded.renderer.iter, 4);
    assert_eq!(loaded.renderer.canvas, (750, 750));
    assert_eq!(loaded.settings.canvas, (String::from("-5,10"), true));
    assert_eq!(loaded.settings.iter, (String::from("4"), false));
}

#[test]
fn unknown_and_empty_lines_are_reported_and_left_out() {
    let loaded = load(&lines("hello\n\n   \nF -> G\nwhat\n"));
    assert_eq!(
        loaded.reports,
        vec![
            LineReport { kind: LineType::Unknown, error: Some(ParsingError::UnknownAction) },
            LineReport { kind: LineType::Nothing, error: None },
            LineReport { kind: LineType::Nothing, error: None },
            LineReport { kind: LineType::Rule, error: None },
            LineReport { kind: LineType::Unknown, error: Some(ParsingError::UnknownAction) },
        ]
    );
    assert_eq!(loaded.editor.rules, vec![String::from("F -> G")]);
    assert!(loaded.editor.variables.is_empty());
    assert!(loaded.editor.operations.is_empty());
    assert!(loaded.editor.configurations.is_empty());
}

#[test]
fn lines_go_to_the_lists_of_their_kinds() {
    let text = "axiom F\nF: forward 10\na = 1\nF -> F+F\n+: rotate a\nb = x\n";
    let loaded = load(&lines(text));
    assert_eq!(loaded.editor.operations, vec!["F: forward 10", "+: rotate a"]);
    assert_eq!(loaded.editor.variables, vec!["a = 1", "b = x"]);
    assert_eq!(loaded.editor.rules, vec!["F -> F+F"]);
    assert_eq!(loaded.reports[5].error, Some(ParsingError::InvalidFloatingPoint));
    assert_eq!(loaded.renderer.variables, vec![(String::from("a"), String::from("1"))]);
    assert_eq!(loaded.settings.start, (String::from("F"), false));
}

#[test]
fn empty_text_gives_the_default() {
    let loaded = load(&lines(""));
    assert_eq!(loaded.renderer, LSystemRenderer::default());
    assert_eq!(loaded.settings, ConfigLines::default());
    assert_eq!(loaded.editor, ConfEditor::default());
    assert!(loaded.reports.is_empty());
}

#[test]
fn lines_of_the_settings() {
    let mut editor = ConfEditor::default();
    init_config_editor(&ConfigLines::default(), &mut editor);
    assert_eq!(
        editor.configurations,
        vec![
            "axiom ",
            "iter 1",
            "initial_pos 375,560",
            "initial_rot 0",
            "initial_thickness 1",
            "background white",
            "initial_color black",
            "canvas 750,750",
            "seed Default Seed",
            "inject ",
        ]
    );
}

#[test]
fn empty_entries_for_the_next_declarations() {
    let mut editor = ConfEditor::default();
    editor.rules.push(String::from("F -> G"));
    add_empty_entries(&mut editor);
    assert_eq!(editor.rules, vec!["F -> G", ""]);
    assert_eq!(editor.variables, vec![""]);
    assert_eq!(editor.operations, vec![""]);
    assert!(editor.configurations.is_empty());
}

#[test]
fn editor_lines_bring_a_specification_up_to_date() {
    let mut editor = ConfEditor::default();
    editor.configurations.push(String::from("axiom F"));
    editor.configurations.push(String::new());
    editor.rules.push(String::from("F -> FF"));
    editor.operations.push(String::from("F: forward 1"));
    editor.variables.push(String::from("a = 2"));
    editor.variables.push(String::new());
    let mut renderer = LSystemRenderer::default();
    assert!(!update_renderer(&mut renderer, &editor));
    let mut expected = LSystemRenderer::default();
    for line in ["axiom F", "F -> FF", "F: forward 1", "a = 2"] {
        expected.update(line).unwrap();
    }
    assert_eq!(renderer, expected);
}

#[test]
fn the_first_bad_editor_line_ends_the_update() {
    let mut editor = ConfEditor::default();
    editor.configurations.push(String::from("axiom F"));
    editor.rules.push(String::from("-> FF"));
    editor.rules.push(String::from("F -> FF"));
    editor.variables.push(String::from("a = 2"));
    let mut renderer = LSystemRenderer::default();
    assert!(update_renderer(&mut renderer, &editor));
    let mut expected = LSystemRenderer::default();
    expected.update("axiom F").unwrap();
    assert_eq!(renderer, expected);
}

fn round_trip(text: &str) {
    let first = load(&lines(text));
    for report in &first.reports {
        assert_eq!(report.error, None);
    }
    let laid = lay_out(first);
    let written = serialize_renderer(&laid.editor);
    let second = load(&lines(&written));
    assert_eq!(second.renderer, laid.renderer, "{:?}", written);
}

#[test]
fn laid_out_for_an_editor() {
    let laid = lay_out(load(&lines("F -> G\niter 2\na = 1\nF: push\n")));
    assert_eq!(laid.editor.rules, vec!["F -> G", ""]);
    assert_eq!(laid.editor.variables, vec!["a = 1", ""]);
    assert_eq!(laid.editor.operations, vec!["F: push", ""]);
    assert_eq!(laid.editor.configurations.len(), 10);
    assert_eq!(laid.editor.configurations[1], "iter 2");
    assert_eq!(
        serialize_renderer(&laid.editor),
        "axiom \niter 2\ninitial_pos 375,560\ninitial_rot 0\ninitial_thickness 1\n\
         background white\ninitial_color black\ncanvas 750,750\nseed Default Seed\n\
         inject \n\na = 1\n\nF: push\n\nF -> G\n\n"
    );
}

#[test]
fn settings_with_white_space_before_the_value_do_not_come_back() {
    // the editor shows the value without the white space around it
    let first = load(&lines("seed  x\n"));
    assert_eq!(first.renderer.seed, " x");
    let laid = lay_out(first);
    let second = load(&lines(&serialize_renderer(&laid.editor)));
    assert_eq!(second.renderer.seed, "x");
}

#[test]
fn written_out_and_read_back() {
    round_trip(
        "axiom F\niter 3\ninitial_pos 10,20.5\ninitial_rot 1.57\ninitial_thickness 2\n\
         background #fafafa\ninitial_color rgb(10, 20, 30)\ncanvas 500, 400\nseed a b  c\n\
         inject 1,[ 3,]\n\nangle = 0.5\nlen = 10\nangle = 0.6\n\nF: forward len\n\
         +: rotate angle\n-: rotate -angle\n[: push\n]: pop\nF: dot 1\nc: color red\n\
         s: len = len * 0.9\n\nF -> F[+F]F[-F]F\nG -> x\nG -> y\n",
    );
    round_trip("axiom A\nA -> AB\nB -> A\nb = 1\nA: forward b\niter 2\nB: ignore 1\na = 2\n");
    round_trip("axiom F\r\niter 2\r\nF -> FF\r\n");
}

#[test]
fn marks_of_the_lines_of_a_kind() {
    let loaded = load(&lines("a = 1\nF -> G\nb = x\n-> y\nc = 2\niter z\n"));
    assert_eq!(marks_of(&loaded.reports, LineType::Variable), vec![false, true, false]);
    assert_eq!(marks_of(&loaded.reports, LineType::Rule), vec![false, true]);
    assert_eq!(marks_of(&loaded.reports, LineType::Config), vec![true]);
    assert_eq!(marks_of(&loaded.reports, LineType::Operation), Vec::<bool>::new());
}
