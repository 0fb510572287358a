use lindenmayer::ConfigLines;

#[test]
fn default_entries() {
    let lines = ConfigLines::default();
    assert_eq!(lines.start, (String::new(), true));
    assert_eq!(lines.iter, (String::from("1"), false));
    assert_eq!(lines.initial_pos, (String::from("375,560"), false));
    assert_eq!(lines.initial_rot, (String::from("0"), false));
    assert_eq!(lines.initial_thickness, (String::from("1"), false));
    assert_eq!(lines.background_color, (String::from("white"), false));
    assert_eq!(lines.initial_color, (String::from("black"), false));
    assert_eq!(lines.canvas, (String::from("750,750"), false));
    assert_eq!(lines.seed, (String::from("Default Seed"), false));
    assert_eq!(lines.injections, (String::new(), false));
}

#[test]
fn a_line_is_entered_under_its_keyword() {
    let mut lines = ConfigLines::default();
    lines.update("axiom F+F", false);
    lines.update("iter   7 ", true);
    lines.update("initial_pos 1, 2", false);
    lines.update("initial_rot 3", false);
    lines.update("initial_thickness 4", false);
    lines.update("background red", false);
    lines.update("initial_color blue", true);
    lines.update("canvas 5,6", false);
    lines.update("seed a b", false);
    lines.update("inject 1,a", false);
    assert_eq!(lines.start, (String::from("F+F"), false));
    assert_eq!(lines.iter, (String::from("7"), true));
    assert_eq!(lines.initial_pos, (String::from("1, 2"), false));
    assert_eq!(lines.initial_rot, (String::from("3"), false));
    assert_eq!(lines.initial_thickness, (String::from("4"), false));
    assert_eq!(lines.background_color, (String::from("red"), false));
    assert_eq!(lines.initial_color, (String::from("blue"), true));
    assert_eq!(lines.canvas, (String::from("5,6"), false));
    assert_eq!(lines.seed, (String::from("a b"), false));
    assert_eq!(lines.injections, (String::from("1,a"), false));
}

#[test]
fn a_line_without_a_space_or_a_keyword_changes_nothing() {
    let mut lines = ConfigLines::default();
    lines.update("seed", true);
    lines.update("F -> G", true);
    lines.update(" iter 3", true);
    lines.update("", true);
    assert_eq!(lines, ConfigLines::default());
}
