use lindenmayer::LSystem;

#[test]
fn algae() {
    let start = "A";
    let rules = [('A', String::from("AB")), ('B', String::from("A"))];

    let system = LSystem::new(&start, &rules);

    assert_eq!(&system.expand(0), "A");
    assert_eq!(&system.expand(1), "AB");
    assert_eq!(&system.expand(2), "ABA");
    assert_eq!(&system.expand(3), "ABAAB");
    assert_eq!(&system.expand(4), "ABAABABA");
    assert_eq!(&system.expand(5), "ABAABABAABAAB");
    assert_eq!(&system.expand(6), "ABAABABAABAABABAABABA");
    assert_eq!(&system.expand(7), "ABAABABAABAABABAABABAABAABABAABAAB");
}

#[test]
fn expansion_is_repeatable() {
    let rules = [('F', String::from("F+F-F")), ('+', String::from("+"))];
    let system = LSystem::new("F+F", &rules);
    let again = LSystem::new("F+F", &rules);
    for generations in 0..5 {
        assert_eq!(system.expand(generations), system.expand(generations));
        assert_eq!(system.expand(generations), again.expand(generations));
    }
}

#[test]
fn no_generation_leaves_the_start() {
    let rules = [('A', String::from("BB"))];
    let system = LSystem::new("ABA", &rules);
    assert_eq!(system.expand(0), "ABA");
}

#[test]
fn unbound_symbols_stay() {
    let rules = [('A', String::from("AA"))];
    let system = LSystem::new("AxA", &rules);
    assert_eq!(system.expand(1), "AAxAA");
    assert_eq!(system.expand(2), "AAAAxAAAA");
}

#[test]
fn replacement_is_not_rewritten_in_its_pass() {
    let rules = [('A', String::from("B")), ('B', String::from("C"))];
    let system = LSystem::new("AB", &rules);
    assert_eq!(system.apply_rules(String::from("AB")), "BC");
    assert_eq!(system.apply_rules_times(String::from("AB"), 2), "CC");
}

#[test]
fn later_rule_for_a_symbol_stands() {
    let rules = [('A', String::from("x")), ('A', String::from("y"))];
    let system = LSystem::new("AA", &rules);
    assert_eq!(system.expand(1), "yy");
    assert_eq!(system.rules.len(), 1);
}

#[test]
fn rule_with_empty_replacement_erases() {
    let rules = [('A', String::new())];
    let system = LSystem::new("ABA", &rules);
    assert_eq!(system.expand(1), "B");
}

#[test]
fn symbols_beyond_ascii() {
    let rules = [('é', String::from("éü"))];
    let system = LSystem::new("é", &rules);
    assert_eq!(system.expand(2), "éüü");
}
