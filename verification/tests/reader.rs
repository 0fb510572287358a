use lindenmayer::reader::{add_operation, set_variable};
use lindenmayer::renderer::color_by_name;
use lindenmayer::{LSystemRenderer, LineType, Operation, ParsingError, Updatable};

#[test]
fn default_specification() {
    let renderer = LSystemRenderer::default();
    assert_eq!(renderer.lsystem.start, "");
    assert!(renderer.lsystem.rules.is_empty());
    assert_eq!(renderer.iter, 1);
    assert_eq!(renderer.initial_pos, (String::from("375"), String::from("560")));
    assert_eq!(renderer.initial_pos.0.parse::<f64>(), Ok(375.0));
    assert_eq!(renderer.initial_pos.1.parse::<f64>(), Ok(560.0));
    assert_eq!(renderer.initial_rot.parse::<f64>(), Ok(0.0));
    assert_eq!(renderer.initial_thickness.parse::<f64>(), Ok(1.0));
    let white = &renderer.background_color;
    assert_eq!((white.r, white.g, white.b, white.a), (1.0, 1.0, 1.0, 1.0));
    let black = &renderer.initial_color;
    assert_eq!((black.r, black.g, black.b, black.a), (0.0, 0.0, 0.0, 1.0));
    assert_eq!(renderer.canvas, (750, 750));
    assert_eq!(renderer.seed, "Default Seed");
    assert!(renderer.injections.is_empty());
    assert!(renderer.variables.is_empty());
    assert!(renderer.operations.is_empty());
    assert_eq!(renderer.expression, "");
}

#[test]
fn a_line_changes_what_it_declares() {
    let mut renderer = LSystemRenderer::default();
    assert_eq!(renderer.update("axiom F+F"), Ok(LineType::Config));
    assert_eq!(renderer.lsystem.start, "F+F");
    assert_eq!(renderer.update("  iter 4  "), Ok(LineType::Config));
    assert_eq!(renderer.iter, 4);
    assert_eq!(renderer.update("initial_rot 1.5"), Ok(LineType::Config));
    assert_eq!(renderer.initial_rot, "1.5");
    assert_eq!(renderer.update("initial_pos 10, 20"), Ok(LineType::Config));
    assert_eq!(renderer.initial_pos, (String::from("10"), String::from("20")));
    assert_eq!(renderer.update("initial_thickness 3"), Ok(LineType::Config));
    assert_eq!(renderer.initial_thickness, "3");
    assert_eq!(renderer.update("background blue"), Ok(LineType::Config));
    assert_eq!(renderer.background_color.b, 1.0);
    assert_eq!(renderer.background_color.r, 0.0);
    assert_eq!(renderer.update("initial_color lime"), Ok(LineType::Config));
    assert_eq!(renderer.initial_color.g, 1.0);
    assert_eq!(renderer.update("canvas 100,200"), Ok(LineType::Config));
    assert_eq!(renderer.canvas, (100, 200));
    assert_eq!(renderer.update("seed my seed"), Ok(LineType::Config));
    assert_eq!(renderer.seed, "my seed");
    assert_eq!(renderer.update("inject 1,a 2,b"), Ok(LineType::Config));
    assert_eq!(renderer.injections, vec![(1, String::from("a")), (2, String::from("b"))]);
    assert_eq!(renderer.update("F -> FF"), Ok(LineType::Rule));
    assert_eq!(renderer.lsystem.rules.get(&('F' as u32)), Some(&String::from("FF")));
    assert_eq!(renderer.update("F: forward 5"), Ok(LineType::Operation));
    assert_eq!(renderer.operations.len(), 1);
    assert_eq!(renderer.update("angle = 0.5"), Ok(LineType::Variable));
    assert_eq!(renderer.variables, vec![(String::from("angle"), String::from("0.5"))]);
    assert_eq!(renderer.update(""), Ok(LineType::Nothing));
    assert_eq!(renderer.update("   "), Ok(LineType::Nothing));
}

#[test]
fn a_line_that_does_not_read_changes_nothing() {
    let mut renderer = LSystemRenderer::default();
    renderer.update("axiom F").unwrap();
    renderer.update("canvas 100,200").unwrap();
    renderer.update("F: forward 5").unwrap();
    renderer.update("a = 1").unwrap();
    let lines = [
        ("what is this", ParsingError::UnknownAction),
        ("axiom", ParsingError::InvalidFormat),
        ("iter x", ParsingError::InvalidInteger),
        ("initial_rot x", ParsingError::InvalidFloatingPoint),
        ("F: fly 1", ParsingError::InvalidOperation),
        ("F: forward 1 +", ParsingError::InvalidExpression),
        ("canvas x,1", ParsingError::InvalidTuple),
        ("canvas -5,10", ParsingError::InvalidInteger),
        ("background nocolour", ParsingError::InvalidColor),
        ("a = b", ParsingError::InvalidFloatingPoint),
        ("-> x", ParsingError::InvalidFormat),
    ];
    for (line, error) in lines {
        let mut changed = LSystemRenderer::default();
        changed.update("axiom F").unwrap();
        changed.update("canvas 100,200").unwrap();
        changed.update("F: forward 5").unwrap();
        changed.update("a = 1").unwrap();
        assert_eq!(changed.update(line), Err(error), "{:?}", line);
        assert_eq!(changed, renderer, "{:?}", line);
    }
}

#[test]
fn operations_of_a_symbol_gather_in_their_order() {
    let mut renderer = LSystemRenderer::default();
    renderer.update("F: forward 5").unwrap();
    renderer.update("G: pop").unwrap();
    renderer.update("F: rotate 1").unwrap();
    renderer.update("F: push").unwrap();
    assert_eq!(renderer.operations.len(), 2);
    assert_eq!(renderer.operations[0].0, 'F');
    assert_eq!(renderer.operations[0].1.len(), 3);
    assert!(matches!(renderer.operations[0].1[0], Operation::Forward(_)));
    assert!(matches!(renderer.operations[0].1[1], Operation::Rotate(_)));
    assert!(matches!(renderer.operations[0].1[2], Operation::PushStack));
    assert_eq!(renderer.operations[1].0, 'G');
    assert_eq!(renderer.operations[1].1, vec![Operation::PopStack]);
}

#[test]
fn later_declarations_take_the_place_of_earlier_ones() {
    let mut renderer = LSystemRenderer::default();
    renderer.update("a = 1").unwrap();
    renderer.update("b = 2").unwrap();
    renderer.update("a = 3").unwrap();
    assert_eq!(
        renderer.variables,
        vec![(String::from("a"), String::from("3")), (String::from("b"), String::from("2"))]
    );
    renderer.update("F -> x").unwrap();
    renderer.update("F -> y").unwrap();
    assert_eq!(renderer.lsystem.rules.len(), 1);
    assert_eq!(renderer.lsystem.rules.get(&('F' as u32)), Some(&String::from("y")));
}

#[test]
fn kind_of_a_line() {
    let renderer = LSystemRenderer::default();
    assert_eq!(renderer.get_line_type("axiom F"), LineType::Config);
    assert_eq!(renderer.get_line_type("  axiom F"), LineType::Config);
    assert_eq!(renderer.get_line_type("F -> G"), LineType::Rule);
    assert_eq!(renderer.get_line_type("F: push"), LineType::Operation);
    assert_eq!(renderer.get_line_type("a = 1"), LineType::Variable);
    assert_eq!(renderer.get_line_type(""), LineType::Nothing);
    assert_eq!(renderer.get_line_type(" \t "), LineType::Nothing);
    assert_eq!(renderer.get_line_type("???"), LineType::Unknown);
}

#[test]
fn reading_twice_gives_the_same() {
    let lines = ["axiom F", "iter 3", "F -> F+F", "F: forward 10", "+: rotate 0.5", "a = 1"];
    let mut first = LSystemRenderer::default();
    let mut second = LSystemRenderer::default();
    for line in lines {
        first.update(line).unwrap();
    }
    for line in lines {
        second.update(line).unwrap();
    }
    assert_eq!(first, second);
}

#[test]
fn variables_and_bindings_by_hand() {
    let mut variables = Vec::new();
    set_variable(&mut variables, String::from("a"), String::from("1"));
    set_variable(&mut variables, String::from("a"), String::from("2"));
    assert_eq!(variables, vec![(String::from("a"), String::from("2"))]);
    let mut bindings = Vec::new();
    add_operation(&mut bindings, 'F', Operation::PushStack);
    add_operation(&mut bindings, 'F', Operation::PopStack);
    assert_eq!(bindings, vec![('F', vec![Operation::PushStack, Operation::PopStack])]);
}

#[test]
fn expanded_string_with_injections() {
    let mut renderer = LSystemRenderer::default();
    renderer.update("axiom ABCDE").unwrap();
    renderer.update("iter 0").unwrap();
    renderer.update("inject 4,X 1,Y 4,Z 10,Q").unwrap();
    assert_eq!(renderer.expression, "");
    renderer.update_expr();
    assert_eq!(renderer.expression, "AYBCDXZE");
    renderer.update("axiom A").unwrap();
    renderer.update("iter 3").unwrap();
    renderer.update("A -> AB").unwrap();
    renderer.update("B -> A").unwrap();
    renderer.update("inject 0,<").unwrap();
    renderer.update_expr();
    assert_eq!(renderer.expression, "<ABAAB");
}

#[test]
fn colour_of_a_name() {
    let red = color_by_name("red", 0, 0, 0);
    assert_eq!((red.r, red.g, red.b, red.a), (1.0, 0.0, 0.0, 1.0));
    let unknown = color_by_name("no such colour", 255, 0, 51);
    assert_eq!((unknown.r, unknown.g, unknown.b, unknown.a), (1.0, 0.0, 0.2, 1.0));
}

#[test]
fn specification_from_its_parts() {
    let rules = [('A', String::from("AB")), ('B', String::from("A"))];
    let renderer = LSystemRenderer::new(
        lindenmayer::LSystem::new("A", &rules),
        3,
        (String::from("1"), String::from("2")),
        String::from("0"),
        String::from("1"),
        color_by_name("white", 255, 255, 255),
        color_by_name("black", 0, 0, 0),
        (10, 20),
        String::from("s"),
        vec![(1, String::from("x"))],
        Vec::new(),
        Vec::new(),
    );
    assert_eq!(renderer.expression, "ABAAB");
    assert_eq!(renderer.rng, lindenmayer::outside::get_rng("s"));
    assert_eq!(renderer.iter, 3);
    assert_eq!(renderer.canvas, (10, 20));
}
