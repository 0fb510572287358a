use lindenmayer::parser::{
    classify, parse_axiom, parse_background_color, parse_canvas, parse_char_operation,
    parse_initial_color, parse_initial_pos, parse_initial_rot, parse_initial_thickness,
    parse_injections, parse_iter, parse_operation, parse_rule, parse_seed, parse_tuple_arg,
    parse_variable, FieldKind,
};
use lindenmayer::text::to_chars;
use lindenmayer::{LineType, Operation, ParsingError};

fn kind(line: &str) -> LineType {
    classify(&to_chars(line))
}

#[test]
fn kinds_of_lines() {
    assert_eq!(kind("axiom F"), LineType::Config);
    assert_eq!(kind("iter 3"), LineType::Config);
    assert_eq!(kind("initial_rot 0"), LineType::Config);
    assert_eq!(kind("initial_pos 1,2"), LineType::Config);
    assert_eq!(kind("initial_thickness 2"), LineType::Config);
    assert_eq!(kind("background white"), LineType::Config);
    assert_eq!(kind("initial_color black"), LineType::Config);
    assert_eq!(kind("canvas 10,10"), LineType::Config);
    assert_eq!(kind("seed x"), LineType::Config);
    assert_eq!(kind("inject 1,a"), LineType::Config);
    assert_eq!(kind("F -> F+F"), LineType::Rule);
    assert_eq!(kind("F: forward 10"), LineType::Operation);
    assert_eq!(kind("a = 1"), LineType::Variable);
    assert_eq!(kind(""), LineType::Nothing);
    assert_eq!(kind("hello"), LineType::Unknown);
}

#[test]
fn the_first_match_decides_the_kind() {
    // a keyword at the beginning comes before every marker
    assert_eq!(kind("seed a -> b"), LineType::Config);
    assert_eq!(kind("iter: x = 1"), LineType::Config);
    // the marker of a rule comes before that of an operation
    assert_eq!(kind(":: -> x"), LineType::Rule);
    assert_eq!(kind("F: x -> y"), LineType::Rule);
    // the marker of an operation must be the second character
    assert_eq!(kind("F: a = 1"), LineType::Operation);
    assert_eq!(kind("F : forward 1"), LineType::Unknown);
    assert_eq!(kind("ab: c = 1"), LineType::Variable);
    assert_eq!(kind(":"), LineType::Unknown);
    assert_eq!(kind("é: forward 1"), LineType::Operation);
}

#[test]
fn axiom_is_what_follows_the_first_space() {
    assert_eq!(parse_axiom("axiom F+F").unwrap(), "F+F");
    assert_eq!(parse_axiom("axiom F F").unwrap(), "F F");
    assert_eq!(parse_axiom("axiom ").unwrap(), "");
    assert_eq!(parse_axiom("axiom"), Err(ParsingError::InvalidFormat));
}

#[test]
fn generations() {
    assert_eq!(parse_iter("iter 3"), Ok(3));
    assert_eq!(parse_iter("iter 0"), Ok(0));
    assert_eq!(parse_iter("iter +7"), Ok(7));
    assert_eq!(parse_iter("iter"), Err(ParsingError::InvalidFormat));
    assert_eq!(parse_iter("iter -1"), Err(ParsingError::InvalidInteger));
    assert_eq!(parse_iter("iter 1.5"), Err(ParsingError::InvalidInteger));
    assert_eq!(parse_iter("iter x"), Err(ParsingError::InvalidInteger));
    assert_eq!(parse_iter("iter 3 4"), Err(ParsingError::InvalidInteger));
    assert_eq!(parse_iter("iter "), Err(ParsingError::InvalidInteger));
}

#[test]
fn numbers_are_kept_as_written() {
    assert_eq!(parse_initial_rot("initial_rot 1.5708").unwrap(), "1.5708");
    assert_eq!(parse_initial_rot("initial_rot 1.5708").unwrap().parse::<f64>(), Ok(1.5708));
    assert_eq!(parse_initial_rot("initial_rot -1e-3").unwrap().parse::<f64>(), Ok(-0.001));
    assert_eq!(parse_initial_rot("initial_rot"), Err(ParsingError::InvalidFormat));
    assert_eq!(parse_initial_rot("initial_rot x"), Err(ParsingError::InvalidFloatingPoint));
    assert_eq!(parse_initial_rot("initial_rot 1,5"), Err(ParsingError::InvalidFloatingPoint));
    assert_eq!(parse_initial_thickness("initial_thickness 2").unwrap(), "2");
    assert_eq!(parse_initial_thickness("initial_thickness"), Err(ParsingError::InvalidFormat));
    assert_eq!(
        parse_initial_thickness("initial_thickness thick"),
        Err(ParsingError::InvalidFloatingPoint)
    );
}

#[test]
fn seed_is_any_text() {
    assert_eq!(parse_seed("seed Default Seed").unwrap(), "Default Seed");
    assert_eq!(parse_seed("seed").unwrap(), "");
    assert_eq!(parse_seed("seed ").unwrap(), "");
    assert_eq!(parse_seed("seed  x").unwrap(), " x");
}

#[test]
fn pairs() {
    assert_eq!(
        parse_tuple_arg(" 1 , 2 ", FieldKind::Integer, FieldKind::Integer),
        Ok((String::from("1"), String::from("2")))
    );
    assert_eq!(
        parse_tuple_arg("1,2,3", FieldKind::Integer, FieldKind::Integer),
        Ok((String::from("1"), String::from("2")))
    );
    assert_eq!(
        parse_tuple_arg("1", FieldKind::Integer, FieldKind::Integer),
        Err(ParsingError::InvalidFormat)
    );
    assert_eq!(
        parse_tuple_arg("x", FieldKind::Integer, FieldKind::Integer),
        Err(ParsingError::InvalidTuple)
    );
    assert_eq!(
        parse_tuple_arg("1,x", FieldKind::Integer, FieldKind::Integer),
        Err(ParsingError::InvalidTuple)
    );
    assert_eq!(
        parse_tuple_arg("-1,a b", FieldKind::Offset, FieldKind::Text),
        Err(ParsingError::InvalidTuple)
    );
    assert_eq!(
        parse_tuple_arg("1,a b", FieldKind::Offset, FieldKind::Text),
        Ok((String::from("1"), String::from("a b")))
    );
    assert_eq!(
        parse_tuple_arg("1.5,.5", FieldKind::Number, FieldKind::Number),
        Ok((String::from("1.5"), String::from(".5")))
    );
    assert_eq!(
        parse_tuple_arg("1.5,", FieldKind::Number, FieldKind::Number),
        Err(ParsingError::InvalidTuple)
    );
}

#[test]
fn position_of_the_turtle() {
    assert_eq!(
        parse_initial_pos("initial_pos 375,560"),
        Ok((String::from("375"), String::from("560")))
    );
    assert_eq!(
        parse_initial_pos("initial_pos 1.5, -2e2"),
        Ok((String::from("1.5"), String::from("-2e2")))
    );
    assert_eq!(parse_initial_pos("initial_pos"), Err(ParsingError::InvalidFormat));
    assert_eq!(parse_initial_pos("initial_pos 1"), Err(ParsingError::InvalidFormat));
    assert_eq!(parse_initial_pos("initial_pos a,1"), Err(ParsingError::InvalidTuple));
    assert_eq!(parse_initial_pos("initial_pos 1,a"), Err(ParsingError::InvalidTuple));
}

#[test]
fn size_of_the_canvas() {
    assert_eq!(parse_canvas("canvas 750,750"), Ok((750, 750)));
    assert_eq!(parse_canvas("canvas 0,0"), Ok((0, 0)));
    assert_eq!(parse_canvas("canvas -5,10"), Err(ParsingError::InvalidInteger));
    assert_eq!(parse_canvas("canvas 5,-10"), Err(ParsingError::InvalidInteger));
    assert_eq!(parse_canvas("canvas 5"), Err(ParsingError::InvalidFormat));
    assert_eq!(parse_canvas("canvas"), Err(ParsingError::InvalidFormat));
    assert_eq!(parse_canvas("canvas a,b"), Err(ParsingError::InvalidTuple));
    assert_eq!(parse_canvas("canvas 1.5,2"), Err(ParsingError::InvalidTuple));
    assert_eq!(parse_canvas("canvas 2147483648,2"), Err(ParsingError::InvalidTuple));
}

#[test]
fn injections() {
    assert_eq!(parse_injections("inject"), Ok(vec![]));
    assert_eq!(
        parse_injections("inject 4,X 1,Y 4,Z"),
        Ok(vec![(4, String::from("X")), (1, String::from("Y")), (4, String::from("Z"))])
    );
    assert_eq!(parse_injections("inject 3,ab"), Ok(vec![(3, String::from("ab"))]));
    assert_eq!(parse_injections("inject 3,"), Err(ParsingError::InvalidTuple));
    assert_eq!(parse_injections("inject 3"), Err(ParsingError::InvalidFormat));
    assert_eq!(parse_injections("inject -3,a"), Err(ParsingError::InvalidTuple));
    assert_eq!(parse_injections("inject x,a"), Err(ParsingError::InvalidTuple));
    assert_eq!(parse_injections("inject 1,a  2,b"), Err(ParsingError::InvalidTuple));
    assert_eq!(parse_injections("inject 1,a 2"), Err(ParsingError::InvalidFormat));
    assert_eq!(parse_injections("inject "), Err(ParsingError::InvalidTuple));
}

#[test]
fn rules() {
    assert_eq!(parse_rule("F -> F+F"), Ok(('F', String::from("F+F"))));
    assert_eq!(parse_rule("F->F+F"), Ok(('F', String::from("F+F"))));
    assert_eq!(parse_rule("FG -> x"), Ok(('F', String::from("x"))));
    assert_eq!(parse_rule("F ->"), Ok(('F', String::new())));
    assert_eq!(parse_rule("A -> B -> C"), Ok(('A', String::from("B -> C"))));
    assert_eq!(parse_rule("-> x"), Err(ParsingError::InvalidFormat));
    assert_eq!(parse_rule("  -> x"), Err(ParsingError::InvalidFormat));
    assert_eq!(parse_rule("F"), Err(ParsingError::InvalidFormat));
}

#[test]
fn variables() {
    assert_eq!(parse_variable("a = 1.5"), Ok((String::from("a"), String::from("1.5"))));
    assert_eq!(parse_variable("a=1"), Ok((String::from("a"), String::from("1"))));
    assert_eq!(parse_variable(" my var =  2 "), Ok((String::from("my var"), String::from("2"))));
    assert_eq!(parse_variable("= 1"), Ok((String::new(), String::from("1"))));
    assert_eq!(parse_variable("a"), Err(ParsingError::InvalidFormat));
    assert_eq!(parse_variable("a = b"), Err(ParsingError::InvalidFloatingPoint));
    assert_eq!(parse_variable("a = 1 + 1"), Err(ParsingError::InvalidFloatingPoint));
    assert_eq!(parse_variable("a = 1 = 2"), Err(ParsingError::InvalidFloatingPoint));
    assert_eq!(parse_variable("a ="), Err(ParsingError::InvalidFloatingPoint));
}

#[test]
fn colours() {
    let red = parse_background_color("background red").unwrap();
    assert_eq!((red.r, red.g, red.b, red.a), (1.0, 0.0, 0.0, 1.0));
    let white = parse_background_color("background white").unwrap();
    assert_eq!((white.r, white.g, white.b, white.a), (1.0, 1.0, 1.0, 1.0));
    let half = parse_initial_color("initial_color rgba(0, 0, 255, 0.5)").unwrap();
    assert_eq!((half.r, half.g, half.b, half.a), (0.0, 0.0, 1.0, 0.5));
    let hex = parse_initial_color("initial_color #00ff00").unwrap();
    assert_eq!((hex.r, hex.g, hex.b, hex.a), (0.0, 1.0, 0.0, 1.0));
    assert_eq!(parse_background_color("background"), Err(ParsingError::InvalidFormat));
    assert_eq!(parse_background_color("background nocolour"), Err(ParsingError::InvalidColor));
    assert_eq!(parse_initial_color("initial_color"), Err(ParsingError::InvalidFormat));
    assert_eq!(parse_initial_color("initial_color rgb(1)"), Err(ParsingError::InvalidColor));
}

fn value_of(operation: &Operation) -> f64 {
    match operation {
        Operation::Forward(e)
        | Operation::Jump(e)
        | Operation::Dot(e)
        | Operation::Rotate(e)
        | Operation::Thickness(e)
        | Operation::Ignore(e)
        | Operation::SetVar(_, e) => e.parsed.eval().unwrap(),
        _ => panic!("no expression"),
    }
}

#[test]
fn operations_with_an_expression() {
    let forward = parse_operation("forward 1 + 2 * 3").unwrap();
    assert!(matches!(&forward, Operation::Forward(e) if e.source == "1 + 2 * 3"));
    assert_eq!(value_of(&forward), 7.0);
    let jump = parse_operation("jump 2^3").unwrap();
    assert!(matches!(&jump, Operation::Jump(e) if e.source == "2^3"));
    assert_eq!(value_of(&jump), 8.0);
    let dot = parse_operation("dot 4").unwrap();
    assert!(matches!(&dot, Operation::Dot(_)));
    assert_eq!(value_of(&dot), 4.0);
    let rotate = parse_operation("rotate -pi").unwrap();
    assert!(matches!(&rotate, Operation::Rotate(_)));
    assert_eq!(value_of(&rotate), -std::f64::consts::PI);
    let thickness = parse_operation("thickness 3").unwrap();
    assert!(matches!(&thickness, Operation::Thickness(_)));
    assert_eq!(value_of(&thickness), 3.0);
    let ignore = parse_operation("ignore 2").unwrap();
    assert!(matches!(&ignore, Operation::Ignore(_)));
    assert_eq!(value_of(&ignore), 2.0);
}

#[test]
fn white_space_around_an_expression_does_not_count() {
    let forward = parse_operation("forward    10  ").unwrap();
    assert!(matches!(&forward, Operation::Forward(e) if e.source == "10"));
    assert_eq!(value_of(&forward), 10.0);
}

#[test]
fn operations_without_an_expression() {
    assert_eq!(parse_operation("push"), Ok(Operation::PushStack));
    assert_eq!(parse_operation("pop"), Ok(Operation::PopStack));
    assert_eq!(parse_operation("push now"), Ok(Operation::PushStack));
}

#[test]
fn operation_that_sets_a_colour() {
    match parse_operation("color red").unwrap() {
        Operation::SetColor(c) => assert_eq!((c.r, c.g, c.b, c.a), (1.0, 0.0, 0.0, 1.0)),
        other => panic!("{:?}", other),
    }
    assert_eq!(parse_operation("color"), Err(ParsingError::InvalidFormat));
    assert_eq!(parse_operation("color nocolour"), Err(ParsingError::InvalidColor));
}

#[test]
fn operation_that_sets_a_variable() {
    let set = parse_operation("x = x + 1").unwrap();
    assert!(matches!(&set, Operation::SetVar(name, e) if name == "x" && e.source == "x + 1"));
    let set = parse_operation("len = 2 * 4").unwrap();
    assert_eq!(value_of(&set), 8.0);
    assert_eq!(parse_operation("x=1"), Err(ParsingError::InvalidFormat));
    assert_eq!(parse_operation("x= 1"), Err(ParsingError::InvalidExpression));
    assert_eq!(parse_operation("x ="), Err(ParsingError::InvalidExpression));
}

#[test]
fn operations_that_do_not_read() {
    assert_eq!(parse_operation("forward"), Err(ParsingError::InvalidFormat));
    assert_eq!(parse_operation("forward "), Err(ParsingError::InvalidExpression));
    assert_eq!(parse_operation("forward   "), Err(ParsingError::InvalidExpression));
    assert_eq!(parse_operation("forward 1 +"), Err(ParsingError::InvalidExpression));
    assert_eq!(parse_operation("forward (1"), Err(ParsingError::InvalidExpression));
    assert_eq!(parse_operation("forward 1 2"), Err(ParsingError::InvalidExpression));
    assert_eq!(parse_operation("fly 1"), Err(ParsingError::InvalidOperation));
    assert_eq!(parse_operation(""), Err(ParsingError::InvalidOperation));
    assert_eq!(parse_operation("Forward 1"), Err(ParsingError::InvalidOperation));
}

#[test]
fn bindings() {
    let (symbol, operation) = parse_char_operation("F: forward 10").unwrap();
    assert_eq!(symbol, 'F');
    assert_eq!(value_of(&operation), 10.0);
    let (symbol, operation) = parse_char_operation("+:rotate 1").unwrap();
    assert_eq!(symbol, '+');
    assert!(matches!(operation, Operation::Rotate(_)));
    let (symbol, operation) = parse_char_operation("[: push").unwrap();
    assert_eq!((symbol, operation), ('[', Operation::PushStack));
    assert_eq!(parse_char_operation("F"), Err(ParsingError::InvalidFormat));
    assert_eq!(parse_char_operation(""), Err(ParsingError::InvalidFormat));
    assert_eq!(parse_char_operation("F:"), Err(ParsingError::InvalidOperation));
    assert_eq!(parse_char_operation("F: fly"), Err(ParsingError::InvalidOperation));
}
