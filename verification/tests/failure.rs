use lindenmayer::failure::{error_message, meval_error_msg, EvalError};
use lindenmayer::outside::get_rng;
use lindenmayer::parser::parse_operation;
use lindenmayer::{LSystemRenderer, Operation, Updatable};
use rand::Rng;

#[test]
fn messages() {
    assert_eq!(error_message(&EvalError::UnknownVariable(String::from("x"))), "Invalid var: x");
    assert_eq!(error_message(&EvalError::Function(String::from("f"))), "Invalid func: f");
    assert_eq!(error_message(&EvalError::Other), "Parsing error");
}

fn failure_of(operation: &str) -> meval::Error {
    match parse_operation(operation).unwrap() {
        Operation::Forward(e) => e.parsed.eval().unwrap_err(),
        other => panic!("{:?}", other),
    }
}

#[test]
fn messages_for_errors_of_the_expression_library() {
    assert_eq!(meval_error_msg(&failure_of("forward nothing + 1")), "Invalid var: nothing");
    assert_eq!(meval_error_msg(&failure_of("forward sin(1, 2)")), "Invalid func: sin");
    let refused = "1 +".parse::<meval::Expr>().unwrap_err();
    assert_eq!(meval_error_msg(&refused), "Parsing error");
}

#[test]
fn one_seed_one_generator() {
    assert_eq!(get_rng("Default Seed"), get_rng("Default Seed"));
    assert_ne!(get_rng("Default Seed"), get_rng("default seed"));
    let mut first = get_rng("stripy zebra");
    let mut second = get_rng("stripy zebra");
    for _ in 0..16 {
        assert_eq!(first.gen::<f64>(), second.gen::<f64>());
    }
}

#[test]
fn generator_of_a_specification() {
    let mut renderer = LSystemRenderer::default();
    assert_eq!(renderer.rng, get_rng("Default Seed"));
    renderer.update("seed another").unwrap();
    assert_eq!(renderer.rng, get_rng("Default Seed"));
    renderer.update_rng();
    assert_eq!(renderer.rng, get_rng("another"));
    let _ = renderer.rng.gen::<f64>();
    assert_ne!(renderer.rng, get_rng("another"));
    renderer.update_rng();
    assert_eq!(renderer.rng, get_rng("another"));
}
