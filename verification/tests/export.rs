use lindenmayer::export::serialize_renderer;
use lindenmayer::ConfEditor;

#[test]
fn empty_editor() {
    assert_eq!(serialize_renderer(&ConfEditor::default()), "\n\n\n\n");
}

#[test]
fn groups_in_their_order() {
    let editor = ConfEditor {
        configurations: vec![String::from("axiom F"), String::from("iter 2")],
        rules: vec![String::from("F -> FF"), String::new()],
        operations: vec![String::new(), String::from("F: forward 1"), String::new()],
        variables: vec![String::from("a = 1"), String::from("b = 2")],
    };
    assert_eq!(
        serialize_renderer(&editor),
        "axiom F\niter 2\n\na = 1\nb = 2\n\nF: forward 1\n\nF -> FF\n\n"
    );
}
