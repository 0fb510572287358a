use lindenmayer::text::to_chars;
use lindenmayer::turtle::{find_binding, Frame, Step, Walk};
use lindenmayer::{LSystemRenderer, Operation, Updatable};

fn bound(lines: &[&str]) -> Vec<(char, Vec<Operation>)> {
    let mut renderer = LSystemRenderer::default();
    for line in lines {
        renderer.update(line).unwrap();
    }
    renderer.operations
}

fn dispatch(index: usize, binding: usize, operation: usize) -> Step {
    Step::Dispatch { index, binding, operation }
}

#[test]
fn each_operation_of_each_symbol_in_turn() {
    let bindings = bound(&["A: forward 1", "A: rotate 1", "B: push"]);
    let symbols = to_chars("AxBA");
    let mut walk: Walk<u8, u8> = Walk::new(0);
    assert_eq!(walk.next(&symbols, &bindings), dispatch(0, 0, 0));
    assert_eq!(walk.next(&symbols, &bindings), dispatch(0, 0, 1));
    assert_eq!(walk.next(&symbols, &bindings), dispatch(2, 1, 0));
    assert_eq!(walk.next(&symbols, &bindings), dispatch(3, 0, 0));
    assert_eq!(walk.next(&symbols, &bindings), dispatch(3, 0, 1));
    assert_eq!(walk.next(&symbols, &bindings), Step::Finished);
    assert_eq!(walk.next(&symbols, &bindings), Step::Finished);
}

#[test]
fn skipped_symbols_are_not_dispatched() {
    let bindings = bound(&["A: ignore 2", "B: forward 1", "C: forward 1", "D: forward 1"]);
    let symbols = to_chars("ABCD");
    let mut walk: Walk<u8, u8> = Walk::new(0);
    assert_eq!(walk.next(&symbols, &bindings), dispatch(0, 0, 0));
    walk.set_skip(2);
    assert_eq!(walk.next(&symbols, &bindings), dispatch(3, 3, 0));
    assert_eq!(walk.skip, 0);
    assert_eq!(walk.next(&symbols, &bindings), Step::Finished);
}

#[test]
fn skipping_leaves_the_operations_of_the_same_symbol() {
    let bindings = bound(&["A: ignore 1", "A: forward 1", "B: forward 1"]);
    let symbols = to_chars("ABB");
    let mut walk: Walk<u8, u8> = Walk::new(0);
    assert_eq!(walk.next(&symbols, &bindings), dispatch(0, 0, 0));
    walk.set_skip(1);
    assert_eq!(walk.next(&symbols, &bindings), dispatch(0, 0, 1));
    assert_eq!(walk.next(&symbols, &bindings), dispatch(2, 1, 0));
    assert_eq!(walk.next(&symbols, &bindings), Step::Finished);
}

#[test]
fn skipping_counts_unbound_symbols_too() {
    let bindings = bound(&["A: ignore 2", "B: forward 1"]);
    let symbols = to_chars("AxBB");
    let mut walk: Walk<u8, u8> = Walk::new(0);
    assert_eq!(walk.next(&symbols, &bindings), dispatch(0, 0, 0));
    walk.set_skip(2);
    assert_eq!(walk.next(&symbols, &bindings), dispatch(3, 1, 0));
}

#[test]
fn skipping_past_the_end_ends_the_walk() {
    let bindings = bound(&["A: ignore 9", "B: forward 1"]);
    let symbols = to_chars("ABB");
    let mut walk: Walk<u8, u8> = Walk::new(0);
    assert_eq!(walk.next(&symbols, &bindings), dispatch(0, 0, 0));
    walk.set_skip(9);
    assert_eq!(walk.next(&symbols, &bindings), Step::Finished);
}

#[test]
fn a_later_skip_takes_the_place_of_an_earlier_one() {
    let bindings = bound(&["A: ignore 3", "A: ignore 1", "B: forward 1"]);
    let symbols = to_chars("ABBB");
    let mut walk: Walk<u8, u8> = Walk::new(0);
    assert_eq!(walk.next(&symbols, &bindings), dispatch(0, 0, 0));
    walk.set_skip(3);
    assert_eq!(walk.next(&symbols, &bindings), dispatch(0, 0, 1));
    walk.set_skip(1);
    assert_eq!(walk.next(&symbols, &bindings), dispatch(2, 1, 0));
}

#[test]
fn empty_string_and_no_binding() {
    let mut walk: Walk<u8, u8> = Walk::new(0);
    assert_eq!(walk.next(&[], &bound(&["A: push"])), Step::Finished);
    let mut walk: Walk<u8, u8> = Walk::new(0);
    assert_eq!(walk.next(&to_chars("ABC"), &Vec::new()), Step::Finished);
    assert_eq!(walk.position, 3);
}

#[test]
fn saved_states_come_back_in_reverse() {
    let mut walk: Walk<(i32, i32), i32> = Walk::new(2);
    assert_eq!(walk.depth(), 0);
    walk.push((1, 2), vec![10, 20]);
    walk.push((3, 4), vec![30, 40]);
    assert_eq!(walk.depth(), 2);
    assert_eq!(walk.pop(), Some(Frame { pose: (3, 4), values: vec![30, 40] }));
    assert_eq!(walk.depth(), 1);
    assert_eq!(walk.pop(), Some(Frame { pose: (1, 2), values: vec![10, 20] }));
    assert_eq!(walk.depth(), 0);
}

#[test]
fn bringing_back_where_nothing_is_saved_changes_nothing() {
    let mut walk: Walk<(i32, i32), i32> = Walk::new(1);
    walk.set_skip(3);
    let before = Walk { position: 0, operation: 0, skip: 3, variables: 1, frames: Vec::new() };
    assert_eq!(walk.pop(), None);
    assert_eq!(walk, before);
    walk.push((1, 1), vec![5]);
    assert_eq!(walk.pop(), Some(Frame { pose: (1, 1), values: vec![5] }));
    assert_eq!(walk.pop(), None);
    assert_eq!(walk.pop(), None);
    assert_eq!(walk, before);
}

#[test]
fn the_stacks_are_of_one_depth() {
    let mut walk: Walk<u8, u8> = Walk::new(3);
    let pushes = [true, true, false, true, false, false, false, true, true, false];
    let mut expected = 0usize;
    for (k, push) in pushes.iter().enumerate() {
        if *push {
            walk.push(k as u8, vec![1, 2, 3]);
            expected += 1;
        } else if walk.pop().is_some() {
            expected -= 1;
        }
        assert_eq!(walk.depth(), expected);
        for frame in &walk.frames {
            assert_eq!(frame.values.len(), 3);
        }
    }
}

#[test]
fn binding_of_a_symbol() {
    let bindings = bound(&["A: push", "B: pop"]);
    assert_eq!(find_binding(&bindings, 'A'), 0);
    assert_eq!(find_binding(&bindings, 'B'), 1);
    assert_eq!(find_binding(&bindings, 'C'), 2);
}
