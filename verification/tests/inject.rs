use lindenmayer::inject::apply;

fn list(pairs: &[(u32, &str)]) -> Vec<(u32, String)> {
    pairs.iter().map(|(offset, text)| (*offset, text.to_string())).collect()
}

#[test]
fn injections_come_in_the_order_of_their_offsets() {
    let injections = list(&[(4, "X"), (1, "Y"), (4, "Z")]);
    assert_eq!(apply("ABCDE", &injections), "AYBCDXZE");
}

#[test]
fn injection_past_the_end_is_dropped() {
    assert_eq!(apply("ABCDE", &list(&[(10, "Q")])), "ABCDE");
    assert_eq!(apply("ABCDE", &list(&[(4, "X"), (10, "Q"), (1, "Y"), (4, "Z")])), "AYBCDXZE");
    assert_eq!(apply("ABCDE", &list(&[(6, "Q")])), "ABCDE");
}

#[test]
fn injection_at_the_ends() {
    assert_eq!(apply("ABCDE", &list(&[(0, "<"), (5, ">")])), "<ABCDE>");
    assert_eq!(apply("", &list(&[(0, "x"), (0, "y")])), "xy");
    assert_eq!(apply("", &list(&[(1, "x")])), "");
}

#[test]
fn no_injection_is_identity() {
    assert_eq!(apply("ABCDE", &Vec::new()), "ABCDE");
    assert_eq!(apply("", &Vec::new()), "");
}

#[test]
fn offsets_count_characters() {
    assert_eq!(apply("éüö", &list(&[(1, "-"), (2, "+")])), "é-ü+ö");
}

#[test]
fn injected_text_is_not_an_offset_for_later_ones() {
    assert_eq!(apply("AB", &list(&[(1, "xxxx"), (2, "y")])), "AxxxxBy");
}

#[test]
fn many_injections_in_any_order() {
    let injections = list(&[
        (3, "c1"),
        (0, "a1"),
        (9, "far"),
        (3, "c2"),
        (5, "e1"),
        (0, "a2"),
        (1, "b1"),
        (5, "e2"),
        (3, "c3"),
        (4, "d1"),
        (6, "past"),
    ]);
    assert_eq!(apply("01234", &injections), "a1a20b112c1c2c33d14e1e2");
}

#[test]
fn result_does_not_depend_on_the_order_of_different_offsets() {
    let first = list(&[(1, "x"), (2, "y"), (1, "z"), (0, "w")]);
    let second = list(&[(0, "w"), (1, "x"), (1, "z"), (2, "y")]);
    let third = list(&[(2, "y"), (1, "x"), (0, "w"), (1, "z")]);
    assert_eq!(apply("abc", &first), "waxzbyc");
    assert_eq!(apply("abc", &second), "waxzbyc");
    assert_eq!(apply("abc", &third), "waxzbyc");
}
