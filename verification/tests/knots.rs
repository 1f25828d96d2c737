use nurbs_kernel::binomial::binomial;
use nurbs_kernel::knots::find_span;

#[test]
fn span_of_interior_parameter() {
    let knots = [0i64, 0, 0, 5, 10, 10, 10];
    assert_eq!(find_span(2, &knots, 7), 3);
    assert_eq!(find_span(2, &knots, 5), 3);
    assert_eq!(find_span(2, &knots, 4), 2);
    assert_eq!(find_span(2, &knots, 1), 2);
}

#[test]
fn span_clamps_at_the_ends() {
    let knots = [0i64, 0, 0, 5, 10, 10, 10];
    assert_eq!(find_span(2, &knots, 10), 3);
    assert_eq!(find_span(2, &knots, 25), 3);
    assert_eq!(find_span(2, &knots, 0), 2);
    assert_eq!(find_span(2, &knots, -3), 2);
}

#[test]
fn span_with_many_interior_knots() {
    let knots = [0i64, 0, 0, 0, 1, 2, 3, 4, 5, 5, 5, 5];
    for u in 0..5i64 {
        let span = find_span(3, &knots, u);
        assert!(knots[span] <= u && u < knots[span + 1]);
    }
    assert_eq!(find_span(3, &knots, 2), 5);
    assert_eq!(find_span(3, &knots, 5), 7);
}

#[test]
fn span_clamps_on_short_unsorted_knots() {
    let knots = [0i64, 5, 1, 2];
    assert_eq!(find_span(2, &knots, 6), 0);
    assert_eq!(find_span(2, &knots, 1), 2);
}

#[test]
fn span_of_bilinear_knots() {
    let knots = [0i64, 0, 1, 1];
    assert_eq!(find_span(1, &knots, 0), 1);
    assert_eq!(find_span(1, &knots, 1), 1);
}

#[test]
fn binomial_values() {
    assert_eq!(binomial(0, 0), 1);
    assert_eq!(binomial(2, 0), 1);
    assert_eq!(binomial(2, 1), 2);
    assert_eq!(binomial(2, 2), 1);
    assert_eq!(binomial(5, 2), 10);
    assert_eq!(binomial(10, 3), 120);
    assert_eq!(binomial(32, 16), 601080390);
    assert_eq!(binomial(1, 2), 0);
    assert_eq!(binomial(3, 7), 0);
}

#[test]
fn whitespace_matches_std() {
    for v in 0u32..0x110000 {
        if let Some(c) = char::from_u32(v) {
            assert_eq!(nurbs_kernel::text::char_is_whitespace(c), c.is_whitespace(), "{:x}", v);
        }
    }
}
