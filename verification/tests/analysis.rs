use atldp::analysis::support_spans;

#[test]
fn interior_support_sees_both_spans() {
    // Three structures, two solved spans.
    let r = support_spans(&vec![Some('a'), Some('b')], 3);
    assert_eq!(
        r,
        vec![(0, None, Some('a')), (1, Some('a'), Some('b')), (2, Some('b'), None)]
    );
}

#[test]
fn unsolved_span_leaves_isolated_support_out() {
    // The middle span failed: structure 2 still sees span 2, structure 1 sees span 0.
    let r = support_spans(&vec![Some(10), None, Some(30)], 4);
    assert_eq!(
        r,
        vec![(0, None, Some(10)), (1, Some(10), None), (2, None, Some(30)), (3, Some(30), None)]
    );
    // With every span unsolved no structure is loaded.
    assert!(support_spans(&vec![None::<u8>, None], 3).is_empty());
}

#[test]
fn single_structure_and_empty_line() {
    assert!(support_spans(&Vec::<Option<u8>>::new(), 1).is_empty());
    assert!(support_spans(&Vec::<Option<u8>>::new(), 0).is_empty());
}
