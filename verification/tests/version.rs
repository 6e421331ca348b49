use atldp::VERSION;

#[test]
fn version_is_exposed() {
    assert!(!VERSION.is_empty());
}
