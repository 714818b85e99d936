use yapcol::Mismatch;

#[test]
fn same_with_expectation_equal() {
    let m1 = Mismatch::new("h", "p");
    let m2 = Mismatch::new("h", "p");
    assert_eq!(m1, m2);
}

#[test]
fn same_without_expectation_equal() {
    let m1 = Mismatch::without_expectation("hello");
    let m2 = Mismatch::without_expectation("hello");
    assert_eq!(m1, m2);
}

#[test]
fn different_expectation_presence() {
    let m1 = Mismatch::new("hello", "p");
    let m2 = Mismatch::without_expectation("hello");
    assert_ne!(m1, m2);
}

#[test]
fn different_expectation() {
    let m1 = Mismatch::new("hello", "p");
    let m2 = Mismatch::new("hallo", "p");
    assert_ne!(m1, m2);
}

#[test]
fn different_found() {
    let m1 = Mismatch::new("hello", "p");
    let m2 = Mismatch::new("hello", "x");
    assert_ne!(m1, m2);
}
