use lox::text::{decimal_len, decimal_string};

#[test]
fn decimal_notation() {
    assert_eq!(decimal_string(0), "0");
    assert_eq!(decimal_string(1203), "1203");
    assert_eq!(decimal_string(usize::MAX), usize::MAX.to_string());
    assert_eq!(decimal_len(99), 2);
    assert_eq!(decimal_len(100), 3);
}
