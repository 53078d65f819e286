use unix_tools::text::{decimal_len, decimal_string, push_fill, push_padded_decimal};

#[test]
fn decimal_renderings() {
    assert_eq!(decimal_string(0), "0");
    assert_eq!(decimal_string(7), "7");
    assert_eq!(decimal_string(10), "10");
    assert_eq!(decimal_string(1234567890), "1234567890");
    assert_eq!(decimal_string(u64::MAX), "18446744073709551615");
}

#[test]
fn decimal_lengths() {
    assert_eq!(decimal_len(0), 1);
    assert_eq!(decimal_len(99), 2);
    assert_eq!(decimal_len(100), 3);
    assert_eq!(decimal_len(u64::MAX), 20);
}

#[test]
fn padded_renderings() {
    let mut s = String::from(">");
    push_padded_decimal(&mut s, 42, 4, " ");
    assert_eq!(s, ">  42");
    let mut z = String::new();
    push_padded_decimal(&mut z, 7, 3, "0");
    assert_eq!(z, "007");
    let mut w = String::new();
    push_padded_decimal(&mut w, 123456, 3, "0");
    assert_eq!(w, "123456");
    let mut f = String::from("a");
    push_fill(&mut f, "-", 3);
    assert_eq!(f, "a---");
}
