use path_tracer::text::{push_decimal, push_digits};

fn decimal(n: i64) -> String {
    let mut text = String::new();
    push_decimal(&mut text, n);
    text
}

#[test]
fn decimal_text_of_whole_numbers() {
    assert_eq!(decimal(0), "0");
    assert_eq!(decimal(7), "7");
    assert_eq!(decimal(10), "10");
    assert_eq!(decimal(254), "254");
    assert_eq!(decimal(1_234_567_890), "1234567890");
    assert_eq!(decimal(-1), "-1");
    assert_eq!(decimal(-400), "-400");
    assert_eq!(decimal(i64::MAX), "9223372036854775807");
    assert_eq!(decimal(i64::MIN), "-9223372036854775808");
}

#[test]
fn decimal_text_is_appended() {
    let mut text = String::from("w=");
    push_digits(&mut text, 400);
    text.push(' ');
    push_decimal(&mut text, -225);
    assert_eq!(text, "w=400 -225");
    let mut largest = String::new();
    push_digits(&mut largest, u64::MAX);
    assert_eq!(largest, "18446744073709551615");
}
