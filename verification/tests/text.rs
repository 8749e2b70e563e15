use nctui::text::decimal_string;

#[test]
fn decimal_strings() {
    assert_eq!(decimal_string(0), "0");
    assert_eq!(decimal_string(7), "7");
    assert_eq!(decimal_string(64800), "64800");
    assert_eq!(decimal_string(usize::MAX), usize::MAX.to_string());
}
