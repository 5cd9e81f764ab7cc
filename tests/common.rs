use sensor_interface::common::{color, color_bold, get_type, int_to_text, padded_to_text};

#[test]
fn test_color_1() {
    assert_eq!(color("Hello", 32), "\x1B[0;32mHello\x1B[0;0m");
}

#[test]
fn test_color_bold_1() {
    assert_eq!(color_bold("Hello", 32), "\x1B[1;32mHello\x1B[0;0m")
}

#[test]
fn test_get_type_1() {
    assert_eq!(get_type(&1), "i32");
}

#[test]
fn color_negative_code() {
    assert_eq!(color("x", -7), "\x1B[0;-7mx\x1B[0;0m");
}

#[test]
fn get_type_other_types() {
    assert_eq!(get_type(&String::new()), "alloc::string::String");
    assert_eq!(get_type(&7u64), "u64");
    assert_eq!(get_type(&true), "bool");
}

#[test]
fn integer_text() {
    assert_eq!(int_to_text(0), "0");
    assert_eq!(int_to_text(1203), "1203");
    assert_eq!(int_to_text(-45), "-45");
    assert_eq!(padded_to_text(42, 6), "000042");
}
