use canvas_vm::{color_name, Input, Output, PietColor};

#[test]
fn test_input_load_numbers_parses_tokens() {
    let mut inp = Input::new();
    inp.load_numbers("3 -7 99x 2147483648 +12");
    // 99x does not parse, 2147483648 overflows; the rest arrive in order
    assert_eq!(inp.read(), Some(3));
    assert_eq!(inp.read(), Some(-7));
    assert_eq!(inp.read(), Some(12));
    assert_eq!(inp.read(), None);
}

#[test]
fn test_input_load_numbers_bounds() {
    let mut inp = Input::new();
    inp.load_numbers("2147483647 -2147483648 -2147483649");
    assert_eq!(inp.read(), Some(i32::MAX));
    assert_eq!(inp.read(), Some(i32::MIN));
    assert_eq!(inp.read(), None);
}

#[test]
fn test_input_text_and_rewind() {
    let mut inp = Input::new();
    inp.load_text("Hi");
    assert_eq!(inp.read(), Some(72));
    assert_eq!(inp.read(), Some(105));
    assert!(!inp.has_input());
    inp.rewind();
    assert_eq!(inp.remaining(), 2);
    assert_eq!(inp.read(), Some(72));
}

#[test]
fn test_input_read_char_as_char() {
    let mut inp = Input::new();
    inp.write(65);
    inp.write(-1);
    assert_eq!(inp.read_char_as_char(), Some('A'));
    assert_eq!(inp.read_char_as_char(), None);
}

#[test]
fn test_output_renders_numbers_and_chars() {
    let mut out = Output::new();
    out.write_number(-42);
    out.write_char(72);
    out.write_char_from_char('i');
    out.write_number(0);
    assert_eq!(out.read(), vec![-42, 72, 105, 0]);
    assert_eq!(out.read_string(), "-42Hi0");
}

#[test]
fn test_color_names() {
    assert_eq!(color_name(PietColor::Red), "Red");
    assert_eq!(color_name(PietColor::LightMagenta), "LightMagenta");
    assert_eq!(color_name(PietColor::White), "White");
}
