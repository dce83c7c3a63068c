use lumascript::hex_text::LumaHexConverter;

#[test]
fn test_hex_converter_basic() {
    let mut converter = LumaHexConverter::new();

    let input = "Hello";
    let hex = converter.text_to_hex(input, 1);
    assert_eq!(hex, "48656c6c6f"); // "Hello" in hex

    let text = converter.hex_to_text(&hex, 2).unwrap();
    assert_eq!(text, "Hello");
}

#[test]
fn test_special_characters() {
    let mut converter = LumaHexConverter::new();

    let input = "LumaScript🚀";
    let hex = converter.text_to_hex(input, 1);
    let text = converter.hex_to_text(&hex, 2).unwrap();
    assert_eq!(text, input);
}

#[test]
fn test_empty_input() {
    let mut converter = LumaHexConverter::new();

    let hex = converter.text_to_hex("", 1);
    assert_eq!(hex, "");

    let text = converter.hex_to_text("", 2).unwrap();
    assert_eq!(text, "");
}

#[test]
fn test_error_handling() {
    let mut converter = LumaHexConverter::new();

    // Test invalid hex input
    let result = converter.hex_to_text("invalid hex", 1);
    assert!(result.is_err());

    // Test odd length hex
    let result = converter.hex_to_text("abc", 2);
    assert!(result.is_err());

    // Test non-utf8 sequences
    let result = converter.hex_to_text("FF", 3);
    assert!(result.is_err());
}

#[test]
fn test_uppercase_hex_accepted() {
    let mut converter = LumaHexConverter::new();
    let text = converter.hex_to_text("48454C4C4F", 1).unwrap();
    assert_eq!(text, "HELLO");
}

#[test]
fn test_converter_stats_count_operations() {
    let mut converter = LumaHexConverter::new();
    assert_eq!(converter.get_stats().operation_count, 0);
    assert!(converter.get_stats().last_operation.is_none());

    let hex = converter.text_to_hex("LumaScript", 7);
    let decoded = converter.hex_to_text(&hex, 9).unwrap();
    assert_eq!(decoded, "LumaScript");

    let stats = converter.get_stats();
    assert_eq!(stats.operation_count, 2);
    assert_eq!(stats.last_operation, Some(9));
}
