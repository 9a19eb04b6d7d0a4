use gid::{Color, FromGitStr, ToGitString, Value};

#[test]
fn color_numbers_render_decimal_below_256_and_hex_above() {
    assert_eq!(Color::Number(0).to_string(), "0");
    assert_eq!(Color::Number(0).to_git_string(), "0");
    assert_eq!(Color::Number(255).to_string(), "255");
    assert_eq!(Color::Number(255).to_git_string(), "255");
    assert_eq!(Color::Number(256).to_string(), "0x100");
    assert_eq!(Color::Number(256).to_git_string(), "#100");
    assert_eq!(Color::Number(4294967295).to_string(), "0xffffffff");
    assert_eq!(Color::Number(4294967295).to_git_string(), "#ffffffff");
}

#[test]
fn color_keywords_are_quoted_only_in_the_document() {
    let c = Color::String("bold".to_string());
    assert_eq!(c.to_string(), "\"bold\"");
    assert_eq!(c.to_git_string(), "bold");
}

#[test]
fn scalar_values_render_alike_in_both_forms() {
    assert_eq!(Value::Boolean(true).to_string(), "true");
    assert_eq!(Value::Boolean(false).to_git_string(), "false");
    assert_eq!(Value::Integer(-42).to_string(), "-42");
    assert_eq!(Value::Integer(i64::MIN).to_git_string(), "-9223372036854775808");
    assert_eq!(Value::Integer(i64::MAX).to_string(), "9223372036854775807");
}

#[test]
fn strings_are_escaped_in_the_document_and_raw_for_git() {
    let v = Value::String("a \"b\" \\ c\td".to_string());
    assert_eq!(v.to_string(), "\"a \\\"b\\\" \\\\ c\\td\"");
    assert_eq!(v.to_git_string(), "a \"b\" \\ c\td");
}

#[test]
fn strings_with_line_breaks_use_triple_quotes() {
    let v = Value::String("line one\nline \"two\"".to_string());
    assert_eq!(v.to_string(), "\"\"\"line one\nline \\\"two\\\"\"\"\"");
    assert_eq!(v.to_git_string(), "line one\nline \"two\"");
}

#[test]
fn color_arrays_render_as_list_and_as_words() {
    let v = Value::ColorArray(vec![
        Color::Number(1),
        Color::String("red".to_string()),
        Color::Number(300),
    ]);
    assert_eq!(v.to_string(), "[1, \"red\", 0x12c]");
    assert_eq!(v.to_git_string(), "1 red #12c");
    assert_eq!(Value::ColorArray(vec![]).to_string(), "[]");
    assert_eq!(Value::ColorArray(vec![]).to_git_string(), "");
}

#[test]
fn git_forms_carry_no_document_quoting() {
    let values = vec![
        Value::String("plain text".to_string()),
        Value::ColorArray(vec![Color::String("blue".to_string()), Color::Number(4096)]),
        Value::Integer(7),
        Value::Boolean(true),
    ];
    for v in values.iter() {
        let g = v.to_git_string();
        assert!(!g.contains('"'));
        assert!(!g.contains('['));
        assert!(!g.contains(']'));
        assert!(!g.contains(','));
    }
}

#[test]
fn git_text_reads_booleans_then_integers_then_strings() {
    assert_eq!(Value::from_git_str("true"), Ok(Value::Boolean(true)));
    assert_eq!(Value::from_git_str("false"), Ok(Value::Boolean(false)));
    assert_eq!(Value::from_git_str("42"), Ok(Value::Integer(42)));
    assert_eq!(Value::from_git_str("-7"), Ok(Value::Integer(-7)));
    assert_eq!(Value::from_git_str("+5"), Ok(Value::Integer(5)));
    assert_eq!(Value::from_git_str("True"), Ok(Value::String("True".to_string())));
    assert_eq!(Value::from_git_str(" 1"), Ok(Value::String(" 1".to_string())));
    assert_eq!(
        Value::from_git_str("9223372036854775808"),
        Ok(Value::String("9223372036854775808".to_string()))
    );
    assert_eq!(Value::from_git_str(""), Ok(Value::String(String::new())));
}
