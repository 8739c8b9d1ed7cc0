use clause_linker::source_modifier::SourceModifier;
use clause_linker::ts_number::extract_ts_number_from_file_path;

#[test]
fn test_source_modifier_copy_and_emit_interleave() {
    let mut modifier = SourceModifier::new("abcdef");
    modifier.copy_til_end_of("cd");
    modifier.push_str("X");
    modifier.copy_til_end_of_source();
    assert_eq!(modifier.get_result(), "abcdXef");
}

#[test]
fn test_source_modifier_conserves_input_around_emitted_markup() {
    let source = "one two three";
    let mut modifier = SourceModifier::new(source);
    modifier.copy_til_begin_of("two");
    modifier.push_str("<b>");
    modifier.copy_til_end_of("two");
    modifier.push_str("</b>");
    modifier.copy_til_end_of_source();
    let result = modifier.get_result().clone();
    assert_eq!(result, "one <b>two</b> three");
    let without_markup = result.replace("<b>", "").replace("</b>", "");
    assert_eq!(without_markup, source);
}

#[test]
fn test_source_modifier_copy_til_end_of_absent_pattern_copies_rest() {
    let mut modifier = SourceModifier::new("abc");
    modifier.copy_til_end_of("zz");
    assert_eq!(modifier.get_result(), "abc");
}

#[test]
fn test_source_modifier_copy_chars_count_clamps_to_remaining() {
    let mut modifier = SourceModifier::new("abc");
    modifier.copy_chars_count(2);
    assert_eq!(modifier.get_result(), "ab");
    modifier.copy_chars_count(10);
    assert_eq!(modifier.get_result(), "abc");
}

#[test]
fn test_source_modifier_queries() {
    let mut modifier = SourceModifier::new("foobarbaz");
    assert!(modifier.is_a_before_b("foo", "bar"));
    assert!(modifier.is_before_end("baz"));
    assert_eq!(modifier.get_content_til_begin_of("bar").unwrap(), "foo");
    assert_eq!(modifier.get_content_til_end_of("bar").unwrap(), "foobar");
    let omitted = modifier.goto_begin_of_and_get_omitted_content("baz").unwrap();
    assert_eq!(omitted, "foobar");
    modifier.copy_til_end_of_source();
    assert_eq!(modifier.get_result(), "baz");
}

#[test]
fn test_extract_ts_number_from_file_path_splits_after_two_digits() {
    assert_eq!(extract_ts_number_from_file_path("23501-f80").unwrap(), "23.501");
}

#[test]
fn test_extract_ts_number_from_file_path_without_dash_is_none() {
    assert!(extract_ts_number_from_file_path("readme").is_none());
}
