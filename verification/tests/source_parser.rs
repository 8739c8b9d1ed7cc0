use clause_linker::source_parser::SourceParser;

#[test]
fn test_source_parser_find_pattern_pos_finds_and_doesnt_move_pos() {
    let parser = SourceParser::new(&"foobarbaz");
    assert_eq!(parser.find_pattern_pos(&"bar").unwrap(), 3);
    assert_eq!(parser.get_current_pos(), 0);
}

#[test]
fn test_source_parser_goto_begin_of_goes_to_found_pos() {
    let mut parser = SourceParser::new(&"foobarbaz");
    parser.goto_begin_of(&"bar");
    assert_eq!(parser.get_current_pos(), 3);
}

#[test]
fn test_source_parser_goto_begin_of_goes_to_end_if_not_found() {
    let mut parser = SourceParser::new(&"foobarbaz");
    parser.goto_begin_of(&"nonexisting");
    assert!(parser.is_at_end());
    assert_eq!(parser.get_current_pos(), 9);
}

#[test]
fn test_source_parser_goto_begin_of_and_get_omitted_content_goes_to_found_and_returns_omitted_content(
) {
    let mut parser = SourceParser::new(&"foobarbaz");
    let omitted_content = parser
        .goto_begin_of_and_get_omitted_content(&"bar")
        .unwrap();
    assert_eq!(omitted_content, "foo");
    assert_eq!(parser.get_current_pos(), 3);
}

#[test]
fn test_source_parser_goto_end_of_finds_and_moves_pos() {
    let mut parser = SourceParser::new(&"foobarbaz");
    parser.goto_end_of(&"bar");
    assert_eq!(parser.get_current_pos(), 6);
}

#[test]
fn test_source_parser_goto_end_of_goes_to_end_if_not_found() {
    let mut parser = SourceParser::new(&"foobarbaz");
    parser.goto_end_of(&"nonexisting");
    assert!(parser.is_at_end());
    assert_eq!(parser.get_current_pos(), 9);
}

#[test]
fn test_source_parser_clone_keeps_position_for_lookahead() {
    let mut parser = SourceParser::new("foobarbaz");
    parser.goto_end_of("foo");
    let mut ahead = parser.clone();
    ahead.goto_end_of("bar");
    assert_eq!(ahead.get_current_pos(), 6);
    assert_eq!(parser.get_current_pos(), 3);
}

#[test]
fn test_source_parser_get_source_slice_bounds() {
    let parser = SourceParser::new("foobar");
    assert_eq!(parser.get_source_slice(1, 4).unwrap(), "oob");
    assert!(parser.get_source_slice(4, 1).is_none());
    assert!(parser.get_source_slice(2, 7).is_none());
}

#[test]
fn test_source_parser_current_and_next_checks() {
    let mut parser = SourceParser::new("a12");
    assert!(parser.current_is('a'));
    assert!(!parser.current_is_digit());
    assert!(parser.next_is_digit());
    parser.goto_end_of("a");
    assert!(parser.current_is_digit());
}

#[test]
fn test_source_parser_skip_whitespaces_stops_at_word() {
    let mut parser = SourceParser::new("  \t foo");
    parser.skip_whitespaces();
    assert_eq!(parser.get_current_pos(), 4);
    assert!(parser.current_is('f'));
}

#[test]
fn test_source_parser_skip_word_peeks_first_word() {
    let mut parser = SourceParser::new("  foo bar");
    let word = parser.skip_word();
    assert_eq!(word.unwrap(), "foo");
    assert_eq!(parser.get_current_pos(), 2);
}

#[test]
fn test_source_parser_skip_word_none_without_trailing_whitespace() {
    let mut parser = SourceParser::new("  foo");
    assert!(parser.skip_word().is_none());
}

#[test]
fn test_source_parser_is_a_before_b() {
    let parser = SourceParser::new("one two three");
    assert!(parser.is_a_before_b("one", "two"));
    assert!(!parser.is_a_before_b("two", "one"));
    assert!(parser.is_a_before_b("two", "missing"));
    assert!(!parser.is_a_before_b("missing", "two"));
}

#[test]
fn test_source_parser_is_before_end() {
    let parser = SourceParser::new("foobar");
    assert!(parser.is_before_end("bar"));
    assert!(!parser.is_before_end("qux"));
}

#[test]
fn test_source_parser_get_content_queries_do_not_move() {
    let parser = SourceParser::new("foobarbaz");
    assert_eq!(parser.get_content_til_begin_of("bar").unwrap(), "foo");
    assert_eq!(parser.get_content_til_end_of("bar").unwrap(), "foobar");
    assert!(parser.get_content_til_begin_of("qux").is_none());
    assert_eq!(parser.get_current_pos(), 0);
    assert_eq!(parser.get_content_til_end_of_source(), "foobarbaz");
}

#[test]
fn test_source_parser_advance_for_count() {
    let mut parser = SourceParser::new("foobar");
    let omitted = parser.advance_for_count_and_get_omitted_source(4);
    assert_eq!(omitted, "foob");
    assert_eq!(parser.get_current_pos(), 4);
    assert_eq!(parser.get_source_len(), 6);
}
