use machine::op::Op;
use machine::parse_error::ParseError;
use machine::parser::Parser;

#[test]
fn test_parse_call_stack() {
    let src = "jump start\n\nadd_pattern:\n    push 0xAA\n    push 0xBB\n    push 0xCC\n    return\n\nstart:\n    call add_pattern\n    call add_pattern\n";
    let p = Parser::parse(src).unwrap();

    assert_eq!(p.symbols.offset_of("start").unwrap(), 9);
    assert_eq!(p.symbols.offset_of("add_pattern").unwrap(), 2);

    assert_eq!(p.ops[0], Op::Jump(9));
    assert_eq!(p.ops[5], Op::Call(2));
}

#[test]
fn test_parse_strings() {
    let src = ".string hello_world \"Hello, world!\"\n.string foo \"foo bar\"\n.data bar 0xDEAD\n.data baz 0xBEEF\n";
    let p = Parser::parse(src).unwrap();

    assert_eq!(p.symbols.string_of("hello_world").unwrap(), "Hello, world!");
    assert_eq!(p.symbols.offset_of("hello_world").unwrap(), 0);

    assert_eq!(p.symbols.string_of("foo").unwrap(), "foo bar");
    assert_eq!(p.symbols.offset_of("foo").unwrap(), 14);

    assert_eq!(p.symbols.data_of("bar").unwrap()[0], 0xDEAD);
    assert_eq!(p.symbols.data_of("baz").unwrap()[0], 0xBEEF);
}

#[test]
fn test_comments_and_blank_lines_are_skipped() {
    let src = "; a comment\n\npush 1 ; trailing\nhalt\n";
    let p = Parser::parse(src).unwrap();
    assert_eq!(p.ops, vec![Op::Push(1), Op::Halt]);
}

#[test]
fn test_string_escapes() {
    let src = ".string s \"a\\n\\t\\\\\\\"b\"\n";
    let p = Parser::parse(src).unwrap();
    assert_eq!(p.symbols.string_of("s").unwrap(), "a\n\t\\\"b");
}

#[test]
fn test_unterminated_string_is_rejected() {
    assert_eq!(Parser::parse(".string s \"abc\n"), Err(ParseError::InvalidString));
}

#[test]
fn test_undefined_symbol_is_rejected() {
    assert_eq!(Parser::parse("jump nowhere\n"), Err(ParseError::UndefinedSymbols));
}

#[test]
fn test_stray_character_is_rejected() {
    assert_eq!(Parser::parse("jump @\n"), Err(ParseError::InvalidIdentifier));
}

#[test]
fn test_unknown_mnemonic_is_rejected() {
    assert_eq!(
        Parser::parse("frobnicate\n"),
        Err(ParseError::UndefinedInstruction { name: "frobnicate".to_string() })
    );
}

#[test]
fn test_unknown_directive_is_rejected() {
    assert_eq!(
        Parser::parse(".frob x 1\n"),
        Err(ParseError::UndefinedInstruction { name: ".frob".to_string() })
    );
}

#[test]
fn test_label_line_with_extra_tokens_is_rejected() {
    assert_eq!(Parser::parse("foo: push 1\n"), Err(ParseError::InvalidLabelDescription));
}

#[test]
fn test_duplicate_label_is_rejected() {
    assert_eq!(Parser::parse("a:\na:\n"), Err(ParseError::DuplicateLabelDefinition));
}

#[test]
fn test_duplicate_string_is_rejected() {
    assert_eq!(
        Parser::parse(".string s \"x\"\n.string s \"y\"\n"),
        Err(ParseError::DuplicateStringDefinition)
    );
}

#[test]
fn test_extra_argument_is_rejected() {
    assert_eq!(
        Parser::parse("push 1 2\n"),
        Err(ParseError::InvalidArgument { errors: vec![ParseError::InvalidArgToken] })
    );
}

#[test]
fn test_missing_argument_is_rejected() {
    assert_eq!(
        Parser::parse("push\n"),
        Err(ParseError::InvalidArgument { errors: vec![ParseError::CannotPeekAtToken] })
    );
}

#[test]
fn test_malformed_string_directive_is_rejected() {
    assert_eq!(Parser::parse(".string s\n"), Err(ParseError::InvalidStringValue));
}

#[test]
fn test_unknown_escape_is_rejected() {
    assert_eq!(Parser::parse(".string s \"a\\qb\"\n"), Err(ParseError::InvalidStringValue));
}

#[test]
fn test_non_numeric_data_word_is_rejected() {
    assert_eq!(Parser::parse(".data d \"x\"\n"), Err(ParseError::InvalidByteValue));
}

#[test]
fn test_line_starting_with_number_is_rejected() {
    assert_eq!(Parser::parse("42\n"), Err(ParseError::InvalidArgToken));
}

#[test]
fn test_oversized_decimal_is_rejected() {
    assert_eq!(
        Parser::parse("push 99999\n"),
        Err(ParseError::InvalidDecimalDigit { text: "99999".to_string() })
    );
}

#[test]
fn test_malformed_decimal_is_rejected() {
    assert_eq!(
        Parser::parse("push 12ab\n"),
        Err(ParseError::InvalidDecimalDigit { text: "12ab".to_string() })
    );
}

#[test]
fn test_malformed_hex_is_rejected() {
    assert_eq!(
        Parser::parse("push 0xZZ\n"),
        Err(ParseError::InvalidHexDigit { text: "0xZZ".to_string() })
    );
}

#[test]
fn test_string_and_data_share_the_data_segment() {
    let src = ".string a \"xy\"\n.data d 1 2 3\n.string b \"z\"\n";
    let p = Parser::parse(src).unwrap();
    assert_eq!(p.symbols.offset_of("a").unwrap(), 0);
    assert_eq!(p.symbols.offset_of("d").unwrap(), 3);
    assert_eq!(p.symbols.offset_of("b").unwrap(), 6);
    assert_eq!(p.symbols.data_of("d").unwrap(), vec![1, 2, 3]);
}
