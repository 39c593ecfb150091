use lake_frontend::api::ast::Ident;
use lake_frontend::parser::scan::{
    branch, ident, is_ident_char, is_ident_start, literal, number, skip_whitespaces, string,
    variable, BranchDecl, BranchType, Literal, ParserError, Path, SourceSpan, Variable,
};

#[test]
fn simple_ident_test() {
    assert_eq!(ident("ident"), Ok(("", Ident::new("ident"))));
}

#[test]
fn parse_ident_error() {
    assert_eq!(
        ident("123"),
        Err(ParserError::IdentParsingError("123", SourceSpan { offset: 0, length: 3 }))
    );
}

#[test]
fn lit_number_test() {
    assert_eq!(literal("10"), Ok(("", Literal::Number("10".into()))));
}

#[test]
fn lit_string_test() {
    assert_eq!(
        literal("\"Hello, world\""),
        Ok(("", Literal::String("\"Hello, world\"".into())))
    );
}

#[test]
fn multi_test() {
    let (next, lit_str) = literal("\"Hello, world\" 10").unwrap();
    let (_, lit_num) = literal(next).unwrap();
    assert_eq!(lit_str, Literal::String("\"Hello, world\"".into()));
    assert_eq!(lit_num, Literal::Number("10".into()));
}

#[test]
fn simple_number_test() {
    assert_eq!(number("123"), Ok(("", Literal::Number("123".into()))));
}

#[test]
fn not_only_number_test() {
    assert_eq!(number("40abs"), Ok(("abs", Literal::Number("40".into()))));
}

#[test]
fn not_number_test() {
    assert_eq!(
        number("abs"),
        Err(ParserError::NumberParsingError("abs", SourceSpan { offset: 0, length: 3 }))
    );
}

#[test]
fn simple_string_test() {
    assert_eq!(
        string(r#""Hello, world!""#),
        Ok(("", Literal::String(r#""Hello, world!""#.into())))
    );
}

#[test]
fn multiline_string_test() {
    assert_eq!(
        string(
            r#""
                Hello, world!
                Bye, world!
                ""#
        ),
        Ok((
            "",
            Literal::String(
                r#""
                Hello, world!
                Bye, world!
                ""#
                    .into()
            )
        ))
    );
}

#[test]
fn simple_variable_with_default_value_test() {
    assert_eq!(
        variable("n i32.1"),
        Ok((
            "",
            Variable::new(
                Ident::new("n"),
                Path::Type(Ident::new("i32")),
                Some(Literal::Number("1".into()))
            )
        ))
    );
}

#[test]
fn simple_variable_with_default_value_as_str_test() {
    assert_eq!(
        variable("n string.\"Jake\""),
        Ok((
            "",
            Variable::new(
                Ident::new("n"),
                Path::Type(Ident::new("string")),
                Some(Literal::String("\"Jake\"".into()))
            )
        ))
    );
}

#[test]
fn simple_variable_test() {
    assert_eq!(
        variable("n i32"),
        Ok(("", Variable::new(Ident::new("n"), Path::Type(Ident::new("i32")), None)))
    );
}

#[test]
fn simple_branch_test() {
    assert_eq!(
        branch("n i32.10 str string"),
        Ok((
            "",
            BranchDecl::new(
                BranchType::Action,
                vec![
                    Variable::new(
                        Ident::new("n"),
                        Path::Type(Ident::new("i32")),
                        Some(Literal::Number("10".into()))
                    ),
                    Variable::new(Ident::new("str"), Path::Type(Ident::new("string")), None)
                ]
            )
        ))
    );
}

#[test]
fn unclosed_string_is_an_error() {
    assert_eq!(
        string("\"abc"),
        Err(ParserError::StringParsingError("\"abc", SourceSpan { offset: 0, length: 0 }))
    );
    assert_eq!(
        string("\u{e9}"),
        Err(ParserError::StringParsingError("\u{e9}", SourceSpan { offset: 0, length: 2 }))
    );
}

#[test]
fn literal_reports_the_unspaced_text() {
    assert_eq!(
        literal("  x"),
        Err(ParserError::NumberParsingError("x", SourceSpan { offset: 0, length: 1 }))
    );
    assert_eq!(literal("  x").unwrap_err().source(), "x");
}

#[test]
fn character_classes_follow_unicode() {
    assert!(is_ident_start('a') && is_ident_start('_') && is_ident_start('\u{e9}'));
    assert!(!is_ident_start('1') && !is_ident_start(' '));
    assert!(is_ident_char('1') && is_ident_char('_') && !is_ident_char('-'));
}

#[test]
fn variable_without_its_default_is_an_error() {
    assert!(variable("n i32.").is_err());
    assert!(variable("n").is_err());
}

#[test]
fn a_parser_runs_behind_white_space() {
    assert_eq!(
        skip_whitespaces(" \t\r\n 7", number),
        Ok(("", Literal::Number("7".into())))
    );
}

#[test]
fn a_variable_error_names_what_was_expected() {
    assert_eq!(
        variable("n i32.x"),
        Err(ParserError::NumberParsingError("x", SourceSpan { offset: 0, length: 1 }))
    );
    assert_eq!(
        variable("n 7"),
        Err(ParserError::IdentParsingError("7", SourceSpan { offset: 0, length: 1 }))
    );
    assert_eq!(
        variable("7"),
        Err(ParserError::IdentParsingError("7", SourceSpan { offset: 0, length: 1 }))
    );
}

#[test]
fn errors_have_a_message_a_code_and_a_help() {
    let here = SourceSpan { offset: 0, length: 0 };
    let ident = ParserError::IdentParsingError("x", here);
    assert_eq!(ident.to_string(), "Ident parsing error");
    assert_eq!(ident.code(), "parser::error::identParsing");
    let bad = ParserError::BadSubstring("x");
    assert_eq!(bad.to_string(), "Substring not found error");
    assert_eq!(bad.source(), "x");
    let number = ParserError::NumberParsingError("x", here);
    assert_eq!(number.code(), "parser::error::numberParsingError");
    let string = ParserError::StringParsingError("x", here);
    assert_eq!(string.help(), "Expected a valid string literal enclosed in quotes.");
    let branch = ParserError::BranchParsingError("x", here);
    assert_eq!(branch.to_string(), "Branch parsing error");
    assert_eq!(branch.help(), "Expected a valid branch.");
}
