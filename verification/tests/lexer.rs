use lake_frontend::api::token::Token;
use lake_frontend::lexer::lexer;
use lake_frontend::span::{SimpleSpan, Spanned};

#[test]
fn string_test() {
    assert_eq!(
        lexer("\"Hello, Jake! I'm 20\""),
        Ok(vec![Spanned {
            inner: Token::String("Hello, Jake! I'm 20".to_string()),
            span: SimpleSpan::new(0, 21)
        }])
    )
}

#[test]
fn num_decimal_test() {
    assert_eq!(
        lexer("10"),
        Ok(vec![Spanned {
            inner: Token::Num("10".to_string()),
            span: SimpleSpan::new(0, 2)
        }])
    );
}

#[test]
fn num_float_test() {
    assert_eq!(
        lexer("10.10"),
        Ok(vec![Spanned {
            inner: Token::Num("10.10".to_string()),
            span: SimpleSpan::new(0, 5)
        }])
    );
}

#[test]
fn variable_test() {
    assert_eq!(
        lexer("n i32.1"),
        Ok(vec![
            Spanned {
                inner: Token::Ident("n".to_string()),
                span: SimpleSpan::new(0, 1)
            },
            Spanned {
                inner: Token::Ident("i32".to_string()),
                span: SimpleSpan::new(2, 5)
            },
            Spanned {
                inner: Token::Dot,
                span: SimpleSpan::new(5, 6)
            },
            Spanned {
                inner: Token::Num("1".to_string()),
                span: SimpleSpan::new(6, 7)
            }
        ])
    )
}

#[test]
fn math_expr_test() {
    assert_eq!(
        lexer("2*4/5+2-4"),
        Ok(vec![
            Spanned {
                inner: Token::Num("2".to_string()),
                span: SimpleSpan::new(0, 1)
            },
            Spanned {
                inner: Token::Star,
                span: SimpleSpan::new(1, 2)
            },
            Spanned {
                inner: Token::Num("4".to_string()),
                span: SimpleSpan::new(2, 3)
            },
            Spanned {
                inner: Token::Slash,
                span: SimpleSpan::new(3, 4)
            },
            Spanned {
                inner: Token::Num("5".to_string()),
                span: SimpleSpan::new(4, 5)
            },
            Spanned {
                inner: Token::Plus,
                span: SimpleSpan::new(5, 6)
            },
            Spanned {
                inner: Token::Num("2".to_string()),
                span: SimpleSpan::new(6, 7)
            },
            Spanned {
                inner: Token::Minus,
                span: SimpleSpan::new(7, 8)
            },
            Spanned {
                inner: Token::Num("4".to_string()),
                span: SimpleSpan::new(8, 9)
            },
        ])
    )
}

#[test]
fn branch_test() {
    assert_eq!(
        lexer("n i32.1 -> print [ n ]"),
        Ok(vec![
            Spanned {
                inner: Token::Ident("n".to_string()),
                span: SimpleSpan::new(0, 1)
            },
            Spanned {
                inner: Token::Ident("i32".to_string()),
                span: SimpleSpan::new(2, 5)
            },
            Spanned {
                inner: Token::Dot,
                span: SimpleSpan::new(5, 6)
            },
            Spanned {
                inner: Token::Num("1".to_string()),
                span: SimpleSpan::new(6, 7)
            },
            Spanned {
                inner: Token::Arrow,
                span: SimpleSpan::new(8, 10)
            },
            Spanned {
                inner: Token::Ident("print".to_string()),
                span: SimpleSpan::new(11, 16)
            },
            Spanned {
                inner: Token::SquareBrackets(vec![Spanned {
                    inner: Token::Ident("n".to_string()),
                    span: SimpleSpan::new(19, 20)
                },]),
                span: SimpleSpan::new(17, 22)
            },
        ])
    );
}

#[test]
fn self_keyword_test() {
    assert_eq!(
        lexer("self"),
        Ok(vec![Spanned {
            inner: Token::SelfKw,
            span: SimpleSpan::new(0, 4)
        }])
    );
}

#[test]
fn self_is_not_ident_test() {
    let tokens = lexer("self").expect("should lex");
    assert!(!matches!(tokens[0].inner, Token::Ident(_)));
}

#[test]
fn wait_keyword_test() {
    let tokens = lexer("wait").expect("should lex");
    assert!(matches!(tokens[0].inner, Token::Wait));
}

#[test]
fn let_keyword_test() {
    let tokens = lexer("let").expect("should lex");
    assert!(matches!(tokens[0].inner, Token::Let));
}

#[test]
fn eq_token_test() {
    let tokens = lexer("=").expect("should lex");
    assert!(matches!(tokens[0].inner, Token::Eq));
}

#[test]
fn eq_vs_eqeq_test() {
    let tokens = lexer("== =").expect("should lex");
    assert!(matches!(tokens[0].inner, Token::EqEq));
    assert!(matches!(tokens[1].inner, Token::Eq));
}

#[test]
fn comment_single_line_test() {
    // Comments should be completely ignored
    let tokens = lexer("n i64 // this is a comment")
        .expect("should lex");
    assert_eq!(tokens.len(), 2); // only "n" and "i64"
    assert!(matches!(tokens[0].inner, Token::Ident(ref s) if s == "n"));
    assert!(matches!(tokens[1].inner, Token::Ident(ref s) if s == "i64"));
}

#[test]
fn comment_full_line_test() {
    let tokens = lexer("// comment line\nn i64")
        .expect("should lex");
    assert_eq!(tokens.len(), 2);
    assert!(matches!(tokens[0].inner, Token::Ident(ref s) if s == "n"));
    assert!(matches!(tokens[1].inner, Token::Ident(ref s) if s == "i64"));
}

#[test]
fn colon_token_test() {
    let tokens = lexer(":").expect("should lex");
    assert!(matches!(tokens[0].inner, Token::Colon));
}

#[test]
fn module_path_lexes_as_ident_colon_chain() {
    // `core:io:writer` → ident colon ident colon ident
    let tokens = lexer("core:io:writer")
        .expect("should lex");
    assert!(matches!(tokens[0].inner, Token::Ident(ref s) if s == "core"));
    assert!(matches!(tokens[1].inner, Token::Colon));
    assert!(matches!(tokens[2].inner, Token::Ident(ref s) if s == "io"));
    assert!(matches!(tokens[3].inner, Token::Colon));
    assert!(matches!(tokens[4].inner, Token::Ident(ref s) if s == "writer"));
}

#[test]
fn as_keyword_test() {
    let tokens = lexer("as").expect("should lex");
    assert!(matches!(tokens[0].inner, Token::As));
}

#[test]
fn as_is_not_an_ident() {
    let tokens = lexer("as foo").expect("should lex");
    assert!(matches!(tokens[0].inner, Token::As));
    assert!(matches!(tokens[1].inner, Token::Ident(ref s) if s == "foo"));
}

#[test]
fn comment_multiple_test() {
    let src = r#"
// This is a counter
counter is {
  n i64 -> { // parameter
self(n-1) // recurse
  }
}
"#;
    let tokens = lexer(src).expect("should lex");
    // Should have: counter, is, {, n, i64, ->, {, self, (, n, -, 1, ), }, }
    assert!(tokens.len() > 0);
    assert!(matches!(tokens[0].inner, Token::Ident(ref s) if s == "counter"));
}

#[test]
fn brackets_in_comment_top_level() {
    let result = lexer("x i64 // has [brackets]\ny i64");
    assert!(result.is_ok(), "lexer rejected brackets in comment: {:?}", result);
}

#[test]
fn brackets_in_comment_inside_braces() {
    let src = "f is { x i64 -> {\n    // [brackets]\n    ret x\n  }\n}";
    let result = lexer(src);
    assert!(result.is_ok(), "{:?}", result);
}

#[test]
fn comment_inside_curly_block() {
    // Body of a branch is wrapped in `{}` — comments inside that
    // block must not pollute the inner token stream.  Reproduces
    // the sha256.lake parse failure where `// W[0..15]` was
    // tokenised through the SquareBrackets path inside curlies.
    let src = "f is {\n  x i64 -> ret i64 {\n    // W[0..15] note\n    ret x + 1\n  }\n}";
    let result = lexer(src);
    assert!(result.is_ok(), "lexer rejected comment-with-brackets inside curly body: {:?}", result);
}

#[test]
fn a_comment_behind_a_text_leaves_its_tokens() {
    let src = "f is { x i64 -> { g(x) } } // first";
    let plain = lexer(src).unwrap();
    let commented = lexer(&format!("{src}\n// `\"quoted\"` )")).unwrap();
    assert_eq!(format!("{plain:?}"), format!("{commented:?}"));
    assert!(!format!("{plain:?}").contains("Comment"));
}

#[test]
fn a_text_is_complained_about_where_reading_got_stuck() {
    let start = |src: &str| lexer(src).unwrap_err()[0].span.start;
    assert_eq!(start("a ? b"), 2);
    assert_eq!(start("f is { g(x ? y) }"), 11);
    assert_eq!(start("f is { g(x }"), 11);
    assert_eq!(start("f is { g(x"), 10);
    assert_eq!(start("a \"open"), 7);
    assert_eq!(start("'ab'"), 2);
    assert_eq!(start("'\\q'"), 2);
    assert_eq!(start("'\\x1g'"), 4);
}
