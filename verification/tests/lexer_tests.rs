use ugc_runtime::lexer::{lex, LogosLexer, Token, TokenType};

fn types_of(tokens: &Vec<Token>) -> Vec<TokenType> {
    let mut out = Vec::new();
    for t in tokens {
        out.push(t.token_type);
    }
    out
}

#[test]
fn let_statement_tokens_and_spans() {
    let tokens = lex("Input", "let x = 5;\n").unwrap();
    assert_eq!(
        types_of(&tokens),
        vec![
            TokenType::Let,
            TokenType::Identifier,
            TokenType::Equal,
            TokenType::IntegerLiteral,
            TokenType::Semicolon,
        ]
    );
    for t in &tokens {
        assert_eq!(t.id.line, 0);
        assert_eq!(t.id.filename, "Input");
    }
    assert_eq!(tokens[0].id.span, (0, 3));
    assert_eq!(tokens[0].id.value, "let");
    assert_eq!(tokens[1].id.span, (4, 5));
    assert_eq!(tokens[1].id.value, "x");
    assert_eq!(tokens[2].id.span, (6, 7));
    assert_eq!(tokens[3].id.span, (8, 9));
    assert_eq!(tokens[3].literal_value, Some(String::from("5")));
    assert_eq!(tokens[4].id.span, (9, 10));
    assert_eq!(tokens[0].literal_value, None);
}

#[test]
fn second_line_resets_columns() {
    let tokens = lex("Input", "let x = 5;\nlet y = 6;\n").unwrap();
    assert_eq!(tokens.len(), 10);
    for t in &tokens[0..5] {
        assert_eq!(t.id.line, 0);
    }
    for t in &tokens[5..10] {
        assert_eq!(t.id.line, 1);
    }
    // Columns on the second line are relative to its own start.
    assert_eq!(tokens[5].id.span, (0, 3));
    assert_eq!(tokens[6].id.span, (4, 5));
    assert_eq!(tokens[8].literal_value, Some(String::from("6")));
}

#[test]
fn string_literal_strips_quotes() {
    let tokens = lex("f", "\"hi there\"").unwrap();
    assert_eq!(tokens.len(), 1);
    assert_eq!(tokens[0].token_type, TokenType::StringLiteral);
    assert_eq!(tokens[0].literal_value, Some(String::from("hi there")));
    assert_eq!(tokens[0].id.value, "\"hi there\"");
    assert_eq!(tokens[0].id.span, (0, 10));
}

#[test]
fn string_literal_with_escape() {
    let tokens = lex("f", "\"a\\\"b\"").unwrap();
    assert_eq!(tokens.len(), 1);
    assert_eq!(tokens[0].token_type, TokenType::StringLiteral);
    assert_eq!(tokens[0].literal_value, Some(String::from("a\\\"b")));
}

#[test]
fn unterminated_string_is_an_error() {
    let err = lex("f", "\"open").unwrap_err();
    assert_eq!(err.to_message(), "Unknown input");
    assert_eq!(err.id.line, 0);
    assert_eq!(err.id.span, (0, 1));
}

#[test]
fn number_literals() {
    let tokens = lex("f", "12 1.25 0x17 0b101").unwrap();
    assert_eq!(
        types_of(&tokens),
        vec![
            TokenType::IntegerLiteral,
            TokenType::FloatLiteral,
            TokenType::IntegerLiteral,
            TokenType::IntegerLiteral,
        ]
    );
    assert_eq!(tokens[0].literal_value, Some(String::from("12")));
    assert_eq!(tokens[1].literal_value, Some(String::from("1.25")));
    assert_eq!(tokens[2].literal_value, Some(String::from("0x17")));
    assert_eq!(tokens[3].literal_value, Some(String::from("0b101")));
}

#[test]
fn operators_longest_match_wins() {
    let tokens = lex("f", "== != <= >= => = < > ! \\").unwrap();
    assert_eq!(
        types_of(&tokens),
        vec![
            TokenType::EqualEqual,
            TokenType::BangEqual,
            TokenType::LessEqual,
            TokenType::GreaterEqual,
            TokenType::FatArrow,
            TokenType::Equal,
            TokenType::Less,
            TokenType::Greater,
            TokenType::Bang,
            TokenType::LambdaStart,
        ]
    );
}

#[test]
fn punctuation_tokens() {
    let tokens = lex("f", "(){}[],.-+;/*x*/ / *").unwrap();
    assert_eq!(
        types_of(&tokens),
        vec![
            TokenType::LeftParen,
            TokenType::RightParen,
            TokenType::LeftCurlyBrace,
            TokenType::RightCurlyBrace,
            TokenType::LeftBracket,
            TokenType::RightBracket,
            TokenType::Comma,
            TokenType::Dot,
            TokenType::Minus,
            TokenType::Plus,
            TokenType::Semicolon,
            TokenType::Slash,
            TokenType::Star,
        ]
    );
}

#[test]
fn keywords_and_identifiers() {
    let tokens = lex(
        "f",
        "and else false fn for if null or return continue break true let mut while letx _a9",
    )
    .unwrap();
    assert_eq!(
        types_of(&tokens),
        vec![
            TokenType::And,
            TokenType::Else,
            TokenType::False,
            TokenType::Fn,
            TokenType::For,
            TokenType::If,
            TokenType::Null,
            TokenType::Or,
            TokenType::Return,
            TokenType::Continue,
            TokenType::Break,
            TokenType::True,
            TokenType::Let,
            TokenType::Mut,
            TokenType::While,
            TokenType::Identifier,
            TokenType::Identifier,
        ]
    );
    assert_eq!(tokens[15].id.value, "letx");
    assert_eq!(tokens[16].id.value, "_a9");
}

#[test]
fn comments_are_skipped() {
    let tokens = lex("f", "// a comment\nlet /* inline */ x").unwrap();
    assert_eq!(types_of(&tokens), vec![TokenType::Let, TokenType::Identifier]);
    // The line break after the comment still counts.
    assert_eq!(tokens[0].id.line, 1);
    assert_eq!(tokens[0].id.span, (0, 3));
}

#[test]
fn unterminated_block_comment_is_an_error() {
    let err = lex("f", "/* never closed").unwrap_err();
    assert_eq!(err.to_message(), "Unknown input");
    assert_eq!(err.id.span, (0, 1));
}

#[test]
fn unknown_character_reports_its_span() {
    let err = lex("file.ln", "let @").unwrap_err();
    assert_eq!(err.to_message(), "Unknown input");
    assert_eq!(err.id.filename, "file.ln");
    assert_eq!(err.id.line, 0);
    assert_eq!(err.id.span, (4, 5));
    assert_eq!(err.id.value, "@");
}

#[test]
fn error_on_a_later_line() {
    let err = lex("f", "let a\nlet @").unwrap_err();
    assert_eq!(err.id.line, 1);
    assert_eq!(err.id.span, (4, 5));
}

#[test]
fn empty_input_yields_no_tokens() {
    let tokens = lex("f", "").unwrap();
    assert!(tokens.is_empty());
}

#[test]
fn carriage_return_newline_counts_one_line() {
    let tokens = lex("f", "let\r\nmut").unwrap();
    assert_eq!(types_of(&tokens), vec![TokenType::Let, TokenType::Mut]);
    assert_eq!(tokens[1].id.line, 1);
    assert_eq!(tokens[1].id.span, (0, 3));
}

#[test]
fn make_id_measures_from_line_start() {
    let ll = LogosLexer::new("f");
    let id = ll.make_id("tok", (2, 5));
    assert_eq!(id.line, 0);
    assert_eq!(id.span, (2, 5));
    assert_eq!(id.value, "tok");
    assert_eq!(id.filename, "f");
}

#[test]
fn new_line_advances_state() {
    let mut ll = LogosLexer::new("f");
    ll.new_line((3, 4));
    let id = ll.make_id("x", (6, 7));
    assert_eq!(id.line, 1);
    assert_eq!(id.span, (2, 3));
}

#[test]
fn make_strips_quotes_for_strings_only() {
    let ll = LogosLexer::new("f");
    let t = ll.make(TokenType::StringLiteral, "\"ab\"", (0, 4));
    assert_eq!(t.literal_value, Some(String::from("ab")));
    let t2 = ll.make(TokenType::IntegerLiteral, "17", (5, 7));
    assert_eq!(t2.literal_value, Some(String::from("17")));
    let t3 = ll.make(TokenType::Plus, "+", (8, 9));
    assert_eq!(t3.literal_value, None);
}
