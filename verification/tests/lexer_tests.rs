use dalia::lexer::{Cursor, Lexer, Token, TokenKind};

#[test]
fn lexer_test_token_display() {
    let tok = Token::new(TokenKind::Eof, "<EOF>".into());
    assert_eq!("<'<EOF>', <EOF>>", tok.display())
}

#[test]
fn lexer_test_create_cursor() {
    let cur = Cursor::new("", 0, '\u{ff}');
    assert_eq!("".to_string(), cur.input);
    assert_eq!(0, cur.pointer);
    assert_eq!('\u{ff}', cur.current_char);
}

#[test]
fn lexer_test_cursor_consumes_characters() {
    let mut cur = Cursor::new("test", 0, 'e');
    cur.consume();
    assert_eq!("test".to_string(), cur.input);
    assert_eq!(1, cur.pointer);
    assert_eq!('e', cur.current_char);
}

#[test]
fn lexer_test_cursor_consumes_end_of_file() {
    let mut cur = Cursor::new("test", 4, 't');
    cur.consume();
    assert_eq!("test".to_string(), cur.input);
    assert_eq!(5, cur.pointer);
    assert_eq!('\u{ff}', cur.current_char);
}

#[test]
fn test_cursor_matches_character_and_consumes() {
    let mut cur = Cursor::new("test", 0, 't');
    match cur.matches('t') {
        Ok(r) => assert_eq!('e', r),
        Err(e) => panic!("{}", e),
    }
}

#[test]
fn test_cursor_does_not_match_character_or_consume() {
    let mut cur = Cursor::new("test", 0, 't');
    match cur.matches('x') {
        Ok(_) => panic!("should not be okay"),
        Err(e) => assert_eq!("expecting x, but found t", e),
    }
}

#[test]
fn lexer_test_lexer_gets_token_name() {
    let lexer = Lexer::new("test", 0, 't');
    let token_name = lexer.token_names(2);
    assert_eq!("LBRACK", token_name);
}

#[test]
fn lexer_test_lexer_detects_line_feed_character() {
    let lexer = Lexer::new("\0", 0, '\0');
    assert!(
        !lexer.is_not_end_line(),
        "current character was not a LINE FEED"
    );
}

#[test]
fn lexer_test_lexer_does_not_detect_non_line_feed_character() {
    let lexer = Lexer::new("test", 0, 't');
    assert!(lexer.is_not_end_line(), "current character was LINE FEED");
}

#[test]
fn lexer_test_lexer_consumes_whitespace() {
    let mut lexer = Lexer::new("   test", 0, ' ');
    lexer.whitespace();
    assert_eq!('t', lexer.cursor.current_char);
}

#[test]
fn test_lexer_can_check_is_alis_name() {
    let lexer = Lexer::new("test0123", 0, 't');
    assert!(lexer.is_alias_name());
}

#[test]
fn test_lexer_can_check_is_alis_name_fails() {
    let lexer = Lexer::new("*", 0, '*');
    assert!(!lexer.is_alias_name());
}

#[test]
fn test_lexer_can_check_is_alphanumeric() {
    let lexer = Lexer::new("test0123", 0, 't');
    assert!(lexer.is_alphanumeric());
}

#[test]
fn test_lexer_can_check_is_alphanumeric_fails() {
    let lexer = Lexer::new("_", 0, '_');
    assert!(!lexer.is_alphanumeric());
}

#[test]
fn lexer_test_lexer_creates_alias_token() {
    let mut lexer = Lexer::new("alias", 0, 'a');
    let token = lexer.alias();
    assert_eq!(TokenKind::Alias, token.kind);
    assert_eq!("alias", token.text.as_str());
}

#[test]
fn lexer_test_lexer_creates_path_token() {
    let mut lexer = Lexer::new("/some/absolute/path", 0, '/');
    let token = lexer.path();
    assert_eq!(TokenKind::Path, token.kind);
    assert_eq!("/some/absolute/path", token.text.as_str());
}

#[test]
fn lexer_test_lexer_next_token() {
    let input = r#"[test]/some/absolute/path
        /another/absolute/path
        "#;
    let mut lexer = Lexer::new(input, 0, '[');
    let mut tokens: Vec<Token> = Vec::new();
    while let Ok(t) = lexer.next_token() {
        if t.kind == TokenKind::Eof {
            break;
        }
        tokens.push(t);
    }
    assert_eq!(Token::new(TokenKind::LBrack, "[".into()), tokens[0]);
    assert_eq!(Token::new(TokenKind::Alias, "test".into()), tokens[1]);
    assert_eq!(Token::new(TokenKind::RBrack, "]".into()), tokens[2]);
    assert_eq!(
        Token::new(TokenKind::Path, "/some/absolute/path".into()),
        tokens[3]
    );
    assert_eq!(
        Token::new(TokenKind::Path, "/another/absolute/path".into()),
        tokens[4]
    );
}

#[test]
fn test_lexer_parses_path_without_initial_slash() {
    let input = "some/absolute/path";
    let mut lexer = Lexer::new(input, 0, 's');
    let mut tokens: Vec<Token> = Vec::new();
    while let Ok(t) = lexer.next_token() {
        if t.kind == TokenKind::Eof {
            break;
        }
        tokens.push(t);
    }
    assert!(!tokens.is_empty());
    assert_eq!(2, tokens.len())
}

#[test]
fn test_lexer_parses_glob() {
    let input = "[*]/some/absolute/path";
    let mut lexer = Lexer::new(input, 0, '[');
    let mut tokens: Vec<Token> = Vec::new();
    while let Ok(t) = lexer.next_token() {
        if t.kind == TokenKind::Eof {
            break;
        }
        tokens.push(t);
    }
    assert_eq!(Token::new(TokenKind::LBrack, "[".into()), tokens[0]);
    assert_eq!(Token::new(TokenKind::Glob, "*".into()), tokens[1]);
    assert_eq!(Token::new(TokenKind::RBrack, "]".into()), tokens[2]);
    assert_eq!(
        Token::new(TokenKind::Path, "/some/absolute/path".into()),
        tokens[3]
    );
}
