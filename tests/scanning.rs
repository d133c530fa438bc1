use loxi::{scan_all, EOFLiteral, Error, Literal, NullLiteral, NumberLiteral, Scanner, StringLiteral, Token, TokenType};

fn types(tokens: &[Token]) -> Vec<TokenType> {
    tokens.iter().map(|t| t.token_type).collect()
}

fn numeral(t: &Token) -> String {
    match &t.literal {
        Literal::Number(n) => n.numeral.clone(),
        other => panic!("expected a number literal, found {:?}", other),
    }
}

fn content(t: &Token) -> String {
    match &t.literal {
        Literal::Str(s) => s.content.clone(),
        other => panic!("expected a string literal, found {:?}", other),
    }
}

fn is_absent(t: &Token) -> bool {
    matches!(t.literal, Literal::Absent)
}

#[test]
fn decimal_number_is_one_token() {
    let (tokens, errors) = scan_all("123.45");
    assert_eq!(types(&tokens), vec![TokenType::Number, TokenType::EOF]);
    assert_eq!(numeral(&tokens[0]), "123.45");
    let value: f64 = numeral(&tokens[0]).parse().unwrap();
    assert_eq!(value, 123.45);
    assert_eq!(tokens[0].lexeme, "123.45");
    assert!(errors.is_empty());
}

#[test]
fn comment_is_skipped_and_line_counted() {
    let (tokens, errors) = scan_all("// comment\n123");
    assert_eq!(types(&tokens), vec![TokenType::Number, TokenType::EOF]);
    let value: f64 = numeral(&tokens[0]).parse().unwrap();
    assert_eq!(value, 123.0);
    assert_eq!(tokens[0].line, 2);
    assert_eq!(tokens[0].index, 11);
    assert_eq!(tokens[0].line_index, 3);
    assert!(errors.is_empty());
}

#[test]
fn unterminated_string_reports_one_diagnostic() {
    let (tokens, errors) = scan_all("\"abc");
    assert_eq!(types(&tokens), vec![TokenType::EOF]);
    assert_eq!(errors.len(), 1);
    assert_eq!(errors[0].message, "Unterminated string.");
    assert_eq!(errors[0].line, 1);
    assert_eq!(errors[0].index, 4);
}

#[test]
fn keywords_in_order() {
    let (tokens, errors) = scan_all("and or class");
    assert_eq!(types(&tokens), vec![TokenType::And, TokenType::Or, TokenType::Class, TokenType::EOF]);
    assert!(tokens.iter().all(is_absent));
    assert!(errors.is_empty());
}

#[test]
fn unexpected_character_reports_one_diagnostic() {
    let (tokens, errors) = scan_all("@");
    assert_eq!(types(&tokens), vec![TokenType::EOF]);
    assert_eq!(errors.len(), 1);
    assert_eq!(errors[0].message, "Unexpected character.");
    assert_eq!(errors[0].render(), "[1:1] Unexpected character.");
}

#[test]
fn bang_equal_and_bang() {
    let (tokens, _) = scan_all("!=");
    assert_eq!(types(&tokens), vec![TokenType::BangEqual, TokenType::EOF]);
    assert_eq!(tokens[0].lexeme, "!=");
    let (tokens, _) = scan_all("!");
    assert_eq!(types(&tokens), vec![TokenType::Bang, TokenType::EOF]);
}

#[test]
fn keyword_prefix_is_an_identifier() {
    let (tokens, errors) = scan_all("android");
    assert_eq!(types(&tokens), vec![TokenType::Identifier, TokenType::EOF]);
    assert_eq!(tokens[0].lexeme, "android");
    assert!(errors.is_empty());
}

#[test]
fn eof_token_is_last_and_empty() {
    for src in ["", "   ", "x", "\"open", "@@", "1.2.3", "// only a comment"] {
        let (tokens, _) = scan_all(src);
        let last = tokens.last().unwrap();
        assert_eq!(last.token_type, TokenType::EOF);
        assert_eq!(last.lexeme, "");
        assert!(is_absent(last));
        assert_eq!(last.index, src.chars().count());
        assert_eq!(tokens.iter().filter(|t| t.token_type == TokenType::EOF).count(), 1);
    }
}

#[test]
fn lexemes_are_the_source_spans() {
    let src = "var x = (1 + y) >= 2.5; // note\nprint \"hi\";";
    let chars: Vec<char> = src.chars().collect();
    let (tokens, errors) = scan_all(src);
    assert!(errors.is_empty());
    let mut next = 0;
    let mut rebuilt = String::new();
    for t in &tokens[..tokens.len() - 1] {
        let len = t.lexeme.chars().count();
        let span: String = chars[t.index..t.index + len].iter().collect();
        assert_eq!(span, t.lexeme);
        assert!(t.index >= next);
        let gap: String = chars[next..t.index].iter().collect();
        assert!(gap.chars().all(|c| c == ' ' || c == '\n') || gap == " // note\n");
        rebuilt.push_str(&gap);
        rebuilt.push_str(&t.lexeme);
        next = t.index + len;
    }
    assert_eq!(rebuilt, src);
}

#[test]
fn every_token_type_of_punctuation() {
    let (tokens, errors) = scan_all("(){},.-+;*/ ! != = == < <= > >=");
    assert!(errors.is_empty());
    assert_eq!(
        types(&tokens),
        vec![
            TokenType::LeftParen,
            TokenType::RightParen,
            TokenType::LeftBrace,
            TokenType::RightBrace,
            TokenType::Comma,
            TokenType::Dot,
            TokenType::Minus,
            TokenType::Plus,
            TokenType::Semicolon,
            TokenType::Star,
            TokenType::Slash,
            TokenType::Bang,
            TokenType::BangEqual,
            TokenType::Equal,
            TokenType::EqualEqual,
            TokenType::Less,
            TokenType::LessEqual,
            TokenType::Greater,
            TokenType::GreaterEqual,
            TokenType::EOF,
        ]
    );
}

#[test]
fn all_keywords() {
    let (tokens, _) = scan_all(
        "and or class extends super if else true false fun return nil print this var const for while loop _x9",
    );
    assert_eq!(
        types(&tokens),
        vec![
            TokenType::And,
            TokenType::Or,
            TokenType::Class,
            TokenType::Extends,
            TokenType::Super,
            TokenType::If,
            TokenType::Else,
            TokenType::True,
            TokenType::False,
            TokenType::Fun,
            TokenType::Return,
            TokenType::Nil,
            TokenType::Print,
            TokenType::This,
            TokenType::Var,
            TokenType::Const,
            TokenType::For,
            TokenType::While,
            TokenType::Loop,
            TokenType::Identifier,
            TokenType::EOF,
        ]
    );
}

#[test]
fn string_literal_holds_text_between_quotes() {
    let (tokens, errors) = scan_all("\"a\nb\" x");
    assert!(errors.is_empty());
    assert_eq!(types(&tokens), vec![TokenType::String, TokenType::Identifier, TokenType::EOF]);
    assert_eq!(content(&tokens[0]), "a\nb");
    assert_eq!(tokens[0].lexeme, "\"a\nb\"");
    assert_eq!(tokens[0].line, 2);
    assert_eq!(tokens[0].line_index, 2);
    assert_eq!(tokens[1].line, 2);
}

#[test]
fn trailing_dot_is_not_part_of_number() {
    let (tokens, _) = scan_all("12.");
    assert_eq!(types(&tokens), vec![TokenType::Number, TokenType::Dot, TokenType::EOF]);
    assert_eq!(numeral(&tokens[0]), "12");
    let (tokens, _) = scan_all("1.2.3");
    assert_eq!(types(&tokens), vec![TokenType::Number, TokenType::Dot, TokenType::Number, TokenType::EOF]);
    assert_eq!(numeral(&tokens[0]), "1.2");
    assert_eq!(numeral(&tokens[2]), "3");
}

#[test]
fn scanning_goes_on_after_diagnostics() {
    let (tokens, errors) = scan_all("a @ b\n# c");
    assert_eq!(types(&tokens), vec![TokenType::Identifier, TokenType::Identifier, TokenType::Identifier, TokenType::EOF]);
    assert_eq!(errors.len(), 2);
    assert_eq!((errors[0].line, errors[0].index), (1, 3));
    assert_eq!((errors[1].line, errors[1].index), (2, 1));
    assert_eq!(errors[1].render(), "[2:1] Unexpected character.");
}

#[test]
fn scanner_object_api() {
    let mut sc = Scanner::new("x;");
    let tokens = sc.scan_tokens();
    assert_eq!(types(tokens), vec![TokenType::Identifier, TokenType::Semicolon, TokenType::EOF]);
    assert!(sc.errors().is_empty());
}

#[test]
fn constructors_keep_their_arguments() {
    let t = Token::new(TokenType::Plus, "+", NullLiteral::new(), 3, 7, 2);
    assert_eq!(t.token_type, TokenType::Plus);
    assert_eq!(t.lexeme, "+");
    assert!(is_absent(&t));
    assert_eq!((t.line, t.index, t.line_index), (3, 7, 2));
    assert!(matches!(EOFLiteral::new(), Literal::Absent));
    match StringLiteral::new("hey") {
        Literal::Str(s) => assert_eq!(s.content, "hey"),
        _ => panic!("not a string literal"),
    }
    match NumberLiteral::new("4.25") {
        Literal::Number(n) => assert_eq!(n.numeral, "4.25"),
        _ => panic!("not a number literal"),
    }
    let e = Error::new(12, 305, "bad");
    assert_eq!(e.render(), "[12:305] bad");
}
