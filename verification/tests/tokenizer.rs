use rmc::tokenizer::{Scanner, SimpleScanner, TextScanner, Token, TokenType, Tokenizer};

fn assert_vecs(vec1: &Vec<Token>, vec2: &Vec<Token>) {
    assert!(vec1.len() == vec2.len());
    for i in 0..vec1.len() {
        assert!(vec1[i].type_ == vec2[i].type_);
        assert!(vec1[i].value == vec2[i].value);
    }
}

fn pairs(tokens: &Vec<Token>) -> Vec<(TokenType, String)> {
    tokens
        .iter()
        .map(|token| (token.type_, token.value.clone()))
        .collect()
}

fn joined(tokens: &Vec<Token>) -> String {
    let mut text = String::new();
    for token in &tokens[..tokens.len() - 1] {
        text.push_str(&token.value);
    }
    text
}

#[test]
fn emphesize_underscore_simple() {
    let input = "_Hello_";
    let result = Tokenizer::tokenize(input);
    let expected = vec![
        Token::new(TokenType::Underscore, "_".to_string()),
        Token::new(TokenType::Text, "Hello".to_string()),
        Token::new(TokenType::Underscore, "_".to_string()),
        Token::eof(),
    ];
    assert_vecs(&result, &expected);
}

#[test]
fn emphesize_star_simple() {
    let input = "*Hello*";
    let result = Tokenizer::tokenize(input);
    let expected = vec![
        Token::new(TokenType::Star, "*".to_string()),
        Token::new(TokenType::Text, "Hello".to_string()),
        Token::new(TokenType::Star, "*".to_string()),
        Token::eof(),
    ];
    assert_vecs(&result, &expected);
}

#[test]
fn tokenizer_bold_underscore_simple() {
    let input = "__Hello__";
    let result = Tokenizer::tokenize(input);
    let expected = vec![
        Token::new(TokenType::Underscore, "_".to_string()),
        Token::new(TokenType::Underscore, "_".to_string()),
        Token::new(TokenType::Text, "Hello".to_string()),
        Token::new(TokenType::Underscore, "_".to_string()),
        Token::new(TokenType::Underscore, "_".to_string()),
        Token::eof(),
    ];
    assert_vecs(&result, &expected);
}

#[test]
fn tokenizer_bold_star_simple() {
    let input = "**Hello**";
    let result = Tokenizer::tokenize(input);
    let expected = vec![
        Token::new(TokenType::Star, "*".to_string()),
        Token::new(TokenType::Star, "*".to_string()),
        Token::new(TokenType::Text, "Hello".to_string()),
        Token::new(TokenType::Star, "*".to_string()),
        Token::new(TokenType::Star, "*".to_string()),
        Token::eof(),
    ];
    assert_vecs(&result, &expected);
}

#[test]
fn token_constructors() {
    let token = Token::new(TokenType::Star, "*".to_string());
    assert!(token.type_ == TokenType::Star);
    assert_eq!(token.value, "*");

    let eof = Token::eof();
    assert!(eof.type_ == TokenType::Eof);
    assert_eq!(eof.value, "<EOF>");
}

#[test]
fn token_len_counts_bytes() {
    assert_eq!(Token::new(TokenType::Text, "Hello".to_string()).len(), 5);
    assert_eq!(Token::new(TokenType::Text, "h\u{e9}".to_string()).len(), 3);
    assert_eq!(Token::new(TokenType::Text, "\u{65e5}\u{672c}".to_string()).len(), 6);
    assert_eq!(Token::new(TokenType::Text, "\u{1f600}".to_string()).len(), 4);
    assert_eq!(Token::new(TokenType::Text, String::new()).len(), 0);
    assert_eq!(Token::eof().len(), 5);
}

#[test]
fn tokenize_empty_input() {
    let tokens = Tokenizer::tokenize("");
    assert_eq!(tokens.len(), 1);
    assert!(tokens[0].type_ == TokenType::Eof);
    assert_eq!(tokens[0].value, "<EOF>");
}

#[test]
fn tokenize_emphasis() {
    let tokens = Tokenizer::tokenize("_X_");
    assert_eq!(
        pairs(&tokens),
        vec![
            (TokenType::Underscore, "_".to_string()),
            (TokenType::Text, "X".to_string()),
            (TokenType::Underscore, "_".to_string()),
            (TokenType::Eof, "<EOF>".to_string()),
        ]
    );
}

#[test]
fn tokenize_bold() {
    let tokens = Tokenizer::tokenize("**X**");
    assert_eq!(
        pairs(&tokens),
        vec![
            (TokenType::Star, "*".to_string()),
            (TokenType::Star, "*".to_string()),
            (TokenType::Text, "X".to_string()),
            (TokenType::Star, "*".to_string()),
            (TokenType::Star, "*".to_string()),
            (TokenType::Eof, "<EOF>".to_string()),
        ]
    );
}

#[test]
fn tokenize_newlines_and_text() {
    let tokens = Tokenizer::tokenize("a b\n\n_c");
    assert_eq!(
        pairs(&tokens),
        vec![
            (TokenType::Text, "a b".to_string()),
            (TokenType::Newline, "\n".to_string()),
            (TokenType::Newline, "\n".to_string()),
            (TokenType::Underscore, "_".to_string()),
            (TokenType::Text, "c".to_string()),
            (TokenType::Eof, "<EOF>".to_string()),
        ]
    );
}

#[test]
fn tokenize_text_of_several_bytes_a_character() {
    let tokens = Tokenizer::tokenize("h\u{e9}_\u{65e5}\u{672c}*\u{1f600}\n\u{fc}");
    assert_eq!(
        pairs(&tokens),
        vec![
            (TokenType::Text, "h\u{e9}".to_string()),
            (TokenType::Underscore, "_".to_string()),
            (TokenType::Text, "\u{65e5}\u{672c}".to_string()),
            (TokenType::Star, "*".to_string()),
            (TokenType::Text, "\u{1f600}".to_string()),
            (TokenType::Newline, "\n".to_string()),
            (TokenType::Text, "\u{fc}".to_string()),
            (TokenType::Eof, "<EOF>".to_string()),
        ]
    );
}

#[test]
fn tokenize_keeps_every_character() {
    let inputs = [
        "",
        "Hello",
        "_X_",
        "**X**",
        "__Foo__ and *bar*.\n\nAnother paragraph.",
        "\n\n\n",
        "*_*_\n_*",
        "tabs\tand\r\ncarriage returns",
        "h\u{e9}llo *w\u{f6}rld*\n\n\u{65e5}\u{672c}\u{8a9e}_x_\u{1f600}",
        "<EOF>",
    ];
    for input in inputs {
        let tokens = Tokenizer::tokenize(input);
        assert_eq!(joined(&tokens), input);
    }
}

#[test]
fn tokenize_ends_with_the_only_eof() {
    let inputs = ["", "a", "a_b*c\nd", "<EOF>", "**\n\n__"];
    for input in inputs {
        let tokens = Tokenizer::tokenize(input);
        let last = tokens.len() - 1;
        assert!(tokens[last].type_ == TokenType::Eof);
        for token in &tokens[..last] {
            assert!(token.type_ != TokenType::Eof);
            assert!(!token.value.is_empty());
        }
    }
}

#[test]
fn tokenize_takes_the_longest_text() {
    let tokens = Tokenizer::tokenize("ab cd_ef");
    assert_eq!(tokens.len(), 4);
    for pair in tokens.windows(2) {
        assert!(!(pair[0].type_ == TokenType::Text && pair[1].type_ == TokenType::Text));
    }
}

#[test]
fn tokenize_twice_gives_the_same_tokens() {
    let input = "__Foo__ and *bar*.\n\nAnother paragraph.";
    assert_eq!(
        pairs(&Tokenizer::tokenize(input)),
        pairs(&Tokenizer::tokenize(input))
    );
}

#[test]
fn simple_scanner() {
    let token = SimpleScanner::scan("_a").unwrap();
    assert!(token.type_ == TokenType::Underscore);
    assert_eq!(token.value, "_");

    let token = SimpleScanner::scan("*").unwrap();
    assert!(token.type_ == TokenType::Star);
    assert_eq!(token.value, "*");

    let token = SimpleScanner::scan("\n\n").unwrap();
    assert!(token.type_ == TokenType::Newline);
    assert_eq!(token.value, "\n");

    assert!(SimpleScanner::scan("a_").is_none());
    assert!(SimpleScanner::scan("\u{e9}").is_none());
    assert!(SimpleScanner::scan("").is_none());
}

#[test]
fn text_scanner() {
    let token = TextScanner::scan("ab_c").unwrap();
    assert!(token.type_ == TokenType::Text);
    assert_eq!(token.value, "ab");

    let token = TextScanner::scan("no specials").unwrap();
    assert_eq!(token.value, "no specials");

    let token = TextScanner::scan("\u{e9}\u{1f600}\nx").unwrap();
    assert_eq!(token.value, "\u{e9}\u{1f600}");

    assert!(TextScanner::scan("_ab").is_none());
    assert!(TextScanner::scan("*").is_none());
    assert!(TextScanner::scan("\n").is_none());
    assert!(TextScanner::scan("").is_none());
}

#[test]
fn scan_one_token() {
    let token = Tokenizer::scan_one_token("*bold").unwrap();
    assert!(token.type_ == TokenType::Star);
    assert_eq!(token.value, "*");

    let token = Tokenizer::scan_one_token("bold*").unwrap();
    assert!(token.type_ == TokenType::Text);
    assert_eq!(token.value, "bold");

    assert!(Tokenizer::scan_one_token("").is_none());
}
