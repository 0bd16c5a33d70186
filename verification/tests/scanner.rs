use lang::tokenize::{tokenize, LexError, Token, TokenKind};

fn scan(src: &str) -> Vec<Token> {
    tokenize(src.chars().collect()).unwrap().into_iter().collect()
}

fn kinds(src: &str) -> Vec<TokenKind> {
    scan(src).iter().map(|t| t.kind).collect()
}

fn texts(src: &str) -> Vec<String> {
    scan(src).iter().map(|t| t.str.clone()).collect()
}

#[test]
fn empty_source_has_no_tokens() {
    assert!(scan("").is_empty());
    assert!(scan(" \t\n\r\x0c ").is_empty());
}

#[test]
fn keywords_get_their_own_kinds() {
    assert_eq!(
        kinds("return if while for"),
        vec![TokenKind::TK_RETURN, TokenKind::TK_IF, TokenKind::TK_WHILE, TokenKind::TK_FOR]
    );
}

#[test]
fn keyword_followed_by_letters_is_one_identifier() {
    let tokens = scan("iffoo");
    assert_eq!(tokens.len(), 1);
    assert_eq!(tokens[0].kind, TokenKind::TK_IDENT);
    assert_eq!(tokens[0].str, "iffoo");
    assert_eq!(tokens[0].val, None);
    assert_eq!(kinds("returnx forty whilex"), vec![TokenKind::TK_IDENT; 3]);
}

#[test]
fn keyword_before_a_digit_or_a_mark_stays_a_keyword() {
    assert_eq!(kinds("if1"), vec![TokenKind::TK_IF, TokenKind::TK_NUM]);
    assert_eq!(kinds("return;"), vec![TokenKind::TK_RETURN, TokenKind::TK_RESERVED]);
    assert_eq!(kinds("for("), vec![TokenKind::TK_FOR, TokenKind::TK_RESERVED]);
}

#[test]
fn else_is_a_reserved_word() {
    let tokens = scan("else elsewhere");
    assert_eq!(tokens[0].kind, TokenKind::TK_RESERVED);
    assert_eq!(tokens[0].str, "else");
    assert_eq!(tokens[1].kind, TokenKind::TK_IDENT);
    assert_eq!(tokens[1].str, "elsewhere");
}

#[test]
fn two_character_operators_win_over_one_character_ones() {
    assert_eq!(texts("<= >= == !="), vec!["<=", ">=", "==", "!="]);
    assert_eq!(texts("a<=b"), vec!["a", "<=", "b"]);
    assert_eq!(texts("==="), vec!["==", "="]);
    assert_eq!(texts("<=="), vec!["<=", "="]);
    assert_eq!(texts("< ="), vec!["<", "="]);
    assert_eq!(kinds("<= >= == !="), vec![TokenKind::TK_RESERVED; 4]);
}

#[test]
fn every_single_character_mark_is_reserved() {
    let src = "+-*/(){},;=<>";
    let tokens = scan(src);
    assert_eq!(tokens.len(), 13);
    for (token, ch) in tokens.iter().zip(src.chars()) {
        assert_eq!(token.kind, TokenKind::TK_RESERVED);
        assert_eq!(token.str, ch.to_string());
        assert_eq!(token.val, None);
    }
}

#[test]
fn digits_accumulate_from_the_left() {
    let tokens = scan("0 7 42 12345 007");
    let values: Vec<Option<u32>> = tokens.iter().map(|t| t.val).collect();
    assert_eq!(values, vec![Some(0), Some(7), Some(42), Some(12345), Some(7)]);
    assert_eq!(tokens[4].str, "007");
    assert!(tokens.iter().all(|t| t.kind == TokenKind::TK_NUM));
}

#[test]
fn a_run_of_digits_is_one_literal() {
    assert_eq!(texts("12ab34"), vec!["12", "ab", "34"]);
    assert_eq!(
        kinds("12ab34"),
        vec![TokenKind::TK_NUM, TokenKind::TK_IDENT, TokenKind::TK_NUM]
    );
}

#[test]
fn largest_literal_fits() {
    let tokens = scan("4294967295");
    assert_eq!(tokens[0].val, Some(u32::MAX));
}

#[test]
fn literal_beyond_32_bits_is_an_error() {
    assert_eq!(
        tokenize("x = 4294967296;".chars().collect()),
        Err(LexError::NumberTooLarge { at: 4 })
    );
    assert_eq!(
        tokenize("99999999999999999999999".chars().collect()),
        Err(LexError::NumberTooLarge { at: 0 })
    );
}

#[test]
fn unknown_character_is_an_error() {
    assert_eq!(
        tokenize("a $ b".chars().collect()),
        Err(LexError::UnexpectedChar { at: 2, ch: '$' })
    );
    assert_eq!(tokenize("!".chars().collect()), Err(LexError::UnexpectedChar { at: 0, ch: '!' }));
    assert_eq!(
        tokenize("a = B;".chars().collect()),
        Err(LexError::UnexpectedChar { at: 4, ch: 'B' })
    );
    assert_eq!(
        tokenize("x_y".chars().collect()),
        Err(LexError::UnexpectedChar { at: 1, ch: '_' })
    );
}

#[test]
fn the_first_error_wins() {
    assert_eq!(
        tokenize("1 # 99999999999".chars().collect()),
        Err(LexError::UnexpectedChar { at: 2, ch: '#' })
    );
    assert_eq!(
        tokenize("99999999999 #".chars().collect()),
        Err(LexError::NumberTooLarge { at: 0 })
    );
}

#[test]
fn token_text_is_the_matched_source() {
    assert_eq!(
        texts("f(n){ if(n<2) return n; return f(n-1)+f(n-2); }"),
        vec![
            "f", "(", "n", ")", "{", "if", "(", "n", "<", "2", ")", "return", "n", ";", "return",
            "f", "(", "n", "-", "1", ")", "+", "f", "(", "n", "-", "2", ")", ";", "}"
        ]
    );
}

#[test]
fn scanning_twice_gives_the_same_tokens() {
    let src = "main(){ a = 1; while (a < 10) a = a + 1; return a; }";
    assert_eq!(scan(src), scan(src));
}

#[test]
fn lexical_messages_name_the_place() {
    assert_eq!(
        LexError::UnexpectedChar { at: 12, ch: '$' }.message(),
        "unexpected character '$' at index 12"
    );
    assert_eq!(
        LexError::NumberTooLarge { at: 0 }.message(),
        "the integer literal at index 0 does not fit in 32 bits"
    );
}
