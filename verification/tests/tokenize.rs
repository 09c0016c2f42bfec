use exprc::tokenize::{
    get_number, is_ascii_digit, is_ascii_punctuation, is_whitespace, read_punct, tokenize,
    ScanError, Token, TokenKind,
};

fn kinds(tokens: &[Token]) -> Vec<TokenKind> {
    tokens.iter().map(|t| t.kind).collect()
}

fn texts<'a>(tokens: &[Token<'a>]) -> Vec<&'a str> {
    tokens.iter().map(|t| t.location).collect()
}

#[test]
fn test_get_number() {
    assert_eq!(get_number("123   12  "), "123");
    assert_eq!(get_number("123     "), "123");
    assert_eq!(get_number("123a"), "123");
    assert_eq!(get_number("1"), "1");
}

#[test]
fn test_tokenize() {
    let tokens = tokenize("123   12  ").unwrap();
    assert_eq!(tokens.len(), 2);

    let tokens = tokenize("2+2 / 3").unwrap();
    assert_eq!(tokens.len(), 5);
}

#[test]
fn get_number_without_digits_is_empty() {
    assert_eq!(get_number(""), "");
    assert_eq!(get_number("a1"), "");
    assert_eq!(get_number(" 1"), "");
}

#[test]
fn get_number_stops_at_non_ascii_digits() {
    // U+0663 is a decimal digit, but no ASCII one.
    assert_eq!(get_number("12\u{663}4"), "12");
}

#[test]
fn scan_two_plus_two() {
    let tokens = tokenize("2+2").unwrap();
    assert_eq!(
        kinds(&tokens),
        vec![TokenKind::Num(2), TokenKind::Punct, TokenKind::Num(2)]
    );
    assert_eq!(texts(&tokens), vec!["2", "+", "2"]);
}

#[test]
fn scan_keeps_the_source_text_of_each_token() {
    let tokens = tokenize("  007 <=\t( 12 )").unwrap();
    assert_eq!(
        kinds(&tokens),
        vec![
            TokenKind::Num(7),
            TokenKind::Punct,
            TokenKind::Punct,
            TokenKind::Num(12),
            TokenKind::Punct
        ]
    );
    assert_eq!(texts(&tokens), vec!["007", "<=", "(", "12", ")"]);
}

#[test]
fn scan_empty_and_blank_inputs() {
    assert_eq!(tokenize("").unwrap().len(), 0);
    assert_eq!(tokenize(" \t\n\r ").unwrap().len(), 0);
}

#[test]
fn scan_skips_unicode_whitespace() {
    let tokens = tokenize("1\u{3000}+\u{a0}2\u{2028}\u{85}").unwrap();
    assert_eq!(texts(&tokens), vec!["1", "+", "2"]);
}

#[test]
fn scan_positions_count_characters() {
    // The ideographic space takes three bytes and counts as one character.
    assert_eq!(
        tokenize("\u{3000}\u{3000}x"),
        Err(ScanError::UnexpectedCharacter { position: 2 })
    );
}

#[test]
fn scan_two_character_punctuation() {
    assert_eq!(texts(&tokenize("1==2").unwrap()), vec!["1", "==", "2"]);
    assert_eq!(texts(&tokenize("1!=2").unwrap()), vec!["1", "!=", "2"]);
    assert_eq!(texts(&tokenize("1<=2").unwrap()), vec!["1", "<=", "2"]);
    assert_eq!(texts(&tokenize("1>=2").unwrap()), vec!["1", ">=", "2"]);
    assert_eq!(texts(&tokenize("1<2").unwrap()), vec!["1", "<", "2"]);
    assert_eq!(texts(&tokenize("1>2").unwrap()), vec!["1", ">", "2"]);
}

#[test]
fn scan_prefers_the_longer_mark() {
    assert_eq!(texts(&tokenize("===").unwrap()), vec!["==", "="]);
    assert_eq!(texts(&tokenize("!==").unwrap()), vec!["!=", "="]);
    assert_eq!(texts(&tokenize("<==").unwrap()), vec!["<=", "="]);
    assert_eq!(texts(&tokenize("= =").unwrap()), vec!["=", "="]);
    assert_eq!(texts(&tokenize("=!").unwrap()), vec!["=", "!"]);
    assert_eq!(texts(&tokenize("+=").unwrap()), vec!["+", "="]);
}

#[test]
fn scan_any_ascii_punctuation_is_a_token() {
    let all = "!\"#$%&'()*+,-./:;<=>?@[\\]^_`{|}~";
    let spaced: String = all.chars().flat_map(|c| [c, ' ']).collect();
    let tokens = tokenize(&spaced).unwrap();
    assert_eq!(tokens.len(), 32);
    assert!(tokens.iter().all(|t| t.kind == TokenKind::Punct));
    let joined: String = tokens.iter().map(|t| t.location).collect();
    assert_eq!(joined, all);
}

#[test]
fn scan_literal_values() {
    assert_eq!(kinds(&tokenize("0").unwrap()), vec![TokenKind::Num(0)]);
    assert_eq!(
        kinds(&tokenize("2147483647").unwrap()),
        vec![TokenKind::Num(2147483647)]
    );
    assert_eq!(
        kinds(&tokenize("0000000000000000000000042").unwrap()),
        vec![TokenKind::Num(42)]
    );
    assert_eq!(
        kinds(&tokenize("12 34").unwrap()),
        vec![TokenKind::Num(12), TokenKind::Num(34)]
    );
}

#[test]
fn scan_numeric_overflow() {
    assert_eq!(
        tokenize("99999999999"),
        Err(ScanError::NumericOverflow { position: 0 })
    );
    assert_eq!(
        tokenize("2147483648"),
        Err(ScanError::NumericOverflow { position: 0 })
    );
    assert_eq!(
        tokenize("1 + 4294967296"),
        Err(ScanError::NumericOverflow { position: 4 })
    );
    assert_eq!(
        tokenize("18446744073709551617"),
        Err(ScanError::NumericOverflow { position: 0 })
    );
}

#[test]
fn scan_unexpected_character() {
    assert_eq!(
        tokenize("1 + a"),
        Err(ScanError::UnexpectedCharacter { position: 4 })
    );
    assert_eq!(
        tokenize("x"),
        Err(ScanError::UnexpectedCharacter { position: 0 })
    );
    assert_eq!(
        tokenize("12\u{e9}"),
        Err(ScanError::UnexpectedCharacter { position: 2 })
    );
    assert_eq!(
        tokenize("1\u{0}"),
        Err(ScanError::UnexpectedCharacter { position: 1 })
    );
}

#[test]
fn scan_reports_the_first_error() {
    assert_eq!(
        tokenize("a 99999999999"),
        Err(ScanError::UnexpectedCharacter { position: 0 })
    );
    assert_eq!(
        tokenize("99999999999 a"),
        Err(ScanError::NumericOverflow { position: 0 })
    );
}

#[test]
fn a_literal_ends_where_its_digits_end() {
    assert_eq!(
        tokenize("123a"),
        Err(ScanError::UnexpectedCharacter { position: 3 })
    );
    assert_eq!(texts(&tokenize("12(3").unwrap()), vec!["12", "(", "3"]);
}

#[test]
fn tokens_tile_the_input() {
    let input = " 12+(3 <=\t45)*6 ";
    let tokens = tokenize(input).unwrap();
    let mut rest = input;
    for token in &tokens {
        rest = rest.trim_start();
        assert!(rest.starts_with(token.location));
        rest = &rest[token.location.len()..];
    }
    assert!(rest.trim_start().is_empty());
}

#[test]
fn read_punct_lengths() {
    let chars: Vec<char> = "==a<=+ 7".chars().collect();
    assert_eq!(read_punct(&chars, 0), 2);
    assert_eq!(read_punct(&chars, 1), 1);
    assert_eq!(read_punct(&chars, 2), 0);
    assert_eq!(read_punct(&chars, 3), 2);
    assert_eq!(read_punct(&chars, 4), 1);
    assert_eq!(read_punct(&chars, 5), 1);
    assert_eq!(read_punct(&chars, 6), 0);
    assert_eq!(read_punct(&chars, 7), 0);
    assert_eq!(read_punct(&chars, 8), 0);
    assert_eq!(read_punct(&chars, 100), 0);
}

#[test]
fn character_classes_are_those_of_std() {
    for code in 0..=0x10ffffu32 {
        if let Some(c) = char::from_u32(code) {
            assert_eq!(is_whitespace(c), c.is_whitespace(), "U+{:04X}", code);
            assert_eq!(is_ascii_digit(c), c.is_ascii_digit(), "U+{:04X}", code);
            assert_eq!(
                is_ascii_punctuation(c),
                c.is_ascii_punctuation(),
                "U+{:04X}",
                code
            );
        }
    }
}
