use lexer::tokenizer::{Radix, Token, TokenKind, Tokenizer};

fn collect(source: &str) -> Vec<Token> {
    let mut scanner = Tokenizer::new(source);
    let mut tokens = Vec::new();
    loop {
        let t = scanner.next_token();
        let done = t.kind == TokenKind::EndOfFile;
        tokens.push(t);
        if done {
            break;
        }
    }
    tokens
}

#[test]
fn ident_then_whitespace_then_eof() {
    let tokens = collect("abc123 ");
    assert_eq!(tokens.len(), 3);
    assert_eq!(tokens[0], Token { kind: TokenKind::Ident, begin: 0, end: 6 });
    assert_eq!(tokens[1], Token { kind: TokenKind::WhiteSpace, begin: 6, end: 7 });
    assert_eq!(tokens[2], Token { kind: TokenKind::EndOfFile, begin: 7, end: 7 });
}

#[test]
fn uppercase_hex_digits_are_not_accepted() {
    let tokens = collect("0xFF");
    assert_eq!(tokens.len(), 3);
    assert_eq!(
        tokens[0],
        Token {
            kind: TokenKind::Int { radix: Radix::Hexadecimal, empty: true },
            begin: 0,
            end: 2
        }
    );
    assert_eq!(tokens[1], Token { kind: TokenKind::Ident, begin: 2, end: 4 });
    assert_eq!(tokens[2], Token { kind: TokenKind::EndOfFile, begin: 4, end: 4 });
}

#[test]
fn lowercase_hex_literal_is_not_empty() {
    let tokens = collect("0xff");
    assert_eq!(tokens.len(), 2);
    assert_eq!(
        tokens[0],
        Token {
            kind: TokenKind::Int { radix: Radix::Hexadecimal, empty: false },
            begin: 0,
            end: 4
        }
    );
}

#[test]
fn bare_binary_prefix_is_empty() {
    let tokens = collect("0b");
    assert_eq!(tokens.len(), 2);
    assert_eq!(
        tokens[0],
        Token { kind: TokenKind::Int { radix: Radix::Binary, empty: true }, begin: 0, end: 2 }
    );
    assert_eq!(tokens[1], Token { kind: TokenKind::EndOfFile, begin: 2, end: 2 });
}

#[test]
fn bare_octal_prefix_is_empty() {
    let tokens = collect("0o");
    assert_eq!(
        tokens[0],
        Token { kind: TokenKind::Int { radix: Radix::Octal, empty: true }, begin: 0, end: 2 }
    );
}

#[test]
fn binary_literal_stops_at_foreign_digit() {
    let tokens = collect("0b1012");
    assert_eq!(tokens.len(), 3);
    assert_eq!(
        tokens[0],
        Token { kind: TokenKind::Int { radix: Radix::Binary, empty: false }, begin: 0, end: 5 }
    );
    assert_eq!(
        tokens[1],
        Token { kind: TokenKind::Int { radix: Radix::Decimal, empty: false }, begin: 5, end: 6 }
    );
}

#[test]
fn lone_zero_is_a_decimal_int() {
    let tokens = collect("0");
    assert_eq!(
        tokens[0],
        Token { kind: TokenKind::Int { radix: Radix::Decimal, empty: false }, begin: 0, end: 1 }
    );
}

#[test]
fn decimal_literal() {
    let tokens = collect("12345");
    assert_eq!(
        tokens[0],
        Token { kind: TokenKind::Int { radix: Radix::Decimal, empty: false }, begin: 0, end: 5 }
    );
}

#[test]
fn unterminated_string_spans_whole_input() {
    let tokens = collect("\"abc");
    assert_eq!(tokens.len(), 2);
    assert_eq!(
        tokens[0],
        Token { kind: TokenKind::Str { terminated: false }, begin: 0, end: 4 }
    );
    assert_eq!(tokens[1], Token { kind: TokenKind::EndOfFile, begin: 4, end: 4 });
}

#[test]
fn terminated_string() {
    let tokens = collect("\"abc\"");
    assert_eq!(
        tokens[0],
        Token { kind: TokenKind::Str { terminated: true }, begin: 0, end: 5 }
    );
}

#[test]
fn string_with_escaped_quote_stays_open_until_real_quote() {
    let tokens = collect("\"a\\\"b\"");
    assert_eq!(
        tokens[0],
        Token { kind: TokenKind::Str { terminated: true }, begin: 0, end: 6 }
    );
}

#[test]
fn string_stops_unterminated_at_newline() {
    let tokens = collect("\"ab\ncd");
    assert_eq!(
        tokens[0],
        Token { kind: TokenKind::Str { terminated: false }, begin: 0, end: 3 }
    );
    assert_eq!(tokens[1], Token { kind: TokenKind::WhiteSpace, begin: 3, end: 4 });
    assert_eq!(tokens[2], Token { kind: TokenKind::Ident, begin: 4, end: 6 });
}

#[test]
fn backslash_at_end_of_input_does_not_crash() {
    let tokens = collect("\"a\\");
    assert_eq!(
        tokens[0],
        Token { kind: TokenKind::Str { terminated: false }, begin: 0, end: 3 }
    );
    assert_eq!(tokens[1], Token { kind: TokenKind::EndOfFile, begin: 3, end: 3 });
}

#[test]
fn comment_excludes_the_newline() {
    let tokens = collect("-- a comment\nx");
    assert_eq!(tokens.len(), 4);
    assert_eq!(tokens[0], Token { kind: TokenKind::Comment, begin: 0, end: 12 });
    assert_eq!(tokens[1], Token { kind: TokenKind::WhiteSpace, begin: 12, end: 13 });
    assert_eq!(tokens[2], Token { kind: TokenKind::Ident, begin: 13, end: 14 });
    assert_eq!(tokens[3], Token { kind: TokenKind::EndOfFile, begin: 14, end: 14 });
}

#[test]
fn comment_at_end_of_input() {
    let tokens = collect("--");
    assert_eq!(tokens[0], Token { kind: TokenKind::Comment, begin: 0, end: 2 });
}

#[test]
fn two_character_operators_are_single_tokens() {
    let cases = [
        ("->", TokenKind::RightArrow),
        (">=", TokenKind::GreaterThanOrEqualTo),
        ("<=", TokenKind::LessThanOrEqualTo),
        ("<>", TokenKind::LessThanOrGreaterThan),
    ];
    for (source, kind) in cases {
        let tokens = collect(source);
        assert_eq!(tokens.len(), 2, "source {:?}", source);
        assert_eq!(tokens[0], Token { kind, begin: 0, end: 2 }, "source {:?}", source);
        assert_eq!(
            tokens[1],
            Token { kind: TokenKind::EndOfFile, begin: 2, end: 2 },
            "source {:?}",
            source
        );
    }
}

#[test]
fn bare_comparison_and_minus_tokens() {
    let tokens = collect("< > - =");
    let kinds: Vec<TokenKind> = tokens.iter().map(|t| t.kind).collect();
    assert_eq!(
        kinds,
        vec![
            TokenKind::LessThan,
            TokenKind::WhiteSpace,
            TokenKind::GreaterThan,
            TokenKind::WhiteSpace,
            TokenKind::Minus,
            TokenKind::WhiteSpace,
            TokenKind::Equal,
            TokenKind::EndOfFile,
        ]
    );
}

#[test]
fn single_character_punctuation() {
    let cases = [
        ("(", TokenKind::OpenParenthesis),
        (")", TokenKind::CloseParenthesis),
        (".", TokenKind::Dot),
        (":", TokenKind::Colon),
        (";", TokenKind::SemiColon),
        (",", TokenKind::Comma),
        ("+", TokenKind::Plus),
        ("*", TokenKind::Star),
        ("/", TokenKind::Slash),
        ("|", TokenKind::Pipe),
        ("&", TokenKind::Ampersand),
        ("~", TokenKind::Tilde),
    ];
    for (source, kind) in cases {
        let tokens = collect(source);
        assert_eq!(tokens[0], Token { kind, begin: 0, end: 1 }, "source {:?}", source);
    }
}

#[test]
fn unrecognized_character_is_invalid() {
    let tokens = collect("@");
    assert_eq!(tokens[0], Token { kind: TokenKind::Invalid, begin: 0, end: 1 });
}

#[test]
fn nul_character_in_input_is_invalid_not_eof() {
    let tokens = collect("\0x");
    assert_eq!(tokens.len(), 3);
    assert_eq!(tokens[0], Token { kind: TokenKind::Invalid, begin: 0, end: 1 });
    assert_eq!(tokens[1], Token { kind: TokenKind::Ident, begin: 1, end: 2 });
}

#[test]
fn trailing_nul_character_is_invalid() {
    let tokens = collect("x\0");
    assert_eq!(tokens[1], Token { kind: TokenKind::Invalid, begin: 1, end: 2 });
    assert_eq!(tokens[2], Token { kind: TokenKind::EndOfFile, begin: 2, end: 2 });
}

#[test]
fn empty_input_yields_only_eof() {
    let tokens = collect("");
    assert_eq!(tokens, vec![Token { kind: TokenKind::EndOfFile, begin: 0, end: 0 }]);
}

#[test]
fn identifier_may_start_with_underscore() {
    let tokens = collect("_a1");
    assert_eq!(tokens[0], Token { kind: TokenKind::Ident, begin: 0, end: 3 });
}

#[test]
fn is_eof_flips_only_at_the_end() {
    let mut scanner = Tokenizer::new("a b");
    assert!(!scanner.is_eof());
    scanner.next_token();
    assert!(!scanner.is_eof());
    scanner.next_token();
    assert!(!scanner.is_eof());
    scanner.next_token();
    assert!(scanner.is_eof());
}
