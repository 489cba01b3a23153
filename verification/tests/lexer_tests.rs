use venlyn::lexer::lex;
use venlyn::token::{token_to_str, Token as T};
use venlyn::tokenizer::LexEnd;

#[test]
pub fn weird_lex_tests() {
    let code = "let this=4;let that = 5; let somet hing      = 1 == 4;";
    let expected = vec![
        T::Let,
        T::Id("this".to_string()),
        T::Eq,
        T::NumericalLiteral(4),
        T::Semi,
        T::Let,
        T::Id("that".to_string()),
        T::Eq,
        T::NumericalLiteral(5),
        T::Semi,
        T::Let,
        T::Id("somet".to_string()),
        T::Id("hing".to_string()),
        T::Eq,
        T::NumericalLiteral(1),
        T::CmpEq,
        T::NumericalLiteral(4),
        T::Semi,
    ];
    let tokens = lex(code).tokens;
    assert!(tokens == expected);
}

#[test]
fn fixed_spellings_lex_to_single_tokens() {
    let cases = vec![
        ("let", T::Let),
        ("+", T::Plus),
        ("-", T::Minus),
        ("/", T::ForwardSlash),
        ("*", T::Star),
        ("^", T::BitXor),
        ("|", T::BitOr),
        ("&", T::BitAnd),
        ("+=", T::PlusEq),
        ("-=", T::MinusEq),
        ("/=", T::DivEq),
        ("*=", T::MulEq),
        ("^=", T::BitXorEq),
        ("|=", T::BitOrEq),
        ("&=", T::BitAndEq),
        ("=", T::Eq),
        ("==", T::CmpEq),
        (";", T::Semi),
    ];
    for (spelling, token) in cases {
        let out = lex(spelling);
        assert_eq!(out.tokens, vec![token.clone()]);
        assert_eq!(out.terminal, LexEnd::EndOfInput);
        // the round trip: rendering the token back and tokenizing again is
        // idempotent
        let rendered = token_to_str(&out.tokens[0]);
        assert_eq!(rendered, spelling.to_string());
        let again = lex(&rendered);
        assert_eq!(again.tokens, vec![token]);
        assert_eq!(again.terminal, LexEnd::EndOfInput);
    }
}

#[test]
fn maximal_munch_prefers_the_longer_token() {
    assert_eq!(lex("==").tokens, vec![T::CmpEq]);
    assert_eq!(lex("= =").tokens, vec![T::Eq, T::Eq]);
    assert_eq!(lex("+=").tokens, vec![T::PlusEq]);
    assert_eq!(lex("+ =").tokens, vec![T::Plus, T::Eq]);
}

#[test]
fn backtrack_does_not_swallow_following_characters() {
    assert_eq!(lex("+1").tokens, vec![T::Plus, T::NumericalLiteral(1)]);
    assert_eq!(lex("+;").tokens, vec![T::Plus, T::Semi]);
}

#[test]
fn whitespace_between_tokens_is_insignificant() {
    let tight = lex("let x=4;");
    let spread = lex("let   x   =   4   ;");
    let expected = vec![
        T::Let,
        T::Id("x".to_string()),
        T::Eq,
        T::NumericalLiteral(4),
        T::Semi,
    ];
    assert_eq!(tight.tokens, expected);
    assert_eq!(spread.tokens, expected);
    assert_eq!(tight.terminal, LexEnd::EndOfInput);
    assert_eq!(spread.terminal, LexEnd::EndOfInput);
}

#[test]
fn identifiers_stop_at_non_identifier_characters() {
    assert_eq!(
        lex("ab+1").tokens,
        vec![T::Id("ab".to_string()), T::Plus, T::NumericalLiteral(1)]
    );
    assert_eq!(
        lex("a_1 b").tokens,
        vec![T::Id("a_1".to_string()), T::Id("b".to_string())]
    );
}

#[test]
fn negative_literals_need_the_digit_right_after_the_minus() {
    assert_eq!(lex("-5").tokens, vec![T::NumericalLiteral(-5)]);
    assert_eq!(lex("- 5").tokens, vec![T::Minus, T::NumericalLiteral(5)]);
}

#[test]
fn worked_example_end_to_end() {
    let out = lex("let this=4;let that = 5; let somet hing = 1 == 4;");
    assert_eq!(
        out.tokens,
        vec![
            T::Let,
            T::Id("this".to_string()),
            T::Eq,
            T::NumericalLiteral(4),
            T::Semi,
            T::Let,
            T::Id("that".to_string()),
            T::Eq,
            T::NumericalLiteral(5),
            T::Semi,
            T::Let,
            T::Id("somet".to_string()),
            T::Id("hing".to_string()),
            T::Eq,
            T::NumericalLiteral(1),
            T::CmpEq,
            T::NumericalLiteral(4),
            T::Semi,
        ]
    );
    assert_eq!(out.terminal, LexEnd::EndOfInput);
}

#[test]
fn empty_input_is_a_clean_end() {
    let out = lex("");
    assert!(out.tokens.is_empty());
    assert_eq!(out.terminal, LexEnd::EndOfInput);
}

#[test]
fn unrecognized_character_is_told_apart_from_end_of_input() {
    let out = lex("#");
    assert!(out.tokens.is_empty());
    assert_eq!(out.terminal, LexEnd::UnrecognizedCharacter);
    let trailing = lex("let x #");
    assert_eq!(trailing.tokens, vec![T::Let, T::Id("x".to_string())]);
    assert_eq!(trailing.terminal, LexEnd::UnrecognizedCharacter);
}

#[test]
fn keyword_match_wins_over_a_longer_identifier() {
    // the trie walk runs before identifier recognition, so a keyword prefix
    // is taken as soon as it matches
    assert_eq!(lex("letx").tokens, vec![T::Let, T::Id("x".to_string())]);
}

#[test]
fn numeric_literals_wrap_like_native_arithmetic() {
    assert_eq!(lex("2147483647").tokens, vec![T::NumericalLiteral(2147483647)]);
    assert_eq!(lex("2147483648").tokens, vec![T::NumericalLiteral(-2147483648)]);
    assert_eq!(lex("-2147483648").tokens, vec![T::NumericalLiteral(-2147483648)]);
}

#[test]
fn compound_assignments_in_context() {
    assert_eq!(
        lex("a+=1;b|=c").tokens,
        vec![
            T::Id("a".to_string()),
            T::PlusEq,
            T::NumericalLiteral(1),
            T::Semi,
            T::Id("b".to_string()),
            T::BitOrEq,
            T::Id("c".to_string()),
        ]
    );
}
