use venlyn::char_iter::CharIter;
use venlyn::lex_tree::{str_to_token_or_charlist, token_or_charlist_to_str, LexNode, LexPayload};
use venlyn::lexer::construct_lex_tree;
use venlyn::token::{is_valid_identifier, token_from_str, Token as T};
use venlyn::tokenizer::{tokenize, LexEnd};

#[test]
fn char_iter_reads_in_order() {
    let mut ci = CharIter::new("ab");
    assert_eq!(ci.peek(), Some('a'));
    assert_eq!(ci.next(), Some('a'));
    assert_eq!(ci.next(), Some('b'));
    assert_eq!(ci.peek(), None);
    assert_eq!(ci.next(), None);
}

#[test]
fn char_iter_push_front_comes_first() {
    let mut ci = CharIter::new("bc");
    ci.push_front('a');
    assert_eq!(ci.peek(), Some('a'));
    assert_eq!(ci.next(), Some('a'));
    assert_eq!(ci.next(), Some('b'));
    assert_eq!(ci.next(), Some('c'));
    assert_eq!(ci.next(), None);
}

#[test]
fn char_iter_pushback_restores_what_was_read() {
    let mut ci = CharIter::new("xyz");
    let a = ci.next().unwrap();
    let b = ci.next().unwrap();
    let mut read = String::new();
    read.push(a);
    read.push(b);
    // pushing back what was read is a no-op: the stream reads as if never
    // consumed
    ci.push_str_front(&read);
    assert_eq!(ci.next(), Some('x'));
    assert_eq!(ci.next(), Some('y'));
    assert_eq!(ci.next(), Some('z'));
    assert_eq!(ci.next(), None);
}

#[test]
fn char_iter_push_str_front_keeps_order() {
    let mut ci = CharIter::new("c");
    ci.push_str_front("ab");
    assert_eq!(ci.next(), Some('a'));
    assert_eq!(ci.next(), Some('b'));
    assert_eq!(ci.next(), Some('c'));
    assert_eq!(ci.next(), None);
}

#[test]
fn spellings_resolve_to_tokens() {
    assert_eq!(token_from_str("let"), Some(T::Let));
    assert_eq!(token_from_str("+="), Some(T::PlusEq));
    assert_eq!(token_from_str("/="), Some(T::DivEq));
    assert_eq!(token_from_str("123"), Some(T::NumericalLiteral(123)));
    assert_eq!(token_from_str("-42"), Some(T::NumericalLiteral(-42)));
    assert_eq!(token_from_str("count_1"), Some(T::Id("count_1".to_string())));
    assert_eq!(token_from_str("9lives"), None);
    assert_eq!(token_from_str("-"), Some(T::Minus));
    assert_eq!(token_from_str(""), None);
}

#[test]
fn valid_identifiers() {
    assert!(is_valid_identifier("abc"));
    assert!(is_valid_identifier("_a1"));
    assert!(is_valid_identifier("a_1_b"));
    assert!(!is_valid_identifier("1ab"));
    assert!(!is_valid_identifier(""));
    assert!(!is_valid_identifier("a-b"));
}

#[test]
fn payloads_resolve_and_render_back() {
    match str_to_token_or_charlist("let") {
        LexPayload::Resolved(t) => assert_eq!(t, T::Let),
        LexPayload::Unresolved(_) => panic!("a keyword spelling must resolve"),
    }
    match str_to_token_or_charlist("9x") {
        LexPayload::Resolved(_) => panic!("an invalid spelling must stay unresolved"),
        LexPayload::Unresolved(s) => assert_eq!(s, "9x".to_string()),
    }
    let rendered = token_or_charlist_to_str(&LexPayload::Resolved(T::PlusEq));
    assert_eq!(rendered, "+=".to_string());
    let kept = token_or_charlist_to_str(&LexPayload::Unresolved("zz".to_string()));
    assert_eq!(kept, "zz".to_string());
}

#[test]
fn a_custom_trie_drives_tokenize() {
    // a trie holding only `let`, `;`, and `=` extendable to `==`
    let eq_suffix = vec!["=".to_string()];
    let equal_base = LexNode::trunk("=").with_children_leaf(&eq_suffix);
    let base_tokens = vec!["let".to_string(), ";".to_string()];
    let tree = LexNode::root()
        .with_children_leaf(&base_tokens)
        .with_branch(equal_base);
    let out = tokenize("let a == b;", &tree);
    assert_eq!(
        out.tokens,
        vec![
            T::Let,
            T::Id("a".to_string()),
            T::CmpEq,
            T::Id("b".to_string()),
            T::Semi,
        ]
    );
    assert_eq!(out.terminal, LexEnd::EndOfInput);
    // `+` is not in this grammar, so it stops as unrecognized
    let stopped = tokenize("a + b", &tree);
    assert_eq!(stopped.tokens, vec![T::Id("a".to_string())]);
    assert_eq!(stopped.terminal, LexEnd::UnrecognizedCharacter);
}

#[test]
fn with_branch_replaces_an_existing_key() {
    let base_tokens = vec![";".to_string()];
    let bare_equal = LexNode::trunk("=");
    let eq_suffix = vec!["=".to_string()];
    let extended_equal = LexNode::trunk("=").with_children_leaf(&eq_suffix);
    // the second branch under the same key replaces the first
    let tree = LexNode::root()
        .with_children_leaf(&base_tokens)
        .with_branch(bare_equal)
        .with_branch(extended_equal);
    assert_eq!(tokenize("==", &tree).tokens, vec![T::CmpEq]);
    assert_eq!(tokenize("= =", &tree).tokens, vec![T::Eq, T::Eq]);
}

#[test]
fn the_standard_tree_and_lex_agree() {
    let tree = construct_lex_tree();
    let direct = tokenize("x ^= 2", &tree);
    let through = venlyn::lexer::lex("x ^= 2");
    assert_eq!(direct.tokens, through.tokens);
    assert_eq!(
        direct.tokens,
        vec![T::Id("x".to_string()), T::BitXorEq, T::NumericalLiteral(2)]
    );
}
