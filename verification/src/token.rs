//! The closed set of token kinds, their canonical spellings, and the
//! conversions between tokens and spellings.

use vstd::prelude::*;
use vstd::string::{StrSliceExecFns, StringExecFns};

use crate::chars::{
    is_digit_char, is_valid_id_body, is_valid_id_start, spec_digit, spec_digit_value, spec_id_body,
    spec_id_start,
};

verus! {

/// A lexical token of the language.
#[derive(Debug)]
pub enum Token {
    Let,
    Id(String),
    NumericalLiteral(i32),
    Plus,
    Minus,
    ForwardSlash,
    Star,
    BitXor,
    BitOr,
    BitAnd,
    PlusEq,
    MinusEq,
    DivEq,
    MulEq,
    BitXorEq,
    BitOrEq,
    BitAndEq,
    Eq,
    CmpEq,
    Semi,
}

/// The mathematical abstraction of a token: identifier text becomes a
/// sequence of characters.
pub enum TokenAbs {
    Let,
    Id(Seq<char>),
    NumericalLiteral(i32),
    Plus,
    Minus,
    ForwardSlash,
    Star,
    BitXor,
    BitOr,
    BitAnd,
    PlusEq,
    MinusEq,
    DivEq,
    MulEq,
    BitXorEq,
    BitOrEq,
    BitAndEq,
    Eq,
    CmpEq,
    Semi,
}

impl View for Token {
    type V = TokenAbs;

    open spec fn view(&self) -> TokenAbs {
        match self {
            Token::Let => TokenAbs::Let,
            Token::Id(s) => TokenAbs::Id(s@),
            Token::NumericalLiteral(n) => TokenAbs::NumericalLiteral(*n),
            Token::Plus => TokenAbs::Plus,
            Token::Minus => TokenAbs::Minus,
            Token::ForwardSlash => TokenAbs::ForwardSlash,
            Token::Star => TokenAbs::Star,
            Token::BitXor => TokenAbs::BitXor,
            Token::BitOr => TokenAbs::BitOr,
            Token::BitAnd => TokenAbs::BitAnd,
            Token::PlusEq => TokenAbs::PlusEq,
            Token::MinusEq => TokenAbs::MinusEq,
            Token::DivEq => TokenAbs::DivEq,
            Token::MulEq => TokenAbs::MulEq,
            Token::BitXorEq => TokenAbs::BitXorEq,
            Token::BitOrEq => TokenAbs::BitOrEq,
            Token::BitAndEq => TokenAbs::BitAndEq,
            Token::Eq => TokenAbs::Eq,
            Token::CmpEq => TokenAbs::CmpEq,
            Token::Semi => TokenAbs::Semi,
        }
    }
}

impl DeepView for Token {
    type V = TokenAbs;

    open spec fn deep_view(&self) -> TokenAbs {
        self.view()
    }
}

impl Clone for Token {
    fn clone(&self) -> (r: Token)
        ensures
            r@ == self@,
    {
        match self {
            Token::Let => Token::Let,
            Token::Id(s) => Token::Id(s.clone()),
            Token::NumericalLiteral(n) => Token::NumericalLiteral(*n),
            Token::Plus => Token::Plus,
            Token::Minus => Token::Minus,
            Token::ForwardSlash => Token::ForwardSlash,
            Token::Star => Token::Star,
            Token::BitXor => Token::BitXor,
            Token::BitOr => Token::BitOr,
            Token::BitAnd => Token::BitAnd,
            Token::PlusEq => Token::PlusEq,
            Token::MinusEq => Token::MinusEq,
            Token::DivEq => Token::DivEq,
            Token::MulEq => Token::MulEq,
            Token::BitXorEq => Token::BitXorEq,
            Token::BitOrEq => Token::BitOrEq,
            Token::BitAndEq => Token::BitAndEq,
            Token::Eq => Token::Eq,
            Token::CmpEq => Token::CmpEq,
            Token::Semi => Token::Semi,
        }
    }
}

impl PartialEq for Token {
    #[verifier::rlimit(100)]
    fn eq(&self, other: &Token) -> (r: bool) {
        match (self, other) {
            (Token::Let, Token::Let) => true,
            (Token::Id(a), Token::Id(b)) => *a == *b,
            (Token::NumericalLiteral(a), Token::NumericalLiteral(b)) => *a == *b,
            (Token::Plus, Token::Plus) => true,
            (Token::Minus, Token::Minus) => true,
            (Token::ForwardSlash, Token::ForwardSlash) => true,
            (Token::Star, Token::Star) => true,
            (Token::BitXor, Token::BitXor) => true,
            (Token::BitOr, Token::BitOr) => true,
            (Token::BitAnd, Token::BitAnd) => true,
            (Token::PlusEq, Token::PlusEq) => true,
            (Token::MinusEq, Token::MinusEq) => true,
            (Token::DivEq, Token::DivEq) => true,
            (Token::MulEq, Token::MulEq) => true,
            (Token::BitXorEq, Token::BitXorEq) => true,
            (Token::BitOrEq, Token::BitOrEq) => true,
            (Token::BitAndEq, Token::BitAndEq) => true,
            (Token::Eq, Token::Eq) => true,
            (Token::CmpEq, Token::CmpEq) => true,
            (Token::Semi, Token::Semi) => true,
            _ => false,
        }
    }
}

impl vstd::std_specs::cmp::PartialEqSpecImpl for Token {
    open spec fn obeys_eq_spec() -> bool {
        true
    }

    open spec fn eq_spec(&self, other: &Token) -> bool {
        self@ == other@
    }
}

/// The canonical spelling of a token kind, or `None` for the two kinds that
/// carry data and have no fixed spelling.
pub open spec fn spec_spelling(t: TokenAbs) -> Option<Seq<char>> {
    match t {
        TokenAbs::Let => Some(seq!['l', 'e', 't']),
        TokenAbs::Id(_) => None,
        TokenAbs::NumericalLiteral(_) => None,
        TokenAbs::Plus => Some(seq!['+']),
        TokenAbs::Minus => Some(seq!['-']),
        TokenAbs::ForwardSlash => Some(seq!['/']),
        TokenAbs::Star => Some(seq!['*']),
        TokenAbs::BitXor => Some(seq!['^']),
        TokenAbs::BitOr => Some(seq!['|']),
        TokenAbs::BitAnd => Some(seq!['&']),
        TokenAbs::PlusEq => Some(seq!['+', '=']),
        TokenAbs::MinusEq => Some(seq!['-', '=']),
        TokenAbs::DivEq => Some(seq!['/', '=']),
        TokenAbs::MulEq => Some(seq!['*', '=']),
        TokenAbs::BitXorEq => Some(seq!['^', '=']),
        TokenAbs::BitOrEq => Some(seq!['|', '=']),
        TokenAbs::BitAndEq => Some(seq!['&', '=']),
        TokenAbs::Eq => Some(seq!['=']),
        TokenAbs::CmpEq => Some(seq!['=', '=']),
        TokenAbs::Semi => Some(seq![';']),
    }
}

/// Whether `t` is one of the token kinds with a fixed spelling.
pub open spec fn spec_fixed(t: TokenAbs) -> bool {
    spec_spelling(t) is Some
}

/// The token kind whose canonical spelling is `s`, if any.  This is the
/// inverse of `spec_spelling` on the fixed-spelling kinds.
pub open spec fn spec_token_of_spelling(s: Seq<char>) -> Option<TokenAbs> {
    if s == seq!['l', 'e', 't'] {
        Some(TokenAbs::Let)
    } else if s == seq!['=', '='] {
        Some(TokenAbs::CmpEq)
    } else if s == seq!['='] {
        Some(TokenAbs::Eq)
    } else if s == seq![';'] {
        Some(TokenAbs::Semi)
    } else if s == seq!['+'] {
        Some(TokenAbs::Plus)
    } else if s == seq!['-'] {
        Some(TokenAbs::Minus)
    } else if s == seq!['/'] {
        Some(TokenAbs::ForwardSlash)
    } else if s == seq!['*'] {
        Some(TokenAbs::Star)
    } else if s == seq!['^'] {
        Some(TokenAbs::BitXor)
    } else if s == seq!['|'] {
        Some(TokenAbs::BitOr)
    } else if s == seq!['&'] {
        Some(TokenAbs::BitAnd)
    } else if s == seq!['+', '='] {
        Some(TokenAbs::PlusEq)
    } else if s == seq!['-', '='] {
        Some(TokenAbs::MinusEq)
    } else if s == seq!['/', '='] {
        Some(TokenAbs::DivEq)
    } else if s == seq!['*', '='] {
        Some(TokenAbs::MulEq)
    } else if s == seq!['^', '='] {
        Some(TokenAbs::BitXorEq)
    } else if s == seq!['|', '='] {
        Some(TokenAbs::BitOrEq)
    } else if s == seq!['&', '='] {
        Some(TokenAbs::BitAndEq)
    } else {
        None
    }
}

/// The spelling-to-kind mapping is a bijection among the fixed-spelling
/// kinds: looking up a kind's spelling finds that kind back, and any spelling
/// that resolves belongs to the kind it resolves to.
pub proof fn lemma_spelling_bijection()
    ensures
        forall|t: TokenAbs|
            spec_fixed(t) ==> #[trigger] spec_token_of_spelling(spec_spelling(t)->0) == Some(t),
        forall|s: Seq<char>|
            #[trigger] spec_token_of_spelling(s) is Some ==> spec_spelling(
                spec_token_of_spelling(s)->0,
            ) == Some(s),
{
    assert(seq!['l', 'e', 't'].len() == 3);
    assert(seq!['=', '='].len() == 2);
    assert(seq!['+', '='].len() == 2);
    assert(seq!['-', '='].len() == 2);
    assert(seq!['/', '='].len() == 2);
    assert(seq!['*', '='].len() == 2);
    assert(seq!['^', '='].len() == 2);
    assert(seq!['|', '='].len() == 2);
    assert(seq!['&', '='].len() == 2);
    assert(seq!['='].len() == 1 && seq!['='][0] == '=');
    assert(seq![';'].len() == 1 && seq![';'][0] == ';');
    assert(seq!['+'].len() == 1 && seq!['+'][0] == '+');
    assert(seq!['-'].len() == 1 && seq!['-'][0] == '-');
    assert(seq!['/'].len() == 1 && seq!['/'][0] == '/');
    assert(seq!['*'].len() == 1 && seq!['*'][0] == '*');
    assert(seq!['^'].len() == 1 && seq!['^'][0] == '^');
    assert(seq!['|'].len() == 1 && seq!['|'][0] == '|');
    assert(seq!['&'].len() == 1 && seq!['&'][0] == '&');
    assert(seq!['=', '='][0] == '=');
    assert(seq!['+', '='][0] == '+');
    assert(seq!['-', '='][0] == '-');
    assert(seq!['/', '='][0] == '/');
    assert(seq!['*', '='][0] == '*');
    assert(seq!['^', '='][0] == '^');
    assert(seq!['|', '='][0] == '|');
    assert(seq!['&', '='][0] == '&');
    assert(spec_token_of_spelling(seq!['l', 'e', 't']) == Some(TokenAbs::Let));
    assert(spec_token_of_spelling(seq!['+']) == Some(TokenAbs::Plus));
    assert(spec_token_of_spelling(seq!['-']) == Some(TokenAbs::Minus));
    assert(spec_token_of_spelling(seq!['/']) == Some(TokenAbs::ForwardSlash));
    assert(spec_token_of_spelling(seq!['*']) == Some(TokenAbs::Star));
    assert(spec_token_of_spelling(seq!['^']) == Some(TokenAbs::BitXor));
    assert(spec_token_of_spelling(seq!['|']) == Some(TokenAbs::BitOr));
    assert(spec_token_of_spelling(seq!['&']) == Some(TokenAbs::BitAnd));
    assert(spec_token_of_spelling(seq!['+', '=']) == Some(TokenAbs::PlusEq));
    assert(spec_token_of_spelling(seq!['-', '=']) == Some(TokenAbs::MinusEq));
    assert(spec_token_of_spelling(seq!['/', '=']) == Some(TokenAbs::DivEq));
    assert(spec_token_of_spelling(seq!['*', '=']) == Some(TokenAbs::MulEq));
    assert(spec_token_of_spelling(seq!['^', '=']) == Some(TokenAbs::BitXorEq));
    assert(spec_token_of_spelling(seq!['|', '=']) == Some(TokenAbs::BitOrEq));
    assert(spec_token_of_spelling(seq!['&', '=']) == Some(TokenAbs::BitAndEq));
    assert(spec_token_of_spelling(seq!['=']) == Some(TokenAbs::Eq));
    assert(spec_token_of_spelling(seq!['=', '=']) == Some(TokenAbs::CmpEq));
    assert(spec_token_of_spelling(seq![';']) == Some(TokenAbs::Semi));
}

/// The spelling table, spelled out: what each canonical spelling resolves
/// to.
pub proof fn lemma_spelling_table()
    ensures
        spec_token_of_spelling(seq!['l', 'e', 't']) == Some(TokenAbs::Let),
        spec_token_of_spelling(seq!['+']) == Some(TokenAbs::Plus),
        spec_token_of_spelling(seq!['-']) == Some(TokenAbs::Minus),
        spec_token_of_spelling(seq!['/']) == Some(TokenAbs::ForwardSlash),
        spec_token_of_spelling(seq!['*']) == Some(TokenAbs::Star),
        spec_token_of_spelling(seq!['^']) == Some(TokenAbs::BitXor),
        spec_token_of_spelling(seq!['|']) == Some(TokenAbs::BitOr),
        spec_token_of_spelling(seq!['&']) == Some(TokenAbs::BitAnd),
        spec_token_of_spelling(seq!['+', '=']) == Some(TokenAbs::PlusEq),
        spec_token_of_spelling(seq!['-', '=']) == Some(TokenAbs::MinusEq),
        spec_token_of_spelling(seq!['/', '=']) == Some(TokenAbs::DivEq),
        spec_token_of_spelling(seq!['*', '=']) == Some(TokenAbs::MulEq),
        spec_token_of_spelling(seq!['^', '=']) == Some(TokenAbs::BitXorEq),
        spec_token_of_spelling(seq!['|', '=']) == Some(TokenAbs::BitOrEq),
        spec_token_of_spelling(seq!['&', '=']) == Some(TokenAbs::BitAndEq),
        spec_token_of_spelling(seq!['=']) == Some(TokenAbs::Eq),
        spec_token_of_spelling(seq!['=', '=']) == Some(TokenAbs::CmpEq),
        spec_token_of_spelling(seq![';']) == Some(TokenAbs::Semi),
{
    lemma_spelling_literals();
}

/// Lengths and characters of the spelling literals, spelled out for the
/// solver.
pub proof fn lemma_spelling_literals()
    ensures
        seq!['l', 'e', 't'].len() == 3,
        seq!['l', 'e', 't'][0] == 'l' && seq!['l', 'e', 't'][1] == 'e' && seq!['l', 'e', 't'][2]
            == 't',
        seq!['=', '='].len() == 2 && seq!['=', '='][0] == '=' && seq!['=', '='][1] == '=',
        seq!['+', '='].len() == 2 && seq!['+', '='][0] == '+' && seq!['+', '='][1] == '=',
        seq!['-', '='].len() == 2 && seq!['-', '='][0] == '-' && seq!['-', '='][1] == '=',
        seq!['/', '='].len() == 2 && seq!['/', '='][0] == '/' && seq!['/', '='][1] == '=',
        seq!['*', '='].len() == 2 && seq!['*', '='][0] == '*' && seq!['*', '='][1] == '=',
        seq!['^', '='].len() == 2 && seq!['^', '='][0] == '^' && seq!['^', '='][1] == '=',
        seq!['|', '='].len() == 2 && seq!['|', '='][0] == '|' && seq!['|', '='][1] == '=',
        seq!['&', '='].len() == 2 && seq!['&', '='][0] == '&' && seq!['&', '='][1] == '=',
        seq!['='].len() == 1 && seq!['='][0] == '=',
        seq![';'].len() == 1 && seq![';'][0] == ';',
        seq!['+'].len() == 1 && seq!['+'][0] == '+',
        seq!['-'].len() == 1 && seq!['-'][0] == '-',
        seq!['/'].len() == 1 && seq!['/'][0] == '/',
        seq!['*'].len() == 1 && seq!['*'][0] == '*',
        seq!['^'].len() == 1 && seq!['^'][0] == '^',
        seq!['|'].len() == 1 && seq!['|'][0] == '|',
        seq!['&'].len() == 1 && seq!['&'][0] == '&',
{
}

/// One step of numeric-literal accumulation: the value so far times ten plus
/// the next digit, with 32-bit wrap-around.
pub open spec fn spec_accum_step(acc: i32, d: i32) -> i32 {
    vstd::wrapping::i32_specs::wrapping_add(vstd::wrapping::i32_specs::wrapping_mul(acc, 10), d)
}

/// The value accumulated by reading the digits of `s` left to right, starting
/// from `acc`.
pub open spec fn spec_accum_digits(acc: i32, s: Seq<char>) -> i32
    decreases s.len(),
{
    if s.len() == 0 {
        acc
    } else {
        spec_accum_digits(spec_accum_step(acc, spec_digit_value(s[0])), s.skip(1))
    }
}

/// 32-bit wrap-around negation.
pub open spec fn spec_wrap_neg(v: i32) -> i32 {
    vstd::wrapping::i32_specs::wrapping_sub(0, v)
}

/// Whether every character of `s` is a decimal digit.
pub open spec fn spec_all_digits(s: Seq<char>) -> bool {
    forall|i: int| 0 <= i < s.len() ==> spec_digit(#[trigger] s[i])
}

/// The value of `s` read as a numeric literal matching `-?[0-9]+`, or `None`
/// if `s` is not of that shape.  Values outside the 32-bit signed range wrap
/// around.
pub open spec fn spec_numeric_literal(s: Seq<char>) -> Option<i32> {
    if s.len() > 0 && spec_all_digits(s) {
        Some(spec_accum_digits(0, s))
    } else if s.len() >= 2 && s[0] == '-' && spec_all_digits(s.skip(1)) {
        Some(spec_wrap_neg(spec_accum_digits(0, s.skip(1))))
    } else {
        None
    }
}

/// Whether `s` is a valid identifier: a letter or underscore followed by
/// letters, digits and underscores.
pub open spec fn spec_valid_id(s: Seq<char>) -> bool {
    &&& s.len() > 0
    &&& spec_id_start(s[0])
    &&& forall|i: int| 1 <= i < s.len() ==> spec_id_body(#[trigger] s[i])
}

/// What a spelling resolves to: a fixed-spelling token kind, failing that a
/// numeric literal, failing that an identifier; anything else resolves to
/// nothing.
pub open spec fn spec_resolve(s: Seq<char>) -> Option<TokenAbs> {
    if spec_token_of_spelling(s) is Some {
        spec_token_of_spelling(s)
    } else if spec_numeric_literal(s) is Some {
        Some(TokenAbs::NumericalLiteral(spec_numeric_literal(s)->0))
    } else if spec_valid_id(s) {
        Some(TokenAbs::Id(s))
    } else {
        None
    }
}

/// Accumulating one more digit at the right end of a run folds into one more
/// accumulation step.
pub proof fn lemma_accum_snoc(acc: i32, s: Seq<char>, c: char)
    ensures
        spec_accum_digits(acc, s.push(c)) == spec_accum_step(
            spec_accum_digits(acc, s),
            spec_digit_value(c),
        ),
    decreases s.len(),
{
    reveal_with_fuel(spec_accum_digits, 3);
    if s.len() == 0 {
        assert(s.push(c)[0] == c);
        assert(s.push(c).skip(1) =~= Seq::<char>::empty());
    } else {
        assert(s.push(c)[0] == s[0]);
        assert(s.push(c).skip(1) =~= s.skip(1).push(c));
        lemma_accum_snoc(spec_accum_step(acc, spec_digit_value(s[0])), s.skip(1), c);
    }
}

/// Whether the character sequences of `a` and `b` are equal.
pub fn str_eq(a: &str, b: &str) -> (r: bool)
    ensures
        r == (a@ == b@),
{
    let na: usize = a.unicode_len();
    let nb: usize = b.unicode_len();
    if na != nb {
        return false;
    }
    let mut i: usize = 0;
    while i < na
        invariant
            na == a@.len(),
            na == b@.len(),
            i <= na,
            forall|j: int| 0 <= j < i ==> a@[j] == b@[j],
        decreases na - i,
    {
        if a.get_char(i) != b.get_char(i) {
            return false;
        }
        i += 1;
    }
    proof {
        assert(a@ =~= b@);
    }
    true
}

/// The fixed-spelling token kind spelled `s`, if any.
pub fn fixed_token_of_str(s: &str) -> (r: Option<Token>)
    ensures
        (r is Some) == (spec_token_of_spelling(s@) is Some),
        r is Some ==> r->0@ == spec_token_of_spelling(s@)->0,
{
    proof {
        reveal_strlit("let");
        reveal_strlit("==");
        reveal_strlit("=");
        reveal_strlit(";");
        reveal_strlit("+");
        reveal_strlit("-");
        reveal_strlit("/");
        reveal_strlit("*");
        reveal_strlit("^");
        reveal_strlit("|");
        reveal_strlit("&");
        reveal_strlit("+=");
        reveal_strlit("-=");
        reveal_strlit("/=");
        reveal_strlit("*=");
        reveal_strlit("^=");
        reveal_strlit("|=");
        reveal_strlit("&=");
        assert(("let")@ =~= seq!['l', 'e', 't']);
        assert(("==")@ =~= seq!['=', '=']);
        assert(("=")@ =~= seq!['=']);
        assert((";")@ =~= seq![';']);
        assert(("+")@ =~= seq!['+']);
        assert(("-")@ =~= seq!['-']);
        assert(("/")@ =~= seq!['/']);
        assert(("*")@ =~= seq!['*']);
        assert(("^")@ =~= seq!['^']);
        assert(("|")@ =~= seq!['|']);
        assert(("&")@ =~= seq!['&']);
        assert(("+=")@ =~= seq!['+', '=']);
        assert(("-=")@ =~= seq!['-', '=']);
        assert(("/=")@ =~= seq!['/', '=']);
        assert(("*=")@ =~= seq!['*', '=']);
        assert(("^=")@ =~= seq!['^', '=']);
        assert(("|=")@ =~= seq!['|', '=']);
        assert(("&=")@ =~= seq!['&', '=']);
    }
    if str_eq(s, "let") {
        Some(Token::Let)
    } else if str_eq(s, "==") {
        Some(Token::CmpEq)
    } else if str_eq(s, "=") {
        Some(Token::Eq)
    } else if str_eq(s, ";") {
        Some(Token::Semi)
    } else if str_eq(s, "+") {
        Some(Token::Plus)
    } else if str_eq(s, "-") {
        Some(Token::Minus)
    } else if str_eq(s, "/") {
        Some(Token::ForwardSlash)
    } else if str_eq(s, "*") {
        Some(Token::Star)
    } else if str_eq(s, "^") {
        Some(Token::BitXor)
    } else if str_eq(s, "|") {
        Some(Token::BitOr)
    } else if str_eq(s, "&") {
        Some(Token::BitAnd)
    } else if str_eq(s, "+=") {
        Some(Token::PlusEq)
    } else if str_eq(s, "-=") {
        Some(Token::MinusEq)
    } else if str_eq(s, "/=") {
        Some(Token::DivEq)
    } else if str_eq(s, "*=") {
        Some(Token::MulEq)
    } else if str_eq(s, "^=") {
        Some(Token::BitXorEq)
    } else if str_eq(s, "|=") {
        Some(Token::BitOrEq)
    } else if str_eq(s, "&=") {
        Some(Token::BitAndEq)
    } else {
        None
    }
}

/// The canonical spelling of `t`, or the empty string for the identifier and
/// numeric-literal kinds, which have none.
pub fn token_to_str(t: &Token) -> (r: String)
    ensures
        spec_fixed(t@) ==> r@ == spec_spelling(t@)->0,
        !spec_fixed(t@) ==> r@ == Seq::<char>::empty(),
{
    proof {
        reveal_strlit("let");
        reveal_strlit("==");
        reveal_strlit("=");
        reveal_strlit(";");
        reveal_strlit("+");
        reveal_strlit("-");
        reveal_strlit("/");
        reveal_strlit("*");
        reveal_strlit("^");
        reveal_strlit("|");
        reveal_strlit("&");
        reveal_strlit("+=");
        reveal_strlit("-=");
        reveal_strlit("/=");
        reveal_strlit("*=");
        reveal_strlit("^=");
        reveal_strlit("|=");
        reveal_strlit("&=");
        reveal_strlit("");
        assert(("let")@ =~= seq!['l', 'e', 't']);
        assert(("==")@ =~= seq!['=', '=']);
        assert(("=")@ =~= seq!['=']);
        assert((";")@ =~= seq![';']);
        assert(("+")@ =~= seq!['+']);
        assert(("-")@ =~= seq!['-']);
        assert(("/")@ =~= seq!['/']);
        assert(("*")@ =~= seq!['*']);
        assert(("^")@ =~= seq!['^']);
        assert(("|")@ =~= seq!['|']);
        assert(("&")@ =~= seq!['&']);
        assert(("+=")@ =~= seq!['+', '=']);
        assert(("-=")@ =~= seq!['-', '=']);
        assert(("/=")@ =~= seq!['/', '=']);
        assert(("*=")@ =~= seq!['*', '=']);
        assert(("^=")@ =~= seq!['^', '=']);
        assert(("|=")@ =~= seq!['|', '=']);
        assert(("&=")@ =~= seq!['&', '=']);
        assert(("")@ =~= Seq::<char>::empty());
    }
    match t {
        Token::Let => String::from_str("let"),
        Token::Id(_) => String::from_str(""),
        Token::NumericalLiteral(_) => String::from_str(""),
        Token::Plus => String::from_str("+"),
        Token::Minus => String::from_str("-"),
        Token::ForwardSlash => String::from_str("/"),
        Token::Star => String::from_str("*"),
        Token::BitXor => String::from_str("^"),
        Token::BitOr => String::from_str("|"),
        Token::BitAnd => String::from_str("&"),
        Token::PlusEq => String::from_str("+="),
        Token::MinusEq => String::from_str("-="),
        Token::DivEq => String::from_str("/="),
        Token::MulEq => String::from_str("*="),
        Token::BitXorEq => String::from_str("^="),
        Token::BitOrEq => String::from_str("|="),
        Token::BitAndEq => String::from_str("&="),
        Token::Eq => String::from_str("="),
        Token::CmpEq => String::from_str("=="),
        Token::Semi => String::from_str(";"),
    }
}

/// Whether `s` is a valid identifier: a letter or underscore followed by
/// letters, digits and underscores.
pub fn is_valid_identifier(s: &str) -> (r: bool)
    ensures
        r == spec_valid_id(s@),
{
    let n: usize = s.unicode_len();
    if n == 0 {
        return false;
    }
    if !is_valid_id_start(s.get_char(0)) {
        return false;
    }
    let mut i: usize = 1;
    while i < n
        invariant
            n == s@.len(),
            1 <= i <= n,
            spec_id_start(s@[0]),
            forall|j: int| 1 <= j < i ==> spec_id_body(#[trigger] s@[j]),
        decreases n - i,
    {
        if !is_valid_id_body(s.get_char(i)) {
            return false;
        }
        i += 1;
    }
    true
}

/// The token `s` resolves to: its fixed-spelling kind, failing that a
/// numeric literal, failing that an identifier; `None` otherwise.
pub fn token_from_str(s: &str) -> (r: Option<Token>)
    ensures
        (r is Some) == (spec_resolve(s@) is Some),
        r is Some ==> r->0@ == spec_resolve(s@)->0,
{
    let fixed = fixed_token_of_str(s);
    if fixed.is_some() {
        return fixed;
    }
    let numeric = numeric_token_of_str(s);
    if numeric.is_some() {
        return numeric;
    }
    if is_valid_identifier(s) {
        return Some(Token::Id(s.to_owned()));
    }
    None
}

/// The numeric literal `s` spells, if `s` matches `-?[0-9]+`.
fn numeric_token_of_str(s: &str) -> (r: Option<Token>)
    ensures
        (r is Some) == (spec_numeric_literal(s@) is Some),
        r is Some ==> r->0@ == TokenAbs::NumericalLiteral(spec_numeric_literal(s@)->0),
{
    let n: usize = s.unicode_len();
    if n == 0 {
        return None;
    }
    let neg: bool = s.get_char(0) == '-';
    let start: usize = if neg {
        1
    } else {
        0
    };
    if n == start {
        // a lone minus sign has no digits
        return None;
    }
    let mut i: usize = start;
    while i < n
        invariant
            n == s@.len(),
            start <= i <= n,
            start < n,
            neg == (s@[0] == '-'),
            start == (if neg {
                1int
            } else {
                0int
            }),
            forall|j: int| start <= j < i ==> spec_digit(#[trigger] s@[j]),
        decreases n - i,
    {
        if !is_digit_char(s.get_char(i)) {
            proof {
                if neg {
                    assert(!spec_digit(s@.skip(1)[i - 1]));
                } else {
                    assert(!spec_digit(s@[i as int]));
                    if s@[0] == '-' {
                        assert(false);
                    }
                }
            }
            return None;
        }
        i += 1;
    }
    let mut acc: i32 = 0;
    let mut k: usize = start;
    proof {
        assert(s@.subrange(start as int, start as int) =~= Seq::<char>::empty());
    }
    while k < n
        invariant
            n == s@.len(),
            start <= k <= n,
            start < n,
            forall|j: int| start <= j < n ==> spec_digit(#[trigger] s@[j]),
            acc == spec_accum_digits(0, s@.subrange(start as int, k as int)),
        decreases n - k,
    {
        let c = s.get_char(k);
        let d = crate::chars::digit_value(c);
        proof {
            lemma_accum_snoc(0, s@.subrange(start as int, k as int), c);
            assert(s@.subrange(start as int, k + 1) =~= s@.subrange(start as int, k as int).push(
                s@[k as int],
            ));
        }
        acc = acc.wrapping_mul(10).wrapping_add(d);
        k += 1;
    }
    proof {
        assert(s@.subrange(start as int, n as int) =~= (if neg {
            s@.skip(1)
        } else {
            s@
        }));
        if !neg {
            assert(spec_all_digits(s@));
            assert(s@[0] != '-');
        } else {
            assert(spec_all_digits(s@.skip(1)));
        }
    }
    if neg {
        Some(Token::NumericalLiteral(0i32.wrapping_sub(acc)))
    } else {
        Some(Token::NumericalLiteral(acc))
    }
}

} // verus!
