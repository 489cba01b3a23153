//! Laws of the tokenizer, stated over the specification model and proved
//! once and for all: what a fixed spelling tokenizes to and that the round
//! trip through rendering is idempotent, that the walk backtracks without
//! losing characters, that leading whitespace is insignificant, what the
//! empty input and an unrecognized character each yield, and that any two
//! standard tries tokenize every input alike.

use vstd::prelude::*;

use crate::chars::spec_whitespace;
use crate::lex_tree::{
    lemma_find_key_at, lemma_find_key_none, lemma_find_key_some, spec_find_key,
    spec_max_suffix_len, spec_payload_token, LexChild, LexNode,
};
use crate::lexer::{lemma_standard_wf, spec_standard_trie};
use crate::token::{lemma_spelling_literals, spec_fixed, spec_spelling, TokenAbs};
use crate::tokenizer::{
    lemma_lex_token_progress, lemma_skip_ws_idempotent, lemma_tokenize_fuel, lemma_walk_root,
    spec_lex_token, spec_scan, spec_skip_ws, spec_terminal, spec_tokenize, spec_tokenize_rec,
    spec_try_ident, spec_try_number, spec_walk, LexEnd,
};

verus! {

/// An attempt on the empty stream yields nothing and leaves the stream
/// empty.
proof fn lemma_lex_empty(tree: LexNode)
    requires
        tree.token is Unresolved,
    ensures
        spec_lex_token(Seq::<char>::empty(), tree) == (None::<TokenAbs>, Seq::<char>::empty()),
{
    let e = Seq::<char>::empty();
    assert(spec_skip_ws(e) == e);
    assert(spec_try_number(e) is None);
    match tree.children {
        None => {},
        Some(cs) => {
            assert(e + e =~= e);
        },
    }
    assert(spec_walk(tree, e, None) == (None::<TokenAbs>, e));
    assert(spec_try_ident(e) is None);
}

/// The empty input yields an empty token sequence with a clean end of
/// input: not an error.
pub proof fn lemma_empty_input(tree: LexNode)
    requires
        spec_standard_trie(tree),
    ensures
        spec_tokenize(Seq::<char>::empty(), tree) == (Seq::<TokenAbs>::empty(), LexEnd::EndOfInput),
{
    let e = Seq::<char>::empty();
    lemma_lex_empty(tree);
    assert(spec_skip_ws(e) == e);
    assert(spec_terminal(e) == LexEnd::EndOfInput);
}

/// Leading whitespace is insignificant: a text tokenizes exactly as that
/// text with its leading whitespace removed, tokens and terminal condition
/// alike.
pub proof fn lemma_leading_whitespace(s: Seq<char>, tree: LexNode)
    requires
        spec_standard_trie(tree),
    ensures
        spec_tokenize(s, tree) == spec_tokenize(spec_skip_ws(s), tree),
    decreases s.len(),
{
    lemma_standard_wf(tree);
    lemma_skip_ws_idempotent(s);
    crate::tokenizer::lemma_skip_ws_len(s);
    let s1 = spec_skip_ws(s);
    assert(spec_lex_token(s, tree) == spec_lex_token(s1, tree));
    let t_s2 = spec_lex_token(s, tree);
    if t_s2.0 is Some {
        lemma_lex_token_progress(s1, tree);
        lemma_tokenize_fuel(t_s2.1, tree, s.len() as nat, (t_s2.1.len() + 1) as nat);
        lemma_tokenize_fuel(t_s2.1, tree, s1.len() as nat, (t_s2.1.len() + 1) as nat);
    } else {
        assert(spec_terminal(s) == spec_terminal(s1));
    }
}

/// Removing leading whitespace commutes with prepending it.
proof fn lemma_skip_ws_prefix(p: Seq<char>, s: Seq<char>)
    requires
        forall|i: int| 0 <= i < p.len() ==> spec_whitespace(#[trigger] p[i]),
    ensures
        spec_skip_ws(p + s) == spec_skip_ws(s),
    decreases p.len(),
{
    if p.len() == 0 {
        assert(p + s =~= s);
    } else {
        assert((p + s)[0] == p[0]);
        assert((p + s).skip(1) =~= p.skip(1) + s);
        lemma_skip_ws_prefix(p.skip(1), s);
    }
}

/// Whitespace in front of the input is insignificant: any run of
/// whitespace characters may be prepended without changing the tokens or
/// the terminal condition.
pub proof fn lemma_whitespace_prefix(p: Seq<char>, s: Seq<char>, tree: LexNode)
    requires
        spec_standard_trie(tree),
        forall|i: int| 0 <= i < p.len() ==> spec_whitespace(#[trigger] p[i]),
    ensures
        spec_tokenize(p + s, tree) == spec_tokenize(s, tree),
{
    lemma_skip_ws_prefix(p, s);
    lemma_leading_whitespace(p + s, tree);
    lemma_leading_whitespace(s, tree);
}

/// Backtrack correctness of the walk on the standard trie: a walk that
/// finds no token restores the stream exactly as it was, and a walk that
/// finds one consumed exactly that token's canonical spelling.
pub proof fn lemma_backtrack_restores(tree: LexNode, s: Seq<char>)
    requires
        spec_standard_trie(tree),
    ensures
        ({
            let r = spec_walk(tree, s, None);
            &&& (r.0 is None ==> r.1 == s)
            &&& (r.0 is Some ==> exists|k: int|
                1 <= k <= s.len() && r.1 == s.skip(k) && spec_spelling(r.0->0) == Some(s.take(k)))
        }),
{
    lemma_standard_wf(tree);
    lemma_walk_root(tree, s);
}

/// An input on which no token can be produced yields an empty sequence
/// paired with the unrecognized-character condition whenever anything
/// beyond whitespace remains: distinguishable from the empty-input case.
pub proof fn lemma_unrecognized_input(tree: LexNode, s: Seq<char>)
    requires
        spec_standard_trie(tree),
        spec_lex_token(s, tree).0 is None,
        spec_skip_ws(s).len() > 0,
    ensures
        spec_tokenize(s, tree) == (Seq::<TokenAbs>::empty(), LexEnd::UnrecognizedCharacter),
{
    assert(spec_terminal(s) == LexEnd::UnrecognizedCharacter);
}

/// Structural similarity of two trie nodes: the same resolved tokens, the
/// same child keys in the same order, and similar child nodes.  The walk
/// reads nothing else of a node.
spec fn spec_node_sim(n1: LexNode, n2: LexNode) -> bool
    decreases n1,
{
    &&& spec_payload_token(n1.token) == spec_payload_token(n2.token)
    &&& match (n1.children, n2.children) {
        (None, None) => true,
        (Some(a), Some(b)) => {
            &&& a@.len() == b@.len()
            &&& forall|i: int| 0 <= i < a@.len() ==> (#[trigger] a@[i]).suffix@ == b@[i].suffix@
            &&& forall|i: int|
                0 <= i < a@.len() ==> spec_node_sim((#[trigger] a@[i]).node, b@[i].node)
        },
        _ => false,
    }
}

/// Child lists with the same keys find the same index.
proof fn lemma_find_key_sim(a: Seq<LexChild>, b: Seq<LexChild>, k: Seq<char>)
    requires
        a.len() == b.len(),
        forall|i: int| 0 <= i < a.len() ==> (#[trigger] a[i]).suffix@ == b[i].suffix@,
    ensures
        spec_find_key(a, k) == spec_find_key(b, k),
    decreases a.len(),
{
    if a.len() > 0 {
        assert(forall|i: int|
            0 <= i < a.skip(1).len() ==> (#[trigger] a.skip(1)[i]).suffix@ == b.skip(1)[i].suffix@);
        lemma_find_key_sim(a.skip(1), b.skip(1), k);
    }
}

/// Child lists with the same keys share their longest key length.
proof fn lemma_max_suffix_sim(a: Seq<LexChild>, b: Seq<LexChild>)
    requires
        a.len() == b.len(),
        forall|i: int| 0 <= i < a.len() ==> (#[trigger] a[i]).suffix@ == b[i].suffix@,
    ensures
        spec_max_suffix_len(a) == spec_max_suffix_len(b),
    decreases a.len(),
{
    if a.len() > 0 {
        assert(forall|i: int|
            0 <= i < a.skip(1).len() ==> (#[trigger] a.skip(1)[i]).suffix@ == b.skip(1)[i].suffix@);
        lemma_max_suffix_sim(a.skip(1), b.skip(1));
    }
}

/// The walk reads only what similarity preserves: similar nodes walk alike.
proof fn lemma_walk_sim(n1: LexNode, n2: LexNode, s: Seq<char>, best: Option<TokenAbs>)
    requires
        spec_node_sim(n1, n2),
    ensures
        spec_walk(n1, s, best) == spec_walk(n2, s, best),
    decreases s.len(), 1int,
{
    match (n1.children, n2.children) {
        (Some(a), Some(b)) => {
            lemma_max_suffix_sim(a@, b@);
            let best2 = match spec_payload_token(n1.token) {
                Some(t) => Some(t),
                None => best,
            };
            lemma_scan_sim(
                a@,
                b@,
                spec_max_suffix_len(a@),
                s,
                Seq::<char>::empty(),
                best2,
            );
        },
        _ => {},
    }
}

/// The scan reads only what similarity preserves: similar child lists scan
/// alike.
proof fn lemma_scan_sim(
    a: Seq<LexChild>,
    b: Seq<LexChild>,
    maxlen: nat,
    s: Seq<char>,
    buf: Seq<char>,
    best: Option<TokenAbs>,
)
    requires
        a.len() == b.len(),
        forall|i: int| 0 <= i < a.len() ==> (#[trigger] a[i]).suffix@ == b[i].suffix@,
        forall|i: int| 0 <= i < a.len() ==> spec_node_sim((#[trigger] a[i]).node, b[i].node),
    ensures
        spec_scan(a, maxlen, s, buf, best) == spec_scan(b, maxlen, s, buf, best),
    decreases s.len(), 0int,
{
    if s.len() == 0 || spec_whitespace(s[0]) {
    } else {
        let buf2 = buf.push(s[0]);
        let s2 = s.skip(1);
        lemma_find_key_sim(a, b, buf2);
        match spec_find_key(a, buf2) {
            Some(i) => {
                lemma_find_key_some(a, buf2);
                lemma_walk_sim(a[i].node, b[i].node, s2, best);
            },
            None => {
                if buf2.len() >= maxlen {
                } else {
                    lemma_scan_sim(a, b, maxlen, s2, buf2, best);
                }
            },
        }
    }
}

/// Similar trees drive the whole tokenization alike.
proof fn lemma_tokenize_rec_sim(s: Seq<char>, t1: LexNode, t2: LexNode, fuel: nat)
    requires
        spec_node_sim(t1, t2),
    ensures
        spec_lex_token(s, t1) == spec_lex_token(s, t2),
        spec_tokenize_rec(s, t1, fuel) == spec_tokenize_rec(s, t2, fuel),
    decreases fuel,
{
    lemma_walk_sim(t1, t2, spec_skip_ws(s), None);
    if fuel > 0 {
        let t_s2 = spec_lex_token(s, t1);
        lemma_tokenize_rec_sim(t_s2.1, t1, t2, (fuel - 1) as nat);
    }
}

/// Any two standard tries are similar.
proof fn lemma_standard_sim(t1: LexNode, t2: LexNode)
    requires
        spec_standard_trie(t1),
        spec_standard_trie(t2),
    ensures
        spec_node_sim(t1, t2),
{
    let a = t1.children->0@;
    let b = t2.children->0@;
    assert forall|i: int| 0 <= i < a.len() implies spec_node_sim(
        (#[trigger] a[i]).node,
        b[i].node,
    ) by {
        if i >= 2 {
            let ia = a[i].node.children->0@;
            let ib = b[i].node.children->0@;
            assert(spec_node_sim(ia[0].node, ib[0].node));
        }
    }
}

/// Tokenization is determined by the input alone: any two standard tries
/// yield the same tokens and the same terminal condition on every text.
pub proof fn lemma_lex_determined(s: Seq<char>, t1: LexNode, t2: LexNode)
    requires
        spec_standard_trie(t1),
        spec_standard_trie(t2),
    ensures
        spec_tokenize(s, t1) == spec_tokenize(s, t2),
{
    lemma_standard_sim(t1, t2);
    lemma_tokenize_rec_sim(s, t1, t2, (s.len() + 1) as nat);
}

/// The walk on a single-character spelling whose child sits at index `i`:
/// it descends once and yields that child's token with nothing left over.
proof fn lemma_walk_single(tree: LexNode, i: int, c: char, t: TokenAbs)
    requires
        spec_standard_trie(tree),
        0 <= i < tree.children->0@.len(),
        tree.children->0@[i].suffix@ == seq![c],
        forall|j: int| 0 <= j < i ==> (#[trigger] tree.children->0@[j]).suffix@ != seq![c],
        spec_payload_token(tree.children->0@[i].node.token) == Some(t),
        !spec_whitespace(c),
    ensures
        spec_walk(tree, seq![c], None) == (Some(t), Seq::<char>::empty()),
{
    let e = Seq::<char>::empty();
    let cs = tree.children->0@;
    let s = seq![c];
    assert(s.len() == 1 && s[0] == c);
    assert(e.push(c) =~= s);
    assert(s.skip(1) =~= e);
    lemma_find_key_at(cs, s, i);
    let child = cs[i].node;
    match child.children {
        None => {},
        Some(inner) => {
            assert(e + e =~= e);
        },
    }
    assert(spec_walk(child, e, None) == (Some(t), e));
}

/// The walk on an operator followed by `=`: it descends to the operator's
/// child, then to the compound-assignment leaf, and yields that token with
/// nothing left over.
proof fn lemma_walk_double(tree: LexNode, i: int, c: char, t: TokenAbs, ext: TokenAbs)
    requires
        spec_standard_trie(tree),
        2 <= i < tree.children->0@.len(),
        tree.children->0@[i].suffix@ == seq![c],
        forall|j: int| 0 <= j < i ==> (#[trigger] tree.children->0@[j]).suffix@ != seq![c],
        spec_payload_token(tree.children->0@[i].node.token) == Some(t),
        crate::lexer::spec_op_child(tree.children->0@[i], seq![c], t, ext),
        !spec_whitespace(c),
        !spec_whitespace('='),
    ensures
        spec_walk(tree, seq![c, '='], None) == (Some(ext), Seq::<char>::empty()),
{
    let e = Seq::<char>::empty();
    let cs = tree.children->0@;
    let s = seq![c, '='];
    lemma_spelling_literals();
    assert(e.push(s[0]) =~= seq![c]);
    assert(s.skip(1) =~= seq!['=']);
    lemma_find_key_at(cs, seq![c], i);
    let child = cs[i].node;
    let inner = child.children->0@;
    let s2 = seq!['='];
    assert(s2.len() == 1 && s2[0] == '=');
    assert(e.push('=') =~= s2);
    assert(s2.skip(1) =~= e);
    lemma_find_key_at(inner, s2, 0);
    let leaf = inner[0].node;
    assert(spec_walk(leaf, e, Some(t)) == (Some(ext), e));
    assert(spec_walk(child, s2, None) == (Some(ext), e));
}

/// The walk on the three-character keyword `let`: the scan accumulates all
/// three characters before the keyword's child matches, and yields `Let`
/// with nothing left over.
proof fn lemma_walk_let(tree: LexNode)
    requires
        spec_standard_trie(tree),
    ensures
        spec_walk(tree, seq!['l', 'e', 't'], None) == (
            Some(TokenAbs::Let),
            Seq::<char>::empty(),
        ),
{
    let e = Seq::<char>::empty();
    let cs = tree.children->0@;
    let s = seq!['l', 'e', 't'];
    let maxlen = spec_max_suffix_len(cs);
    lemma_spelling_literals();
    lemma_standard_maxlen(tree);
    assert(!spec_whitespace('l') && !spec_whitespace('e')
        && !spec_whitespace('t'));
    let b1 = e.push('l');
    assert(b1 =~= seq!['l']);
    let s1 = s.skip(1);
    assert(s1 =~= seq!['e', 't']);
    lemma_find_key_none(cs, b1);
    assert(b1.len() < maxlen);
    let b2 = b1.push(s1[0]);
    assert(b2 =~= seq!['l', 'e']);
    let s2 = s1.skip(1);
    assert(s2 =~= seq!['t']);
    lemma_find_key_none(cs, b2);
    assert(b2.len() < maxlen);
    let b3 = b2.push(s2[0]);
    assert(b3 =~= seq!['l', 'e', 't']);
    let s3 = s2.skip(1);
    assert(s3 =~= e);
    lemma_find_key_at(cs, b3, 0);
    let child = cs[0].node;
    assert(spec_walk(child, s3, None) == (Some(TokenAbs::Let), e));
    assert(spec_scan(cs, maxlen, s2, b2, None) == (Some(TokenAbs::Let), e));
    assert(spec_scan(cs, maxlen, s1, b1, None) == (Some(TokenAbs::Let), e));
    assert(spec_scan(cs, maxlen, s, e, None) == (Some(TokenAbs::Let), e));
}

/// The longest child suffix of the standard trie is the keyword `let`,
/// three characters.
proof fn lemma_standard_maxlen(tree: LexNode)
    requires
        spec_standard_trie(tree),
    ensures
        spec_max_suffix_len(tree.children->0@) == 3,
{
    let cs = tree.children->0@;
    lemma_spelling_literals();
    assert(cs.skip(9).len() == 1 && cs.skip(9)[0] == cs[9]);
    assert(cs.skip(9).skip(1) =~= cs.skip(10));
    assert(cs.skip(10).len() == 0);
    assert(spec_max_suffix_len(cs.skip(10)) == 0);
    assert(spec_max_suffix_len(cs.skip(9)) == 1);
    assert(cs.skip(8)[0] == cs[8] && cs.skip(8).skip(1) =~= cs.skip(9));
    assert(spec_max_suffix_len(cs.skip(8)) == 1);
    assert(cs.skip(7)[0] == cs[7] && cs.skip(7).skip(1) =~= cs.skip(8));
    assert(spec_max_suffix_len(cs.skip(7)) == 1);
    assert(cs.skip(6)[0] == cs[6] && cs.skip(6).skip(1) =~= cs.skip(7));
    assert(spec_max_suffix_len(cs.skip(6)) == 1);
    assert(cs.skip(5)[0] == cs[5] && cs.skip(5).skip(1) =~= cs.skip(6));
    assert(spec_max_suffix_len(cs.skip(5)) == 1);
    assert(cs.skip(4)[0] == cs[4] && cs.skip(4).skip(1) =~= cs.skip(5));
    assert(spec_max_suffix_len(cs.skip(4)) == 1);
    assert(cs.skip(3)[0] == cs[3] && cs.skip(3).skip(1) =~= cs.skip(4));
    assert(spec_max_suffix_len(cs.skip(3)) == 1);
    assert(cs.skip(2)[0] == cs[2] && cs.skip(2).skip(1) =~= cs.skip(3));
    assert(spec_max_suffix_len(cs.skip(2)) == 1);
    assert(cs.skip(1)[0] == cs[1] && cs.skip(1).skip(1) =~= cs.skip(2));
    assert(spec_max_suffix_len(cs.skip(1)) == 1);
    assert(cs.skip(0) =~= cs);
    assert(cs[0].suffix@.len() == 3);
    assert(spec_max_suffix_len(cs) == 3);
}

/// A stream holding exactly one token's worth of input tokenizes to that
/// single token with a clean end of input.
proof fn lemma_tokenize_single(tree: LexNode, s: Seq<char>, t: TokenAbs)
    requires
        spec_standard_trie(tree),
        s.len() >= 1,
        spec_lex_token(s, tree) == (Some(t), Seq::<char>::empty()),
    ensures
        spec_tokenize(s, tree) == (seq![t], LexEnd::EndOfInput),
{
    let e = Seq::<char>::empty();
    lemma_lex_empty(tree);
    assert(spec_skip_ws(e) == e);
    assert(spec_terminal(e) == LexEnd::EndOfInput);
    assert(spec_tokenize_rec(e, tree, s.len() as nat) == (
        Seq::<TokenAbs>::empty(),
        LexEnd::EndOfInput,
    ));
    assert(seq![t] + Seq::<TokenAbs>::empty() =~= seq![t]);
}

/// What every fixed spelling tokenizes to, and the round trip: tokenizing a
/// canonical spelling yields exactly one token of that kind with a clean
/// end of input, and tokenizing the spelling that token renders back to
/// yields the same result again.
pub proof fn lemma_fixed_spelling_roundtrip(tree: LexNode, t: TokenAbs)
    requires
        spec_standard_trie(tree),
        spec_fixed(t),
    ensures
        spec_tokenize(spec_spelling(t)->0, tree) == (seq![t], LexEnd::EndOfInput),
        spec_tokenize(
            spec_spelling(spec_tokenize(spec_spelling(t)->0, tree).0[0])->0,
            tree,
        ) == spec_tokenize(spec_spelling(t)->0, tree),
{
    lemma_spelling_literals();
    let cs = tree.children->0@;
    let sp = spec_spelling(t)->0;
    match t {
        TokenAbs::Let => {
            lemma_walk_let(tree);
        },
        TokenAbs::Id(_) => {},
        TokenAbs::NumericalLiteral(_) => {},
        TokenAbs::Plus => {
            lemma_walk_single(tree, 2, '+', t);
        },
        TokenAbs::Minus => {
            lemma_walk_single(tree, 3, '-', t);
        },
        TokenAbs::ForwardSlash => {
            lemma_walk_single(tree, 4, '/', t);
        },
        TokenAbs::Star => {
            lemma_walk_single(tree, 5, '*', t);
        },
        TokenAbs::BitXor => {
            lemma_walk_single(tree, 6, '^', t);
        },
        TokenAbs::BitOr => {
            lemma_walk_single(tree, 7, '|', t);
        },
        TokenAbs::BitAnd => {
            lemma_walk_single(tree, 8, '&', t);
        },
        TokenAbs::PlusEq => {
            lemma_walk_double(tree, 2, '+', TokenAbs::Plus, t);
        },
        TokenAbs::MinusEq => {
            lemma_walk_double(tree, 3, '-', TokenAbs::Minus, t);
        },
        TokenAbs::DivEq => {
            lemma_walk_double(tree, 4, '/', TokenAbs::ForwardSlash, t);
        },
        TokenAbs::MulEq => {
            lemma_walk_double(tree, 5, '*', TokenAbs::Star, t);
        },
        TokenAbs::BitXorEq => {
            lemma_walk_double(tree, 6, '^', TokenAbs::BitXor, t);
        },
        TokenAbs::BitOrEq => {
            lemma_walk_double(tree, 7, '|', TokenAbs::BitOr, t);
        },
        TokenAbs::BitAndEq => {
            lemma_walk_double(tree, 8, '&', TokenAbs::BitAnd, t);
        },
        TokenAbs::Eq => {
            lemma_walk_single(tree, 9, '=', t);
        },
        TokenAbs::CmpEq => {
            lemma_walk_double(tree, 9, '=', TokenAbs::Eq, t);
        },
        TokenAbs::Semi => {
            lemma_walk_single(tree, 1, ';', t);
        },
    }
    assert(spec_skip_ws(sp) == sp);
    assert(spec_try_number(sp) is None);
    assert(spec_lex_token(sp, tree) == (Some(t), Seq::<char>::empty()));
    lemma_tokenize_single(tree, sp, t);
    assert(spec_tokenize(sp, tree).0[0] == t);
}

} // verus!
