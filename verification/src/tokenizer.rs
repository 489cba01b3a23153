//! The tokenizer: drives a character stream against the lex tree to produce
//! the token sequence.
//!
//! Each attempt at a single token proceeds in order: skip whitespace, try a
//! numeric literal, walk the trie with backtrack, and finally try an
//! identifier.  The walk records the deepest resolved node as its best match
//! and pushes unmatched characters back so they are re-lexed.
//!
//! The whole process is mirrored by specification functions over character
//! sequences; every executable function is proved to return exactly what its
//! specification counterpart computes.

use vstd::prelude::*;
use vstd::string::StrSliceExecFns;

use crate::char_iter::CharIter;
use crate::chars::{
    digit_value, is_digit_char, is_valid_id_body, is_valid_id_start, is_whitespace_char, push_char,
    spec_digit, spec_id_body, spec_id_start, spec_whitespace,
};
use crate::lex_tree::{
    lemma_find_key_none, lemma_find_key_some, spec_find_key, spec_max_suffix_len,
    spec_payload_token, spec_wf_node, spec_wf_trie, LexChild, LexNode, LexPayload,
};
use crate::token::{
    spec_accum_digits, spec_fixed, spec_spelling, spec_wrap_neg, Token, TokenAbs,
};

verus! {

/// Why tokenization stopped: a clean end of input, or a character that
/// starts no token.
#[derive(Debug, Clone, Copy, PartialEq, Eq, Structural)]
pub enum LexEnd {
    EndOfInput,
    UnrecognizedCharacter,
}

/// The outcome of tokenizing a text: the tokens recognised up to the
/// stopping point, and why tokenization stopped there.
#[derive(Debug)]
pub struct LexOutput {
    pub tokens: Vec<Token>,
    pub terminal: LexEnd,
}

/// The stream with its leading whitespace removed.
pub open spec fn spec_skip_ws(s: Seq<char>) -> Seq<char>
    decreases s.len(),
{
    if s.len() > 0 && spec_whitespace(s[0]) {
        spec_skip_ws(s.skip(1))
    } else {
        s
    }
}

/// The number of leading decimal digits of `s`.
pub open spec fn spec_digit_run(s: Seq<char>) -> int
    decreases s.len(),
{
    if s.len() > 0 && spec_digit(s[0]) {
        1 + spec_digit_run(s.skip(1))
    } else {
        0
    }
}

/// The numeric-literal attempt: a maximal digit run, optionally preceded by
/// a minus sign that must be followed immediately by a digit, accumulated
/// with 32-bit wrap-around.  Returns the value and the rest of the stream,
/// or `None`, leaving the stream as it was.
pub open spec fn spec_try_number(s: Seq<char>) -> Option<(i32, Seq<char>)> {
    if s.len() > 0 && spec_digit(s[0]) {
        let run = spec_digit_run(s);
        Some((spec_accum_digits(0, s.take(run)), s.skip(run)))
    } else if s.len() >= 2 && s[0] == '-' && spec_digit(s[1]) {
        let rest = s.skip(1);
        let run = spec_digit_run(rest);
        Some((spec_wrap_neg(spec_accum_digits(0, rest.take(run))), rest.skip(run)))
    } else {
        None
    }
}

/// The trie walk from `node`, whose best match so far is `best`: record the
/// node's own token as the new best match if it resolves, then scan forward
/// for a child to descend into.  Returns the best match and the stream after
/// all pushback.
pub open spec fn spec_walk(node: LexNode, s: Seq<char>, best: Option<TokenAbs>) -> (
    Option<TokenAbs>,
    Seq<char>,
)
    decreases s.len(), 1int,
{
    let best2 = match spec_payload_token(node.token) {
        Some(t) => Some(t),
        None => best,
    };
    match node.children {
        None => (best2, s),
        Some(cs) => spec_scan(cs@, spec_max_suffix_len(cs@), s, Seq::<char>::empty(), best2),
    }
}

/// The scan for a child: accumulate characters into a suffix buffer until it
/// equals a child key (descend), the buffer reaches the longest key with no
/// match (push the buffer back), or whitespace or end of input arrives (push
/// the buffer back; whitespace is not consumed).
pub open spec fn spec_scan(
    cs: Seq<LexChild>,
    maxlen: nat,
    s: Seq<char>,
    buf: Seq<char>,
    best: Option<TokenAbs>,
) -> (Option<TokenAbs>, Seq<char>)
    decreases s.len(), 0int,
{
    if s.len() == 0 || spec_whitespace(s[0]) {
        (best, buf + s)
    } else {
        let buf2 = buf.push(s[0]);
        let s2 = s.skip(1);
        match spec_find_key(cs, buf2) {
            Some(i) => spec_walk(cs[i].node, s2, best),
            None => if buf2.len() >= maxlen {
                (best, buf2 + s2)
            } else {
                spec_scan(cs, maxlen, s2, buf2, best)
            },
        }
    }
}

/// The number of leading identifier-body characters of `s`.
pub open spec fn spec_id_run(s: Seq<char>) -> int
    decreases s.len(),
{
    if s.len() > 0 && spec_id_body(s[0]) {
        1 + spec_id_run(s.skip(1))
    } else {
        0
    }
}

/// The identifier attempt: a letter or underscore followed by a maximal run
/// of letters, digits and underscores.  Returns the identifier text and the
/// rest of the stream, or `None`.
pub open spec fn spec_try_ident(s: Seq<char>) -> Option<(Seq<char>, Seq<char>)> {
    if s.len() > 0 && spec_id_start(s[0]) {
        let n = 1 + spec_id_run(s.skip(1));
        Some((s.take(n), s.skip(n)))
    } else {
        None
    }
}

/// One attempt to produce a token: whitespace skip, then the numeric
/// literal, the trie walk, and the identifier, in that order.  Returns the
/// token, if any, and the stream after the attempt.
pub open spec fn spec_lex_token(s: Seq<char>, tree: LexNode) -> (Option<TokenAbs>, Seq<char>) {
    let s1 = spec_skip_ws(s);
    match spec_try_number(s1) {
        Some(v_s2) => (Some(TokenAbs::NumericalLiteral(v_s2.0)), v_s2.1),
        None => {
            let b_s2 = spec_walk(tree, s1, None);
            match b_s2.0 {
                Some(t) => (Some(t), b_s2.1),
                None => match spec_try_ident(b_s2.1) {
                    Some(txt_s3) => (Some(TokenAbs::Id(txt_s3.0)), txt_s3.1),
                    None => (None, b_s2.1),
                },
            }
        },
    }
}

/// Why an attempt that produced no token stopped: end of input if nothing
/// but whitespace remained, an unrecognized character otherwise.
pub open spec fn spec_terminal(s: Seq<char>) -> LexEnd {
    if spec_skip_ws(s).len() == 0 {
        LexEnd::EndOfInput
    } else {
        LexEnd::UnrecognizedCharacter
    }
}

/// The driving loop, with fuel bounding the number of tokens: attempts
/// tokens until one attempt yields nothing.  On a well-formed trie every
/// attempt that yields a token consumes at least one character, so fuel one
/// more than the stream length never runs out.
pub open spec fn spec_tokenize_rec(s: Seq<char>, tree: LexNode, fuel: nat) -> (
    Seq<TokenAbs>,
    LexEnd,
)
    decreases fuel,
{
    if fuel == 0 {
        (Seq::<TokenAbs>::empty(), spec_terminal(s))
    } else {
        let t_s2 = spec_lex_token(s, tree);
        match t_s2.0 {
            None => (Seq::<TokenAbs>::empty(), spec_terminal(s)),
            Some(tv) => {
                let rest_e = spec_tokenize_rec(t_s2.1, tree, (fuel - 1) as nat);
                (seq![tv] + rest_e.0, rest_e.1)
            },
        }
    }
}

/// The complete tokenization of `s` against `tree`: the token sequence and
/// the terminal condition.
pub open spec fn spec_tokenize(s: Seq<char>, tree: LexNode) -> (Seq<TokenAbs>, LexEnd) {
    spec_tokenize_rec(s, tree, (s.len() + 1) as nat)
}

/// Leading whitespace only shortens the stream.
pub proof fn lemma_skip_ws_len(s: Seq<char>)
    ensures
        spec_skip_ws(s).len() <= s.len(),
    decreases s.len(),
{
    if s.len() > 0 && spec_whitespace(s[0]) {
        lemma_skip_ws_len(s.skip(1));
    }
}

/// A digit run is no longer than the stream.
pub proof fn lemma_digit_run_bounds(s: Seq<char>)
    ensures
        0 <= spec_digit_run(s) <= s.len(),
    decreases s.len(),
{
    if s.len() > 0 && spec_digit(s[0]) {
        lemma_digit_run_bounds(s.skip(1));
    }
}

/// An identifier-body run is no longer than the stream.
pub proof fn lemma_id_run_bounds(s: Seq<char>)
    ensures
        0 <= spec_id_run(s) <= s.len(),
    decreases s.len(),
{
    if s.len() > 0 && spec_id_body(s[0]) {
        lemma_id_run_bounds(s.skip(1));
    }
}

/// Every canonical spelling is nonempty.
pub proof fn lemma_spelling_nonempty()
    ensures
        forall|t: TokenAbs| spec_fixed(t) ==> (#[trigger] spec_spelling(t))->0.len() > 0,
{
}

/// What a successful walk claims: a token was found whose canonical spelling
/// is the node's prefix plus exactly the characters the walk consumed.
pub open spec fn spec_walk_found(
    b: Option<TokenAbs>,
    s2: Seq<char>,
    s: Seq<char>,
    prefix: Seq<char>,
) -> bool {
    &&& b is Some
    &&& exists|k: int|
        0 <= k <= s.len() && s2 == s.skip(k) && spec_spelling(b->0) == Some(prefix + s.take(k))
}

/// Soundness of the walk on a well-formed subtrie: either the best match is
/// unchanged and the stream is fully restored, or a token was found whose
/// spelling is the prefix plus exactly what was consumed.  A walk from a
/// resolved node always reports a found token.
pub proof fn lemma_walk(node: LexNode, s: Seq<char>, best: Option<TokenAbs>, prefix: Seq<char>)
    requires
        spec_wf_node(node, prefix),
    ensures
        ({
            let r = spec_walk(node, s, best);
            ||| (r.0 == best && r.1 == s)
            ||| spec_walk_found(r.0, r.1, s, prefix)
        }),
        node.token is Resolved ==> spec_walk_found(
            spec_walk(node, s, best).0,
            spec_walk(node, s, best).1,
            s,
            prefix,
        ),
    decreases s.len(), 1int,
{
    let best2 = match spec_payload_token(node.token) {
        Some(t) => Some(t),
        None => best,
    };
    let r = spec_walk(node, s, best);
    match node.children {
        None => {
            if node.token is Resolved {
                assert(s.skip(0) =~= s);
                assert(prefix + s.take(0) =~= prefix);
                assert(0 <= 0 <= s.len() && r.1 == s.skip(0) && spec_spelling(r.0->0) == Some(
                    prefix + s.take(0),
                ));
            }
        },
        Some(cs) => {
            lemma_scan(cs@, spec_max_suffix_len(cs@), s, Seq::<char>::empty(), best2, prefix);
            assert(Seq::<char>::empty() + s =~= s);
            if r.0 == best2 && r.1 == s {
                if node.token is Resolved {
                    assert(s.skip(0) =~= s);
                    assert(prefix + s.take(0) =~= prefix);
                    assert(0 <= 0 <= s.len() && r.1 == s.skip(0) && spec_spelling(r.0->0) == Some(
                        prefix + s.take(0),
                    ));
                }
            }
        },
    }
}

/// Soundness of the scan over the children of a well-formed node: either
/// the best match is unchanged and the original stream (suffix buffer
/// included) is restored, or a descent found a token whose spelling is the
/// prefix plus exactly what was consumed.
pub proof fn lemma_scan(
    cs: Seq<LexChild>,
    maxlen: nat,
    s: Seq<char>,
    buf: Seq<char>,
    best: Option<TokenAbs>,
    prefix: Seq<char>,
)
    requires
        forall|i: int| 0 <= i < cs.len() ==> (#[trigger] cs[i]).node.token is Resolved,
        forall|i: int|
            0 <= i < cs.len() ==> spec_wf_node((#[trigger] cs[i]).node, prefix + cs[i].suffix@),
    ensures
        ({
            let r = spec_scan(cs, maxlen, s, buf, best);
            ||| (r.0 == best && r.1 == buf + s)
            ||| spec_walk_found(r.0, r.1, buf + s, prefix)
        }),
    decreases s.len(), 0int,
{
    if s.len() == 0 || spec_whitespace(s[0]) {
    } else {
        let buf2 = buf.push(s[0]);
        let s2 = s.skip(1);
        assert(buf2 + s2 =~= buf + s);
        match spec_find_key(cs, buf2) {
            Some(i) => {
                lemma_find_key_some(cs, buf2);
                let child = cs[i].node;
                lemma_walk(child, s2, best, prefix + buf2);
                let r = spec_walk(child, s2, best);
                assert(spec_walk_found(r.0, r.1, s2, prefix + buf2));
                let k2 = choose|k2: int|
                    0 <= k2 <= s2.len() && r.1 == s2.skip(k2) && spec_spelling(r.0->0) == Some(
                        (prefix + buf2) + s2.take(k2),
                    );
                let k = buf.len() + 1 + k2;
                assert((buf + s).skip(k) =~= s2.skip(k2));
                assert((buf + s).take(k) =~= buf2 + s2.take(k2));
                assert((prefix + buf2) + s2.take(k2) =~= prefix + (buf + s).take(k));
                assert(0 <= k <= (buf + s).len() && r.1 == (buf + s).skip(k) && spec_spelling(
                    r.0->0,
                ) == Some(prefix + (buf + s).take(k)));
            },
            None => {
                if buf2.len() >= maxlen {
                } else {
                    lemma_scan(cs, maxlen, s2, buf2, best, prefix);
                }
            },
        }
    }
}

/// The walk from the root of a well-formed trie: finding nothing restores
/// the stream exactly; finding a token consumed exactly its spelling, at
/// least one character.
pub proof fn lemma_walk_root(tree: LexNode, s: Seq<char>)
    requires
        spec_wf_trie(tree),
    ensures
        ({
            let r = spec_walk(tree, s, None);
            &&& (r.0 is None ==> r.1 == s)
            &&& (r.0 is Some ==> exists|k: int|
                1 <= k <= s.len() && r.1 == s.skip(k) && spec_spelling(r.0->0) == Some(s.take(k)))
        }),
{
    lemma_walk(tree, s, None, Seq::<char>::empty());
    lemma_spelling_nonempty();
    let r = spec_walk(tree, s, None);
    if r.0 is Some {
        assert(spec_walk_found(r.0, r.1, s, Seq::<char>::empty()));
        let k = choose|k: int|
            0 <= k <= s.len() && r.1 == s.skip(k) && spec_spelling(r.0->0) == Some(
                Seq::<char>::empty() + s.take(k),
            );
        assert(Seq::<char>::empty() + s.take(k) =~= s.take(k));
        if k == 0 {
            assert(s.take(0) =~= Seq::<char>::empty());
            assert(false);
        }
        assert(1 <= k <= s.len() && r.1 == s.skip(k) && spec_spelling(r.0->0) == Some(s.take(k)));
    }
}

/// A token-producing attempt consumes at least one character.
pub proof fn lemma_lex_token_progress(s: Seq<char>, tree: LexNode)
    requires
        spec_wf_trie(tree),
    ensures
        ({
            let r = spec_lex_token(s, tree);
            r.0 is Some ==> r.1.len() < s.len()
        }),
{
    lemma_skip_ws_len(s);
    let s1 = spec_skip_ws(s);
    if s1.len() > 0 && spec_digit(s1[0]) {
        lemma_digit_run_bounds(s1);
        lemma_digit_run_bounds(s1.skip(1));
        assert(spec_digit_run(s1) >= 1);
    } else if s1.len() >= 2 && s1[0] == '-' && spec_digit(s1[1]) {
        let rest = s1.skip(1);
        lemma_digit_run_bounds(rest);
        lemma_digit_run_bounds(rest.skip(1));
        assert(rest[0] == s1[1]);
        assert(spec_digit_run(rest) >= 1);
    } else {
        lemma_walk_root(tree, s1);
        let b_s2 = spec_walk(tree, s1, None);
        if b_s2.0 is Some {
            let k = choose|k: int|
                1 <= k <= s1.len() && b_s2.1 == s1.skip(k) && spec_spelling(b_s2.0->0) == Some(
                    s1.take(k),
                );
            assert(b_s2.1.len() == s1.len() - k);
        } else {
            if spec_try_ident(b_s2.1) is Some {
                lemma_id_run_bounds(b_s2.1.skip(1));
            }
        }
    }
}

/// Counting leading digits one past a digit prefix: the run splits at any
/// point inside it.
pub proof fn lemma_digit_run_split(s: Seq<char>, k: int)
    requires
        0 <= k <= s.len(),
        forall|j: int| 0 <= j < k ==> spec_digit(#[trigger] s[j]),
    ensures
        spec_digit_run(s) == k + spec_digit_run(s.skip(k)),
    decreases k,
{
    if k > 0 {
        lemma_digit_run_split(s.skip(1), k - 1);
        assert(s.skip(1).skip(k - 1) =~= s.skip(k));
    } else {
        assert(s.skip(0) =~= s);
    }
}

/// The identifier-body run splits at any point inside it.
pub proof fn lemma_id_run_split(s: Seq<char>, k: int)
    requires
        0 <= k <= s.len(),
        forall|j: int| 0 <= j < k ==> spec_id_body(#[trigger] s[j]),
    ensures
        spec_id_run(s) == k + spec_id_run(s.skip(k)),
    decreases k,
{
    if k > 0 {
        lemma_id_run_split(s.skip(1), k - 1);
        assert(s.skip(1).skip(k - 1) =~= s.skip(k));
    } else {
        assert(s.skip(0) =~= s);
    }
}

/// Consumes and discards leading whitespace.
fn skip_whitespace(ci: &mut CharIter)
    ensures
        final(ci)@ == spec_skip_ws(old(ci)@),
{
    loop
        invariant_except_break
            spec_skip_ws(ci@) == spec_skip_ws(old(ci)@),
        ensures
            ci@ == spec_skip_ws(old(ci)@),
        decreases ci@.len(),
    {
        match ci.peek() {
            Some(c) => {
                if is_whitespace_char(c) {
                    ci.next();
                } else {
                    break;
                }
            },
            None => {
                break;
            },
        }
    }
}

/// Consumes a maximal run of decimal digits, accumulating their value with
/// 32-bit wrap-around, negated afterwards if `neg` is set.
fn parse_num(ci: &mut CharIter, neg: bool) -> (r: Option<Token>)
    ensures
        ({
            let run = spec_digit_run(old(ci)@);
            let v = spec_accum_digits(0, old(ci)@.take(run));
            &&& final(ci)@ == old(ci)@.skip(run)
            &&& r is Some
            &&& r->0@ == TokenAbs::NumericalLiteral(
                if neg {
                    spec_wrap_neg(v)
                } else {
                    v
                },
            )
        }),
{
    let mut num: i32 = 0;
    let ghost s0 = old(ci)@;
    let ghost mut count: int = 0;
    loop
        invariant_except_break
            0 <= count <= s0.len(),
            ci@ == s0.skip(count),
            forall|j: int| 0 <= j < count ==> spec_digit(#[trigger] s0[j]),
            num == spec_accum_digits(0, s0.take(count)),
        ensures
            ci@ == s0.skip(spec_digit_run(s0)),
            num == spec_accum_digits(0, s0.take(spec_digit_run(s0))),
        decreases ci@.len(),
    {
        proof {
            lemma_digit_run_split(s0, count);
        }
        match ci.peek() {
            Some(c) => {
                if is_digit_char(c) {
                    ci.next();
                    let d = digit_value(c);
                    proof {
                        assert(s0.skip(count)[0] == s0[count]);
                        assert(s0.skip(count).skip(1) =~= s0.skip(count + 1));
                        crate::token::lemma_accum_snoc(0, s0.take(count), c);
                        assert(s0.take(count + 1) =~= s0.take(count).push(s0[count]));
                    }
                    num = num.wrapping_mul(10).wrapping_add(d);
                    proof {
                        count = count + 1;
                    }
                } else {
                    proof {
                        assert(spec_digit_run(s0.skip(count)) == 0);
                    }
                    break;
                }
            },
            None => {
                proof {
                    assert(spec_digit_run(s0.skip(count)) == 0);
                }
                break;
            },
        }
    }
    if neg {
        Some(Token::NumericalLiteral(0i32.wrapping_sub(num)))
    } else {
        Some(Token::NumericalLiteral(num))
    }
}

/// The numeric-literal attempt: a digit, or a minus sign followed
/// immediately by a digit, starts a literal; a lone minus sign is pushed
/// back untouched for the trie walk.
fn try_parse_number(ci: &mut CharIter) -> (r: Option<Token>)
    ensures
        ({
            let res = spec_try_number(old(ci)@);
            &&& (r is Some) == (res is Some)
            &&& res is Some ==> r->0@ == TokenAbs::NumericalLiteral((res->0).0) && final(ci)@
                == (res->0).1
            &&& res is None ==> final(ci)@ == old(ci)@
        }),
{
    match ci.peek() {
        Some(c) => {
            if is_digit_char(c) {
                parse_num(ci, false)
            } else if c == '-' {
                ci.next();
                let ghost s0 = old(ci)@;
                proof {
                    assert(ci@ =~= s0.skip(1));
                }
                match ci.peek() {
                    Some(d) => {
                        if is_digit_char(d) {
                            parse_num(ci, true)
                        } else {
                            ci.push_front('-');
                            proof {
                                assert(seq!['-'] + s0.skip(1) =~= s0);
                            }
                            None
                        }
                    },
                    None => {
                        ci.push_front('-');
                        proof {
                            assert(seq!['-'] + s0.skip(1) =~= s0);
                        }
                        None
                    },
                }
            } else {
                None
            }
        },
        None => None,
    }
}

/// The identifier attempt: a letter or underscore opens an identifier,
/// which then greedily consumes letters, digits and underscores; anything
/// else yields nothing and leaves the stream untouched.
fn try_parse_identifier(ci: &mut CharIter) -> (r: Option<Token>)
    ensures
        ({
            let res = spec_try_ident(old(ci)@);
            &&& (r is Some) == (res is Some)
            &&& res is Some ==> r->0@ == TokenAbs::Id((res->0).0) && final(ci)@ == (res->0).1
            &&& res is None ==> final(ci)@ == old(ci)@
        }),
{
    let start = match ci.peek() {
        Some(c) => {
            if is_valid_id_start(c) {
                c
            } else {
                return None;
            }
        },
        None => {
            return None;
        },
    };
    ci.next();
    let mut id = String::new();
    push_char(&mut id, start);
    let ghost s0 = old(ci)@;
    let ghost mut count: int = 1;
    proof {
        assert(id@ =~= s0.take(1));
        assert(ci@ =~= s0.skip(1));
    }
    loop
        invariant_except_break
            1 <= count <= s0.len(),
            ci@ == s0.skip(count),
            spec_id_start(s0[0]),
            forall|j: int| 1 <= j < count ==> spec_id_body(#[trigger] s0[j]),
            id@ == s0.take(count),
        ensures
            ({
                let n = 1 + spec_id_run(s0.skip(1));
                &&& ci@ == s0.skip(n)
                &&& id@ == s0.take(n)
            }),
        decreases ci@.len(),
    {
        proof {
            lemma_id_run_split(s0.skip(1), count - 1);
            assert(s0.skip(1).skip(count - 1) =~= s0.skip(count));
        }
        match ci.peek() {
            Some(c) => {
                if is_valid_id_body(c) {
                    ci.next();
                    push_char(&mut id, c);
                    proof {
                        assert(s0.skip(count)[0] == s0[count]);
                        assert(s0.skip(count).skip(1) =~= s0.skip(count + 1));
                        assert(s0.take(count).push(s0[count]) =~= s0.take(count + 1));
                        count = count + 1;
                    }
                } else {
                    proof {
                        assert(spec_id_run(s0.skip(count)) == 0);
                    }
                    break;
                }
            },
            None => {
                proof {
                    assert(spec_id_run(s0.skip(count)) == 0);
                }
                break;
            },
        }
    }
    Some(Token::Id(id))
}

/// The length in characters of the longest child suffix.
fn max_suffix_len(cs: &Vec<LexChild>) -> (m: usize)
    ensures
        m == spec_max_suffix_len(cs@),
{
    let mut m: usize = 0;
    let mut j: usize = 0;
    proof {
        assert(cs@.take(0) =~= Seq::<LexChild>::empty());
    }
    while j < cs.len()
        invariant
            j <= cs@.len(),
            m == spec_max_suffix_len(cs@.take(j as int)),
        decreases cs@.len() - j,
    {
        let l = cs[j].suffix.as_str().unicode_len();
        proof {
            crate::lex_tree::lemma_max_suffix_snoc(cs@.take(j as int), cs@[j as int]);
            assert(cs@.take(j as int).push(cs@[j as int]) =~= cs@.take(j + 1));
        }
        if l > m {
            m = l;
        }
        j += 1;
    }
    proof {
        assert(cs@.take(cs@.len() as int) =~= cs@);
    }
    m
}

/// The index of the first child keyed by `key`, if any.
fn find_child(cs: &Vec<LexChild>, key: &str) -> (r: Option<usize>)
    ensures
        r is Some ==> r->0 < cs@.len() && spec_find_key(cs@, key@) == Some(r->0 as int),
        r is None ==> spec_find_key(cs@, key@) is None,
{
    let mut j: usize = 0;
    while j < cs.len()
        invariant
            j <= cs@.len(),
            forall|i: int| 0 <= i < j ==> (#[trigger] cs@[i]).suffix@ != key@,
        decreases cs@.len() - j,
    {
        if crate::token::str_eq(cs[j].suffix.as_str(), key) {
            proof {
                crate::lex_tree::lemma_find_key_at(cs@, key@, j as int);
            }
            return Some(j);
        }
        j += 1;
    }
    proof {
        lemma_find_key_none(cs@, key@);
    }
    None
}

/// The scan for a child to descend into: reads characters into a suffix
/// buffer until the buffer equals a child key (returns that child's index),
/// the buffer reaches the longest key without a match, or whitespace or end
/// of input arrives (pushes the buffer back and returns nothing).
#[verifier::loop_isolation(false)]
fn scan_children(ci: &mut CharIter, cs: &Vec<LexChild>, best: Ghost<Option<TokenAbs>>) -> (r:
    Option<usize>)
    ensures
        r is Some ==> r->0 < cs@.len() && final(ci)@.len() < old(ci)@.len() && spec_scan(
            cs@,
            spec_max_suffix_len(cs@),
            old(ci)@,
            Seq::<char>::empty(),
            best@,
        ) == spec_walk(cs@[r->0 as int].node, final(ci)@, best@),
        r is None ==> spec_scan(
            cs@,
            spec_max_suffix_len(cs@),
            old(ci)@,
            Seq::<char>::empty(),
            best@,
        ) == (best@, final(ci)@),
{
    let maxlen = max_suffix_len(cs);
    let mut buf = String::new();
    let ghost s0 = old(ci)@;
    loop
        invariant
            maxlen == spec_max_suffix_len(cs@),
            buf@ + ci@ == s0,
            spec_scan(cs@, maxlen as nat, s0, Seq::<char>::empty(), best@) == spec_scan(
                cs@,
                maxlen as nat,
                ci@,
                buf@,
                best@,
            ),
        decreases ci@.len(),
    {
        let stop: bool = match ci.peek() {
            Some(c) => is_whitespace_char(c),
            None => true,
        };
        if stop {
            ci.push_str_front(buf.as_str());
            proof {
                assert(spec_scan(cs@, maxlen as nat, s0, Seq::<char>::empty(), best@) == (
                    best@,
                    ci@,
                ));
            }
            return None;
        }
        let c = ci.next().unwrap();
        push_char(&mut buf, c);
        let blen = buf.unicode_len();
        match find_child(cs, buf.as_str()) {
            Some(j) => {
                proof {
                    assert(buf@ + ci@ =~= s0);
                }
                return Some(j);
            },
            None => {
                if blen >= maxlen {
                    ci.push_str_front(buf.as_str());
                    proof {
                        assert(spec_scan(cs@, maxlen as nat, s0, Seq::<char>::empty(), best@) == (
                            best@,
                            ci@,
                        ));
                    }
                    return None;
                }
                proof {
                    assert(buf@ + ci@ =~= s0);
                }
            },
        }
    }
}

/// One attempt to produce a token from the stream: skip whitespace, try a
/// numeric literal, walk the trie recording the deepest resolved node, and
/// finally try an identifier.
fn lex_token(ci: &mut CharIter, base_tree: &LexNode) -> (r: Option<Token>)
    ensures
        ({
            let res = spec_lex_token(old(ci)@, *base_tree);
            &&& (r is Some) == (res.0 is Some)
            &&& r is Some ==> r->0@ == res.0->0
            &&& final(ci)@ == res.1
        }),
{
    skip_whitespace(ci);
    if let Some(t) = try_parse_number(ci) {
        return Some(t);
    }
    let ghost s1 = ci@;
    let ghost w = spec_walk(*base_tree, s1, None);
    let mut current: &LexNode = base_tree;
    let mut best: Option<Token> = None;
    loop
        invariant_except_break
            w == spec_walk(*current, ci@, best.deep_view()),
        ensures
            w == (best.deep_view(), ci@),
        decreases ci@.len(),
    {
        if let LexPayload::Resolved(t) = &current.token {
            best = Some(t.clone());
        }
        match &current.children {
            None => {
                break;
            },
            Some(cs) => {
                match scan_children(ci, cs, Ghost(best.deep_view())) {
                    Some(j) => {
                        current = &cs[j].node;
                    },
                    None => {
                        break;
                    },
                }
            },
        }
    }
    match best {
        Some(t) => Some(t),
        None => try_parse_identifier(ci),
    }
}

/// Past its canonical amount, fuel does not matter: on a well-formed trie
/// the driving loop's result is the same for any fuel at least one more
/// than the stream length.
pub proof fn lemma_tokenize_fuel(s: Seq<char>, tree: LexNode, f1: nat, f2: nat)
    requires
        spec_wf_trie(tree),
        f1 >= s.len() + 1,
        f2 >= s.len() + 1,
    ensures
        spec_tokenize_rec(s, tree, f1) == spec_tokenize_rec(s, tree, f2),
    decreases s.len(),
{
    lemma_lex_token_progress(s, tree);
    let t_s2 = spec_lex_token(s, tree);
    if t_s2.0 is Some {
        lemma_tokenize_fuel(t_s2.1, tree, (f1 - 1) as nat, (f2 - 1) as nat);
    }
}

/// Tokenizes `code` against a well-formed lex tree: repeatedly attempts a
/// token and appends it, stopping at the first attempt that yields nothing,
/// with the terminal condition telling a clean end of input from an
/// unrecognized character.
pub fn tokenize(code: &str, base_tree: &LexNode) -> (r: LexOutput)
    requires
        spec_wf_trie(*base_tree),
    ensures
        r.tokens.deep_view() == spec_tokenize(code@, *base_tree).0,
        r.terminal == spec_tokenize(code@, *base_tree).1,
{
    let mut tokens: Vec<Token> = Vec::new();
    let mut ci = CharIter::new(code);
    let ghost target = spec_tokenize(code@, *base_tree);
    proof {
        assert(tokens.deep_view() =~= Seq::<TokenAbs>::empty());
        assert(tokens.deep_view() + spec_tokenize_rec(ci@, *base_tree, (ci@.len() + 1) as nat).0
            =~= spec_tokenize_rec(ci@, *base_tree, (ci@.len() + 1) as nat).0);
    }
    loop
        invariant_except_break
            spec_wf_trie(*base_tree),
            target.0 == tokens.deep_view() + spec_tokenize_rec(
                ci@,
                *base_tree,
                (ci@.len() + 1) as nat,
            ).0,
            target.1 == spec_tokenize_rec(ci@, *base_tree, (ci@.len() + 1) as nat).1,
        ensures
            spec_wf_trie(*base_tree),
            target.0 == tokens.deep_view(),
            target.1 == spec_terminal_here(ci@),
        decreases ci@.len(),
    {
        let ghost s = ci@;
        proof {
            lemma_lex_token_progress(s, *base_tree);
        }
        match lex_token(&mut ci, base_tree) {
            Some(t) => {
                let ghost prev = tokens.deep_view();
                let ghost t_s2 = spec_lex_token(s, *base_tree);
                tokens.push(t);
                proof {
                    assert(tokens.deep_view() =~= prev.push(t@));
                    lemma_tokenize_fuel(t_s2.1, *base_tree, (s.len()) as nat, (t_s2.1.len()
                        + 1) as nat);
                    assert(prev + (seq![t@] + spec_tokenize_rec(
                        t_s2.1,
                        *base_tree,
                        (s.len()) as nat,
                    ).0) =~= tokens.deep_view() + spec_tokenize_rec(
                        t_s2.1,
                        *base_tree,
                        (s.len()) as nat,
                    ).0);
                }
            },
            None => {
                proof {
                    lemma_walk_root(*base_tree, spec_skip_ws(s));
                    lemma_skip_ws_idempotent(s);
                    assert(tokens.deep_view() + Seq::<TokenAbs>::empty() =~= tokens.deep_view());
                }
                break;
            },
        }
    }
    let terminal = match ci.peek() {
        Some(_) => LexEnd::UnrecognizedCharacter,
        None => LexEnd::EndOfInput,
    };
    LexOutput { tokens, terminal }
}

/// The terminal condition read off the stream an unsuccessful attempt
/// leaves behind: that stream is already free of leading whitespace.
pub open spec fn spec_terminal_here(s: Seq<char>) -> LexEnd {
    if s.len() == 0 {
        LexEnd::EndOfInput
    } else {
        LexEnd::UnrecognizedCharacter
    }
}

/// Skipping whitespace twice is skipping it once.
pub proof fn lemma_skip_ws_idempotent(s: Seq<char>)
    ensures
        spec_skip_ws(spec_skip_ws(s)) == spec_skip_ws(s),
    decreases s.len(),
{
    if s.len() > 0 && spec_whitespace(s[0]) {
        lemma_skip_ws_idempotent(s.skip(1));
    }
}

} // verus!
