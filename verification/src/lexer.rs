//! The standard grammar description and the top-level entry point: build the
//! lex tree once, then tokenize.
//!
//! The grammar has the keyword `let` and the semicolon as base leaves, one
//! branch per operator that extends with `=` to its compound-assignment
//! form, and the branch from `=` to `==`.

use vstd::prelude::*;
use vstd::string::StringExecFns;

use crate::lex_tree::{
    spec_payload_str, spec_payload_token, spec_wf_node, spec_wf_trie, LexChild, LexNode,
};
use crate::token::{lemma_spelling_literals, lemma_spelling_table, TokenAbs};
use crate::tokenizer::{spec_tokenize, tokenize, LexOutput};

verus! {

/// A leaf child of the trie: reached by `suffix`, resolving to `t`, with no
/// further extension.
pub open spec fn spec_leaf_child(c: LexChild, suffix: Seq<char>, t: TokenAbs) -> bool {
    &&& c.suffix@ == suffix
    &&& spec_payload_token(c.node.token) == Some(t)
    &&& c.node.children is None
}

/// An operator child of the trie: reached by `op`, resolving to `t`, with
/// one leaf child `=` extending it to `ext`.
pub open spec fn spec_op_child(c: LexChild, op: Seq<char>, t: TokenAbs, ext: TokenAbs) -> bool {
    &&& c.suffix@ == op
    &&& spec_payload_token(c.node.token) == Some(t)
    &&& c.node.children is Some
    &&& c.node.children->0@.len() == 1
    &&& spec_leaf_child(c.node.children->0@[0], seq!['='], ext)
}

/// The lex tree of the standard grammar, node by node: `let` and `;` as
/// leaves, each operator extendable by `=`, and `=` extendable to `==`.
pub open spec fn spec_standard_trie(t: LexNode) -> bool {
    &&& t.token is Unresolved
    &&& spec_payload_str(t.token) == Seq::<char>::empty()
    &&& t.children is Some
    &&& t.children->0@.len() == 10
    &&& spec_leaf_child(t.children->0@[0], seq!['l', 'e', 't'], TokenAbs::Let)
    &&& spec_leaf_child(t.children->0@[1], seq![';'], TokenAbs::Semi)
    &&& spec_op_child(t.children->0@[2], seq!['+'], TokenAbs::Plus, TokenAbs::PlusEq)
    &&& spec_op_child(t.children->0@[3], seq!['-'], TokenAbs::Minus, TokenAbs::MinusEq)
    &&& spec_op_child(t.children->0@[4], seq!['/'], TokenAbs::ForwardSlash, TokenAbs::DivEq)
    &&& spec_op_child(t.children->0@[5], seq!['*'], TokenAbs::Star, TokenAbs::MulEq)
    &&& spec_op_child(t.children->0@[6], seq!['^'], TokenAbs::BitXor, TokenAbs::BitXorEq)
    &&& spec_op_child(t.children->0@[7], seq!['|'], TokenAbs::BitOr, TokenAbs::BitOrEq)
    &&& spec_op_child(t.children->0@[8], seq!['&'], TokenAbs::BitAnd, TokenAbs::BitAndEq)
    &&& spec_op_child(t.children->0@[9], seq!['='], TokenAbs::Eq, TokenAbs::CmpEq)
}

/// A standard trie is well-formed.
pub proof fn lemma_standard_wf(t: LexNode)
    requires
        spec_standard_trie(t),
    ensures
        spec_wf_trie(t),
{
    lemma_spelling_literals();
    let cs = t.children->0@;
    assert forall|i: int| 0 <= i < cs.len() implies spec_wf_node(
        (#[trigger] cs[i]).node,
        Seq::<char>::empty() + cs[i].suffix@,
    ) by {
        assert(Seq::<char>::empty() + cs[i].suffix@ =~= cs[i].suffix@);
        if i >= 2 {
            let op = cs[i].suffix@;
            let inner = cs[i].node.children->0@;
            if i == 2 {
                assert(op + inner[0].suffix@ =~= seq!['+', '=']);
            } else if i == 3 {
                assert(op + inner[0].suffix@ =~= seq!['-', '=']);
            } else if i == 4 {
                assert(op + inner[0].suffix@ =~= seq!['/', '=']);
            } else if i == 5 {
                assert(op + inner[0].suffix@ =~= seq!['*', '=']);
            } else if i == 6 {
                assert(op + inner[0].suffix@ =~= seq!['^', '=']);
            } else if i == 7 {
                assert(op + inner[0].suffix@ =~= seq!['|', '=']);
            } else if i == 8 {
                assert(op + inner[0].suffix@ =~= seq!['&', '=']);
            } else {
                assert(op + inner[0].suffix@ =~= seq!['=', '=']);
            }
            assert(spec_wf_node(inner[0].node, op + inner[0].suffix@));
        }
    }
}

/// Builds the lex tree of the standard grammar.
pub fn construct_lex_tree() -> (r: LexNode)
    ensures
        spec_standard_trie(r),
        spec_wf_trie(r),
{
    proof {
        lemma_spelling_table();
        lemma_spelling_literals();
        reveal_strlit("let");
        reveal_strlit("=");
        reveal_strlit(";");
        reveal_strlit("+");
        reveal_strlit("-");
        reveal_strlit("/");
        reveal_strlit("*");
        reveal_strlit("^");
        reveal_strlit("|");
        reveal_strlit("&");
        assert(("let")@ =~= seq!['l', 'e', 't']);
        assert(("=")@ =~= seq!['=']);
        assert((";")@ =~= seq![';']);
        assert(("+")@ =~= seq!['+']);
        assert(("-")@ =~= seq!['-']);
        assert(("/")@ =~= seq!['/']);
        assert(("*")@ =~= seq!['*']);
        assert(("^")@ =~= seq!['^']);
        assert(("|")@ =~= seq!['|']);
        assert(("&")@ =~= seq!['&']);
    }
    let mut eq_suffix: Vec<String> = Vec::new();
    eq_suffix.push(String::from_str("="));
    proof {
        assert(("+")@ + ("=")@ =~= seq!['+', '=']);
        assert(("-")@ + ("=")@ =~= seq!['-', '=']);
        assert(("/")@ + ("=")@ =~= seq!['/', '=']);
        assert(("*")@ + ("=")@ =~= seq!['*', '=']);
        assert(("^")@ + ("=")@ =~= seq!['^', '=']);
        assert(("|")@ + ("=")@ =~= seq!['|', '=']);
        assert(("&")@ + ("=")@ =~= seq!['&', '=']);
        assert(("=")@ + ("=")@ =~= seq!['=', '=']);
    }
    let plus_base = LexNode::trunk("+").with_children_leaf(&eq_suffix);
    let minus_base = LexNode::trunk("-").with_children_leaf(&eq_suffix);
    let slash_base = LexNode::trunk("/").with_children_leaf(&eq_suffix);
    let star_base = LexNode::trunk("*").with_children_leaf(&eq_suffix);
    let xor_base = LexNode::trunk("^").with_children_leaf(&eq_suffix);
    let or_base = LexNode::trunk("|").with_children_leaf(&eq_suffix);
    let and_base = LexNode::trunk("&").with_children_leaf(&eq_suffix);
    let equal_base = LexNode::trunk("=").with_children_leaf(&eq_suffix);
    let mut base_tokens: Vec<String> = Vec::new();
    base_tokens.push(String::from_str("let"));
    base_tokens.push(String::from_str(";"));
    proof {
        assert(Seq::<char>::empty() + ("let")@ =~= seq!['l', 'e', 't']);
        assert(Seq::<char>::empty() + (";")@ =~= seq![';']);
    }
    let base = LexNode::root().with_children_leaf(&base_tokens);
    let ghost prior0 = base.children->0@;
    let base = base.with_branch(plus_base);
    proof {
        crate::lex_tree::lemma_find_key_none(prior0, ("+")@);
    }
    let ghost prior1 = base.children->0@;
    let base = base.with_branch(minus_base);
    proof {
        crate::lex_tree::lemma_find_key_none(prior1, ("-")@);
    }
    let ghost prior2 = base.children->0@;
    let base = base.with_branch(slash_base);
    proof {
        crate::lex_tree::lemma_find_key_none(prior2, ("/")@);
    }
    let ghost prior3 = base.children->0@;
    let base = base.with_branch(star_base);
    proof {
        crate::lex_tree::lemma_find_key_none(prior3, ("*")@);
    }
    let ghost prior4 = base.children->0@;
    let base = base.with_branch(xor_base);
    proof {
        crate::lex_tree::lemma_find_key_none(prior4, ("^")@);
    }
    let ghost prior5 = base.children->0@;
    let base = base.with_branch(or_base);
    proof {
        crate::lex_tree::lemma_find_key_none(prior5, ("|")@);
    }
    let ghost prior6 = base.children->0@;
    let base = base.with_branch(and_base);
    proof {
        crate::lex_tree::lemma_find_key_none(prior6, ("&")@);
    }
    let ghost prior7 = base.children->0@;
    let base = base.with_branch(equal_base);
    proof {
        crate::lex_tree::lemma_find_key_none(prior7, ("=")@);
        assert(spec_standard_trie(base));
        lemma_standard_wf(base);
    }
    base
}

/// Tokenizes `code` against the standard grammar: builds the lex tree and
/// drives the tokenizer over the text.
pub fn lex(code: &str) -> (r: LexOutput)
    ensures
        exists|tree: LexNode|
            #[trigger] spec_standard_trie(tree) && r.tokens.deep_view() == spec_tokenize(
                code@,
                tree,
            ).0 && r.terminal == spec_tokenize(code@, tree).1,
{
    let tree = construct_lex_tree();
    let r = tokenize(code, &tree);
    proof {
        assert(spec_standard_trie(tree) && r.tokens.deep_view() == spec_tokenize(code@, tree).0
            && r.terminal == spec_tokenize(code@, tree).1);
    }
    r
}

} // verus!
