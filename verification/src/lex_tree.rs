//! The lex tree: an immutable trie of nodes built once from a static grammar
//! description.
//!
//! Each node either resolves to a token (the path from the root spells it
//! completely) or is an unresolved prefix; a node may carry children keyed by
//! the suffix needed to extend to them.  A node may both resolve and branch:
//! `+` resolves to `Plus` and also extends towards `+=`.

use vstd::prelude::*;
use vstd::pervasive::VecAdditionalExecFns;
use vstd::string::StringExecFns;

use crate::token::{
    spec_fixed, spec_resolve, spec_spelling, spec_token_of_spelling, str_eq, token_from_str,
    token_to_str, Token, TokenAbs,
};

verus! {

/// What a node stands for: either the path to it spells a complete token, or
/// it is only a reachable prefix, recorded as the literal prefix text.
pub enum LexPayload {
    Resolved(Token),
    Unresolved(String),
}

/// A child edge of the trie: the suffix needed to extend from the parent,
/// and the node it leads to.
pub struct LexChild {
    pub suffix: String,
    pub node: LexNode,
}

/// A node of the lex tree.
pub struct LexNode {
    pub token: LexPayload,
    pub children: Option<Vec<LexChild>>,
}

/// The token a payload resolves to, if any.
pub open spec fn spec_payload_token(p: LexPayload) -> Option<TokenAbs> {
    match p {
        LexPayload::Resolved(t) => Some(t@),
        LexPayload::Unresolved(_) => None,
    }
}

/// The text a payload renders back to: a resolved token's canonical spelling
/// (empty for the kinds that have none), or the unresolved prefix itself.
pub open spec fn spec_payload_str(p: LexPayload) -> Seq<char> {
    match p {
        LexPayload::Resolved(t) => if spec_fixed(t@) {
            spec_spelling(t@)->0
        } else {
            Seq::<char>::empty()
        },
        LexPayload::Unresolved(s) => s@,
    }
}

/// The index of the first child keyed by `k`, if any.
pub open spec fn spec_find_key(cs: Seq<LexChild>, k: Seq<char>) -> Option<int>
    decreases cs.len(),
{
    if cs.len() == 0 {
        None
    } else if cs[0].suffix@ == k {
        Some(0)
    } else {
        match spec_find_key(cs.skip(1), k) {
            Some(i) => Some(i + 1),
            None => None,
        }
    }
}

/// The length of the longest suffix among `cs`.
pub open spec fn spec_max_suffix_len(cs: Seq<LexChild>) -> nat
    decreases cs.len(),
{
    if cs.len() == 0 {
        0
    } else {
        let rest = spec_max_suffix_len(cs.skip(1));
        if cs[0].suffix@.len() >= rest {
            cs[0].suffix@.len()
        } else {
            rest
        }
    }
}

/// Well-formedness of the subtrie rooted at `node`, whose path from the trie
/// root spells `prefix`: a resolved payload's canonical spelling is exactly
/// the path that reaches it, an unresolved payload records the path
/// literally, child suffixes are nonempty and distinct, and every child
/// resolves (only the root is unresolved).
pub open spec fn spec_wf_node(node: LexNode, prefix: Seq<char>) -> bool
    decreases node,
{
    &&& match node.token {
        LexPayload::Resolved(t) => spec_spelling(t@) == Some(prefix),
        LexPayload::Unresolved(s) => s@ == prefix,
    }
    &&& match node.children {
        None => true,
        Some(cs) => {
            &&& forall|i: int| 0 <= i < cs@.len() ==> (#[trigger] cs@[i]).suffix@.len() > 0
            &&& forall|i: int|
                0 <= i < cs@.len() ==> (#[trigger] cs@[i]).node.token is Resolved
            &&& forall|i: int, j: int|
                0 <= i < j < cs@.len() ==> cs@[i].suffix@ != cs@[j].suffix@
            &&& forall|i: int|
                0 <= i < cs@.len() ==> spec_wf_node(
                    (#[trigger] cs@[i]).node,
                    prefix + cs@[i].suffix@,
                )
        },
    }
}

/// Well-formedness of a whole trie: the root spells the empty prefix and is
/// itself unresolved.
pub open spec fn spec_wf_trie(t: LexNode) -> bool {
    &&& t.token is Unresolved
    &&& spec_wf_node(t, Seq::<char>::empty())
}

/// `spec_find_key` returns the first match: scanning past `i` unmatched
/// children and finding a match at `i` pins the result.
pub proof fn lemma_find_key_at(cs: Seq<LexChild>, k: Seq<char>, i: int)
    requires
        0 <= i < cs.len(),
        forall|j: int| 0 <= j < i ==> (#[trigger] cs[j]).suffix@ != k,
        cs[i].suffix@ == k,
    ensures
        spec_find_key(cs, k) == Some(i),
    decreases i,
{
    if i > 0 {
        lemma_find_key_at(cs.skip(1), k, i - 1);
    }
}

/// If no child is keyed by `k`, `spec_find_key` finds nothing.
pub proof fn lemma_find_key_none(cs: Seq<LexChild>, k: Seq<char>)
    requires
        forall|j: int| 0 <= j < cs.len() ==> (#[trigger] cs[j]).suffix@ != k,
    ensures
        spec_find_key(cs, k) is None,
    decreases cs.len(),
{
    if cs.len() > 0 {
        lemma_find_key_none(cs.skip(1), k);
    }
}

/// A found key lies in range and matches.
pub proof fn lemma_find_key_some(cs: Seq<LexChild>, k: Seq<char>)
    requires
        spec_find_key(cs, k) is Some,
    ensures
        0 <= spec_find_key(cs, k)->0 < cs.len(),
        cs[spec_find_key(cs, k)->0].suffix@ == k,
    decreases cs.len(),
{
    if cs.len() > 0 && cs[0].suffix@ != k {
        lemma_find_key_some(cs.skip(1), k);
    }
}

/// Extending the child list extends the maximum suffix length.
pub proof fn lemma_max_suffix_snoc(cs: Seq<LexChild>, c: LexChild)
    ensures
        spec_max_suffix_len(cs.push(c)) == (if c.suffix@.len() >= spec_max_suffix_len(cs) {
            c.suffix@.len()
        } else {
            spec_max_suffix_len(cs)
        }),
    decreases cs.len(),
{
    reveal_with_fuel(spec_max_suffix_len, 3);
    if cs.len() == 0 {
        assert(cs.push(c)[0] == c);
        assert(cs.push(c).skip(1) =~= Seq::<LexChild>::empty());
    } else {
        assert(cs.push(c)[0] == cs[0]);
        assert(cs.push(c).skip(1) =~= cs.skip(1).push(c));
        lemma_max_suffix_snoc(cs.skip(1), c);
    }
}

/// Turns a string into what it resolves to: a token where it spells one, the
/// unresolved character list otherwise.
pub fn str_to_token_or_charlist(s: &str) -> (r: LexPayload)
    ensures
        (r is Resolved) == (spec_resolve(s@) is Some),
        r is Resolved ==> spec_payload_token(r) == spec_resolve(s@),
        r is Unresolved ==> spec_payload_str(r) == s@,
{
    match token_from_str(s) {
        Some(t) => LexPayload::Resolved(t),
        None => LexPayload::Unresolved(s.to_owned()),
    }
}

/// Renders a payload back to text: a resolved token's canonical spelling, or
/// the unresolved prefix itself.
pub fn token_or_charlist_to_str(p: &LexPayload) -> (r: String)
    ensures
        r@ == spec_payload_str(*p),
{
    match p {
        LexPayload::Resolved(t) => token_to_str(t),
        LexPayload::Unresolved(s) => s.clone(),
    }
}

impl LexNode {
    /// The empty-prefix node with no children: the root of every trie.
    pub fn root() -> (r: LexNode)
        ensures
            r.token is Unresolved,
            spec_payload_str(r.token) == Seq::<char>::empty(),
            r.children is None,
            spec_wf_trie(r),
    {
        proof {
            reveal_strlit("");
            assert(("")@ =~= Seq::<char>::empty());
        }
        LexNode { token: LexPayload::Unresolved(String::from_str("")), children: None }
    }

    /// A node resolving to the token spelled `token_str`, used as an anchor
    /// for further extension.  The spelling must belong to a token kind;
    /// anything else is a grammar-configuration error, which the caller must
    /// rule out up front.
    pub fn trunk(token_str: &str) -> (r: LexNode)
        requires
            spec_token_of_spelling(token_str@) is Some,
        ensures
            r.token is Resolved,
            spec_payload_token(r.token) == Some(spec_token_of_spelling(token_str@)->0),
            spec_payload_str(r.token) == token_str@,
            r.children is None,
            spec_wf_node(r, token_str@),
    {
        proof {
            crate::token::lemma_spelling_bijection();
        }
        match token_from_str(token_str) {
            Some(t) => LexNode { token: LexPayload::Resolved(t), children: None },
            None => {
                proof {
                    assert(false);
                }
                LexNode { token: LexPayload::Unresolved(token_str.to_owned()), children: None }
            },
        }
    }

    /// Replaces this node's children with one leaf child per suffix: for a
    /// node whose path spells `P` and a suffix `s`, the child is keyed by `s`
    /// and resolves to the token spelled `P + s`.  A suffix whose extension
    /// spells no token is a grammar-configuration error, which the caller
    /// must rule out up front.
    pub fn with_children_leaf(self, children_suffixes: &Vec<String>) -> (r: LexNode)
        requires
            forall|i: int|
                0 <= i < children_suffixes@.len() ==> (#[trigger] children_suffixes@[i])@.len()
                    > 0,
            forall|i: int|
                0 <= i < children_suffixes@.len() ==> spec_token_of_spelling(
                    spec_payload_str(self.token) + (#[trigger] children_suffixes@[i])@,
                ) is Some,
        ensures
            r.token == self.token,
            r.children is Some,
            r.children->0@.len() == children_suffixes@.len(),
            forall|i: int|
                0 <= i < children_suffixes@.len() ==> {
                    let c = (#[trigger] r.children->0@[i]);
                    &&& c.suffix@ == children_suffixes@[i]@
                    &&& c.node.token is Resolved
                    &&& spec_payload_token(c.node.token) == Some(
                        spec_token_of_spelling(
                            spec_payload_str(self.token) + children_suffixes@[i]@,
                        )->0,
                    )
                    &&& c.node.children is None
                },
    {
        let prefix: String = token_or_charlist_to_str(&self.token);
        let mut new_children: Vec<LexChild> = Vec::new();
        let n: usize = children_suffixes.len();
        let mut i: usize = 0;
        proof {
            crate::token::lemma_spelling_bijection();
        }
        while i < n
            invariant
                n == children_suffixes@.len(),
                i <= n,
                prefix@ == spec_payload_str(self.token),
                forall|j: int|
                    0 <= j < n ==> (#[trigger] children_suffixes@[j])@.len() > 0,
                forall|j: int|
                    0 <= j < n ==> spec_token_of_spelling(
                        spec_payload_str(self.token) + (#[trigger] children_suffixes@[j])@,
                    ) is Some,
                new_children@.len() == i,
                forall|j: int|
                    0 <= j < i ==> {
                        let c = (#[trigger] new_children@[j]);
                        &&& c.suffix@ == children_suffixes@[j]@
                        &&& c.node.token is Resolved
                        &&& spec_payload_token(c.node.token) == Some(
                            spec_token_of_spelling(
                                spec_payload_str(self.token) + children_suffixes@[j]@,
                            )->0,
                        )
                        &&& c.node.children is None
                    },
            decreases n - i,
        {
            let suffix: &String = &children_suffixes[i];
            let full: String = prefix.clone().concat(suffix.as_str());
            let payload = str_to_token_or_charlist(full.as_str());
            let node = match payload {
                LexPayload::Resolved(t) => LexNode {
                    token: LexPayload::Resolved(t),
                    children: None,
                },
                LexPayload::Unresolved(_) => {
                    proof {
                        assert(spec_resolve(full@) is Some);
                        assert(false);
                    }
                    LexNode { token: LexPayload::Unresolved(String::from_str("")), children: None }
                },
            };
            new_children.push(LexChild { suffix: suffix.clone(), node });
            i += 1;
        }
        LexNode { token: self.token, children: Some(new_children) }
    }

    /// Attaches an already-built subtree as a child, keyed by the text the
    /// subtree root renders back to; an existing child with the same key is
    /// replaced.  This supports multi-level extension chains, `=` extending
    /// to `==` among them.
    #[verifier::loop_isolation(false)]
    pub fn with_branch(self, child_node: LexNode) -> (r: LexNode)
        ensures
            r.token == self.token,
            r.children is Some,
            ({
                let prior = if self.children is Some {
                    self.children->0@
                } else {
                    Seq::<LexChild>::empty()
                };
                let k = spec_payload_str(child_node.token);
                let cs = r.children->0@;
                match spec_find_key(prior, k) {
                    Some(i) => {
                        &&& cs.len() == prior.len()
                        &&& forall|j: int| 0 <= j < prior.len() && j != i ==> cs[j] == prior[j]
                        &&& cs[i].suffix@ == k
                        &&& cs[i].node == child_node
                    },
                    None => {
                        &&& cs.len() == prior.len() + 1
                        &&& forall|j: int| 0 <= j < prior.len() ==> cs[j] == prior[j]
                        &&& cs[prior.len() as int].suffix@ == k
                        &&& cs[prior.len() as int].node == child_node
                    },
                }
            }),
    {
        let tok_str: String = token_or_charlist_to_str(&child_node.token);
        let mut children: Vec<LexChild> = match self.children {
            Some(cs) => cs,
            None => Vec::new(),
        };
        let ghost prior = children@;
        let n: usize = children.len();
        let mut i: usize = 0;
        while i < n
            invariant
                n == prior.len(),
                i <= n,
                children@ == prior,
                tok_str@ == spec_payload_str(child_node.token),
                forall|j: int| 0 <= j < i ==> (#[trigger] prior[j]).suffix@ != tok_str@,
            decreases n - i,
        {
            if str_eq(children[i].suffix.as_str(), tok_str.as_str()) {
                proof {
                    lemma_find_key_at(prior, tok_str@, i as int);
                }
                children.set(
                    i,
                    LexChild { suffix: tok_str, node: child_node },
                );
                return LexNode { token: self.token, children: Some(children) };
            }
            i += 1;
        }
        proof {
            lemma_find_key_none(prior, tok_str@);
        }
        children.push(LexChild { suffix: tok_str, node: child_node });
        LexNode { token: self.token, children: Some(children) }
    }
}

} // verus!
