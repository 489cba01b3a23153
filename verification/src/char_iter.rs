//! A character stream with one-character lookahead and unlimited pushback.
//!
//! The tokenizer reads characters one at a time and, when it discovers that
//! provisionally consumed characters do not extend to a valid token, pushes
//! them back so they are re-offered to the next tokenization attempt.

use vstd::prelude::*;
use vstd::string::StrSliceExecFns;

verus! {

/// A stream of characters supporting `peek`, `next`, and order-preserving
/// pushback of single characters or whole strings.
///
/// The view is the sequence of characters still to be read, pushed-back
/// characters first: pushing back what was just read restores the stream
/// exactly.
pub struct CharIter {
    /// Pushed-back characters; the last element is the next to be read.
    pushed: Vec<char>,
    /// The remaining characters of the underlying source text.
    inner: Vec<char>,
    /// How many characters of `inner` have been consumed.
    pos: usize,
}

impl View for CharIter {
    type V = Seq<char>;

    closed spec fn view(&self) -> Seq<char> {
        if self.pos <= self.inner.len() {
            self.pushed@.reverse() + self.inner@.skip(self.pos as int)
        } else {
            self.pushed@.reverse()
        }
    }
}

impl CharIter {
    /// Opens a stream over the characters of `text`.
    pub fn new(text: &str) -> (r: CharIter)
        ensures
            r@ == text@,
    {
        let n: usize = text.unicode_len();
        let mut inner: Vec<char> = Vec::new();
        let mut i: usize = 0;
        while i < n
            invariant
                n == text@.len(),
                i <= n,
                inner@ == text@.take(i as int),
            decreases n - i,
        {
            inner.push(text.get_char(i));
            proof {
                assert(text@.take(i as int).push(text@[i as int]) =~= text@.take(i + 1));
            }
            i += 1;
        }
        let r = CharIter { pushed: Vec::new(), inner, pos: 0 };
        proof {
            assert(r.pushed@.reverse() =~= Seq::<char>::empty());
            assert(r@ =~= text@);
        }
        r
    }

    /// Returns the next character without consuming it, or `None` at end of
    /// input.
    pub fn peek(&self) -> (r: Option<char>)
        ensures
            self@.len() == 0 ==> r is None,
            self@.len() > 0 ==> r == Some(self@[0]),
    {
        if self.pushed.len() > 0 {
            let c = self.pushed[self.pushed.len() - 1];
            proof {
                assert(self.pushed@.reverse()[0] == self.pushed@[self.pushed@.len() - 1]);
            }
            Some(c)
        } else if self.pos < self.inner.len() {
            proof {
                assert(self.pushed@.reverse().len() == 0);
            }
            Some(self.inner[self.pos])
        } else {
            None
        }
    }

    /// Returns and consumes the next character, drawn from the pushback
    /// buffer first, or `None` at end of input.
    pub fn next(&mut self) -> (r: Option<char>)
        ensures
            old(self)@.len() == 0 ==> r is None && final(self)@ == old(self)@,
            old(self)@.len() > 0 ==> r == Some(old(self)@[0]) && final(self)@ == old(self)@.skip(
                1,
            ),
    {
        if self.pushed.len() > 0 {
            let ghost prev = self.pushed@;
            let c = self.pushed.pop().unwrap();
            proof {
                assert(prev.reverse()[0] == prev[prev.len() - 1]);
                assert(self.pushed@.reverse() =~= prev.reverse().skip(1));
                assert(self@ =~= old(self)@.skip(1));
            }
            Some(c)
        } else if self.pos < self.inner.len() {
            let c = self.inner[self.pos];
            self.pos = self.pos + 1;
            proof {
                assert(old(self).pushed@.reverse().len() == 0);
                assert(self@ =~= old(self)@.skip(1));
            }
            Some(c)
        } else {
            None
        }
    }

    /// Makes `c` the very next character returned, ahead of everything
    /// currently pending.
    pub fn push_front(&mut self, c: char)
        ensures
            final(self)@ == seq![c] + old(self)@,
    {
        let ghost prev = self.pushed@;
        self.pushed.push(c);
        proof {
            assert(self.pushed@.reverse() =~= seq![c] + prev.reverse());
            assert(self@ =~= seq![c] + old(self)@);
        }
    }

    /// Makes the characters of `s` the next characters returned, in `s`'s
    /// own left-to-right order, ahead of everything currently pending:
    /// reading characters and then pushing back what was read restores the
    /// stream.
    pub fn push_str_front(&mut self, s: &str)
        ensures
            final(self)@ == s@ + old(self)@,
    {
        let n: usize = s.unicode_len();
        let mut i: usize = 0;
        while i < n
            invariant
                n == s@.len(),
                i <= n,
                self@ == s@.skip((n - i) as int) + old(self)@,
            decreases n - i,
        {
            let c = s.get_char(n - 1 - i);
            self.push_front(c);
            proof {
                assert(s@.skip((n - i - 1) as int) =~= seq![s@[(n - i - 1) as int]] + s@.skip(
                    (n - i) as int,
                ));
                assert(self@ =~= s@.skip((n - i - 1) as int) + old(self)@);
            }
            i += 1;
        }
        proof {
            assert(s@.skip(0) =~= s@);
        }
    }
}

} // verus!
