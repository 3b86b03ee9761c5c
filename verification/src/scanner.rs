//! Character-level access to an immutable line of text.
//!
//! The scanner owns a cursor over the decoded characters of its input. All
//! access is non-destructive lookahead ([`Scanner::peek`]), single-character
//! acceptance ([`Scanner::accept_if`]), or maximal-run skipping
//! ([`Scanner::skip_while`]); a failed acceptance never moves the cursor.
//! [`Scanner::mark`] and [`Scanner::restore`] give the transactional
//! rollback the number grammar needs to retry an alternative on the same
//! position.
use vstd::prelude::*;
use crate::classify::CharClass;
use crate::grammar::run_count;

verus! {

/// A cursor over one line of input.
pub struct Scanner<'a> {
    /// The text being read, untouched.
    pub text: &'a str,
    /// The characters of `text`, decoded once up front.
    pub chars: Vec<char>,
    /// How many characters have been consumed.
    pub pos: usize,
}

impl<'a> Scanner<'a> {
    /// The scanner's invariant: the decoded characters are those of the
    /// text, and the cursor lies inside them.
    pub open spec fn wf(self) -> bool {
        self.chars@ == self.text@ && self.pos <= self.chars@.len()
    }

    /// The characters not yet consumed.
    pub open spec fn remaining(self) -> Seq<char> {
        self.chars@.skip(self.pos as int)
    }

    /// Starts a scanner at the beginning of `text`.
    pub fn new(text: &'a str) -> (sc: Scanner<'a>)
        ensures
            sc.wf(),
            sc.text@ == text@,
            sc.pos == 0,
            sc.remaining() == text@,
    {
        let n = text.unicode_len();
        let mut chars: Vec<char> = Vec::new();
        let mut i: usize = 0;
        while i < n
            invariant
                i <= n,
                n as nat == text@.len(),
                chars@.len() == i as nat,
                forall|j: int| 0 <= j < i ==> chars@[j] == text@[j],
            decreases n - i,
        {
            let c = text.get_char(i);
            chars.push(c);
            i = i + 1;
        }
        proof {
            assert(chars@ =~= text@);
        }
        let sc = Scanner { text, chars, pos: 0 };
        proof {
            assert(sc.remaining() =~= text@);
        }
        sc
    }

    /// Looks at the next character without advancing.
    pub fn peek(&self) -> (r: Option<char>)
        requires
            self.wf(),
        ensures
            match r {
                Some(c) => self.remaining().len() > 0 && c == self.remaining()[0],
                None => self.remaining().len() == 0,
            },
    {
        if self.pos < self.chars.len() {
            Some(self.chars[self.pos])
        } else {
            None
        }
    }

    /// Consumes the next character if it belongs to class `p`; on failure
    /// the cursor does not move.
    pub fn accept_if(&mut self, p: CharClass) -> (r: Option<char>)
        requires
            old(self).wf(),
        ensures
            final(self).wf(),
            final(self).text == old(self).text,
            final(self).chars@ == old(self).chars@,
            match r {
                Some(c) => {
                    &&& old(self).remaining().len() > 0
                    &&& p.spec_holds(old(self).remaining()[0])
                    &&& c == old(self).remaining()[0]
                    &&& final(self).pos == old(self).pos + 1
                    &&& final(self).remaining() == old(self).remaining().skip(1)
                },
                None => {
                    &&& (old(self).remaining().len() == 0 || !p.spec_holds(
                        old(self).remaining()[0],
                    ))
                    &&& final(self).pos == old(self).pos
                    &&& final(self).remaining() == old(self).remaining()
                },
            },
    {
        if self.pos < self.chars.len() {
            let c = self.chars[self.pos];
            if p.holds(c) {
                self.pos = self.pos + 1;
                proof {
                    assert(self.remaining() =~= old(self).remaining().skip(1));
                }
                Some(c)
            } else {
                None
            }
        } else {
            None
        }
    }

    /// Consumes the maximal run of characters of class `p`, possibly none.
    pub fn skip_while(&mut self, p: CharClass)
        requires
            old(self).wf(),
        ensures
            final(self).wf(),
            final(self).text == old(self).text,
            final(self).chars@ == old(self).chars@,
            final(self).pos == old(self).pos + run_count(old(self).remaining(), p.as_pred()),
            final(self).remaining() == old(self).remaining().skip(
                run_count(old(self).remaining(), p.as_pred()) as int,
            ),
    {
        loop
            invariant
                self.wf(),
                self.text == old(self).text,
                self.chars@ == old(self).chars@,
                old(self).pos <= self.pos,
                run_count(old(self).remaining(), p.as_pred()) == (self.pos - old(self).pos)
                    + run_count(self.remaining(), p.as_pred()),
            ensures
                run_count(self.remaining(), p.as_pred()) == 0,
            decreases self.chars@.len() - self.pos,
        {
            if self.pos < self.chars.len() {
                let c = self.chars[self.pos];
                if p.holds(c) {
                    proof {
                        assert(self.remaining()[0] == c);
                        assert(self.remaining().skip(1) =~= self.chars@.skip(self.pos + 1));
                    }
                    self.pos = self.pos + 1;
                } else {
                    break ;
                }
            } else {
                break ;
            }
        }
        proof {
            assert(self.remaining() =~= old(self).remaining().skip(
                run_count(old(self).remaining(), p.as_pred()) as int,
            ));
        }
    }

    /// Records the cursor position before a transactional attempt.
    pub fn mark(&self) -> (m: usize)
        ensures
            m == self.pos,
    {
        self.pos
    }

    /// Rolls the cursor back to a recorded position after a failed attempt.
    pub fn restore(&mut self, m: usize)
        requires
            old(self).wf(),
            m <= old(self).pos,
        ensures
            final(self).wf(),
            final(self).text == old(self).text,
            final(self).chars@ == old(self).chars@,
            final(self).pos == m,
            final(self).remaining() == old(self).chars@.skip(m as int),
    {
        self.pos = m;
    }

    /// Whether unconsumed characters remain.
    pub fn has_remaining_text(&self) -> (r: bool)
        requires
            self.wf(),
        ensures
            r == (self.remaining().len() > 0),
    {
        self.pos < self.chars.len()
    }

    /// The unconsumed text, verbatim.
    pub fn remaining_text(&self) -> (r: String)
        requires
            self.wf(),
        ensures
            r@ == self.remaining(),
    {
        let r = String::from_str(self.text.substring_char(self.pos, self.chars.len()));
        proof {
            assert(r@ =~= self.remaining());
        }
        r
    }

    /// The text consumed since position `from`: the lexeme a successful
    /// grammar scan matched.
    pub fn lexeme(&self, from: usize) -> (r: String)
        requires
            self.wf(),
            from <= self.pos,
        ensures
            r@ == self.chars@.subrange(from as int, self.pos as int),
    {
        String::from_str(self.text.substring_char(from, self.pos))
    }
}

} // verus!
