//! The cursor over the source text.
use super::position::{
    advance, advance_char, has_room, lemma_advance_concat, lemma_advance_push,
    lemma_counts_bounded,
};
use super::utf8::{
    byte_len, byte_prefix, lemma_byte_prefix_is_prefix, lemma_byte_prefix_of_take,
    lemma_encode_concat, same_text, split_bytes, split_first,
};
use super::{Annot, CodeFragment, CodePoint, Loc};
use vstd::prelude::*;

verus! {

/// What a [`CharStream`] stands for: the text that it has not consumed yet,
/// and the position of that text's first character.
pub struct Cursor {
    pub remaining: Seq<char>,
    pub loc: Loc,
}

impl Cursor {
    /// The cursor after its first `n` characters have been consumed.
    pub open spec fn after(self, n: int) -> Cursor {
        Cursor { remaining: self.remaining.skip(n), loc: advance(self.loc, self.remaining.take(n)) }
    }

    /// Lines and columns count from 1, and both counters can take the whole
    /// of the remaining text.
    pub open spec fn wf(self) -> bool {
        &&& self.loc.line >= 1
        &&& self.loc.column >= 1
        &&& has_room(self.loc, self.remaining.len())
    }

    /// Consuming text keeps a cursor well formed.
    pub proof fn lemma_after_wf(self, n: int)
        requires
            self.wf(),
            0 <= n <= self.remaining.len(),
        ensures
            self.after(n).wf(),
    {
        lemma_counts_bounded(self.remaining.take(n));
    }

    /// Consuming `n` characters and then `m` is consuming `n + m`.
    pub proof fn lemma_after_after(self, n: int, m: int)
        requires
            self.wf(),
            0 <= n,
            0 <= m,
            n + m <= self.remaining.len(),
        ensures
            self.after(n).after(m) == self.after(n + m),
    {
        let s = self.remaining;
        assert(s.skip(n).skip(m) =~= s.skip(n + m));
        assert(s.take(n) + s.skip(n).take(m) =~= s.take(n + m));
        lemma_advance_concat(self.loc, s.take(n), s.skip(n).take(m));
    }

    /// Consuming one character moves the position by that character.
    pub proof fn lemma_after_one(self)
        requires
            self.wf(),
            self.remaining.len() > 0,
        ensures
            self.after(1).loc == advance_char(self.loc, self.remaining[0]),
    {
        let c = self.remaining[0];
        assert(self.remaining.take(1) =~= Seq::<char>::empty().push(c));
        lemma_advance_push(self.loc, Seq::<char>::empty(), c);
    }
}

/// A cursor over source text that knows the line and column at which it
/// stands. It hands out characters and stretches of the text, each with the
/// position of its first character, and never copies the text.
pub struct CharStream<'a> {
    rest: &'a str,
    current_loc: Loc,
}

impl<'a> View for CharStream<'a> {
    type V = Cursor;

    closed spec fn view(&self) -> Cursor {
        Cursor { remaining: self.rest@, loc: self.current_loc }
    }
}

impl<'a> CharStream<'a> {
    /// See [`Cursor::wf`].
    pub open spec fn wf(&self) -> bool {
        self@.wf()
    }

    /// A cursor at the first character of `input`: line 1, column 1.
    pub fn new(input: &'a str) -> (cs: Self)
        requires
            input@.len() < u32::MAX,
        ensures
            cs@ == (Cursor { remaining: input@, loc: Loc::start() }),
            cs.wf(),
    {
        Self { rest: input, current_loc: Loc { line: 1, column: 1 } }
    }

    /// The position of the next character.
    pub fn current_loc(&self) -> (loc: Loc)
        ensures
            loc == self@.loc,
    {
        self.current_loc
    }

    /// Consumes the next character and returns it with its position; `None`
    /// at the end of the text.
    pub fn next(&mut self) -> (r: Option<CodePoint>)
        requires
            old(self).wf(),
        ensures
            final(self).wf(),
            match r {
                Some(p) => {
                    &&& old(self)@.remaining.len() > 0
                    &&& p == (Annot { value: old(self)@.remaining[0], loc: old(self)@.loc })
                    &&& final(self)@ == old(self)@.after(1)
                },
                None => old(self)@.remaining.len() == 0 && final(self)@ == old(self)@,
            },
    {
        match split_first(self.rest) {
            Some((c, tail)) => {
                let loc = self.current_loc;
                proof {
                    self@.lemma_after_one();
                }
                self.rest = tail;
                self.current_loc = loc.after_char(c);
                Some(Annot { value: c, loc })
            },
            None => None,
        }
    }

    /// Consumes `s` if the remaining text starts with it, and returns what
    /// was consumed; otherwise consumes nothing and returns `None`.
    pub fn next_if_eq(&mut self, s: &str) -> (r: Option<CodeFragment<'a>>)
        requires
            old(self).wf(),
        ensures
            final(self).wf(),
            match r {
                Some(f) => {
                    &&& s@.is_prefix_of(old(self)@.remaining)
                    &&& f@ == (Annot { value: s@, loc: old(self)@.loc })
                    &&& final(self)@ == old(self)@.after(s@.len() as int)
                },
                None => !s@.is_prefix_of(old(self)@.remaining) && final(self)@ == old(self)@,
            },
    {
        let len: usize = byte_len(s);
        proof {
            let rem = self@.remaining;
            if s@.is_prefix_of(rem) {
                lemma_byte_prefix_of_take(rem, s@.len() as int);
            }
        }
        match self.peek_n(len) {
            Some(f) => {
                if same_text(f.value, s) {
                    self.take_n(len)
                } else {
                    None
                }
            },
            None => None,
        }
    }

    /// The next character with its position, without consuming it; `None`
    /// at the end of the text.
    pub fn peek(&self) -> (r: Option<CodePoint>)
        ensures
            r == if self@.remaining.len() > 0 {
                Some(Annot { value: self@.remaining[0], loc: self@.loc })
            } else {
                None
            },
    {
        match split_first(self.rest) {
            Some((c, _)) => Some(Annot { value: c, loc: self.current_loc }),
            None => None,
        }
    }

    /// The first `len` bytes of the remaining text with their position,
    /// without consuming them. `None` where fewer than `len` bytes remain, or
    /// where the `len`-th byte falls inside a character.
    pub fn peek_n(&self, len: usize) -> (r: Option<CodeFragment<'a>>)
        ensures
            match r {
                Some(f) => byte_prefix(self@.remaining, len as nat) == Some(f.value@) && f.loc
                    == self@.loc,
                None => byte_prefix(self@.remaining, len as nat) is None,
            },
    {
        match split_bytes(self.rest, len) {
            Some((head, _)) => Some(Annot { value: head, loc: self.current_loc }),
            None => None,
        }
    }

    /// Consumes the first `len` bytes of the remaining text and returns them
    /// with their position. Consumes nothing and returns `None` where fewer
    /// than `len` bytes remain, or where the `len`-th byte falls inside a
    /// character.
    pub fn take_n(&mut self, len: usize) -> (r: Option<CodeFragment<'a>>)
        requires
            old(self).wf(),
        ensures
            final(self).wf(),
            match r {
                Some(f) => {
                    &&& byte_prefix(old(self)@.remaining, len as nat) == Some(f.value@)
                    &&& f.loc == old(self)@.loc
                    &&& final(self)@ == old(self)@.after(f.value@.len() as int)
                },
                None => byte_prefix(old(self)@.remaining, len as nat) is None && final(self)@
                    == old(self)@,
            },
    {
        match split_bytes(self.rest, len) {
            Some((head, tail)) => {
                let loc = self.current_loc;
                proof {
                    let rem = self@.remaining;
                    lemma_byte_prefix_is_prefix(rem, len as nat);
                    assert(tail@ =~= rem.skip(head@.len() as int));
                    self@.lemma_after_wf(head@.len() as int);
                }
                self.rest = tail;
                self.current_loc = loc.after_text(head);
                Some(Annot { value: head, loc })
            },
            None => None,
        }
    }

    /// Consumes the longest prefix of the remaining text whose characters
    /// all satisfy `cond`, and returns it with its position. The prefix may
    /// be empty.
    pub fn take_while(&mut self, cond: impl Fn(&char) -> bool) -> (f: CodeFragment<'a>)
        requires
            old(self).wf(),
            forall|i: int|
                0 <= i < old(self)@.remaining.len() ==> cond.requires(
                    (&#[trigger] old(self)@.remaining[i],),
                ),
        ensures
            final(self).wf(),
            f.loc == old(self)@.loc,
            f.value@.len() <= old(self)@.remaining.len(),
            f.value@ == old(self)@.remaining.take(f.value@.len() as int),
            final(self)@ == old(self)@.after(f.value@.len() as int),
            forall|i: int|
                0 <= i < f.value@.len() ==> cond.ensures(
                    (&#[trigger] old(self)@.remaining[i],),
                    true,
                ),
            f.value@.len() < old(self)@.remaining.len() ==> cond.ensures(
                (&old(self)@.remaining[f.value@.len() as int],),
                false,
            ),
    {
        let ghost rem = self@.remaining;
        let mut tail: &str = self.rest;
        let ghost mut k: int = 0;
        loop
            invariant
                0 <= k <= rem.len(),
                tail@ == rem.skip(k),
                forall|i: int| 0 <= i < rem.len() ==> cond.requires((&#[trigger] rem[i],)),
                forall|i: int| 0 <= i < k ==> cond.ensures((&#[trigger] rem[i],), true),
            ensures
                k < rem.len() ==> cond.ensures((&rem[k],), false),
            decreases rem.len() - k,
        {
            match split_first(tail) {
                Some((c, t)) => {
                    if !cond(&c) {
                        break ;
                    }
                    tail = t;
                    proof {
                        assert(t@ =~= rem.skip(k + 1));
                        k = k + 1;
                    }
                },
                None => {
                    break ;
                },
            }
        }
        proof {
            assert(rem =~= rem.take(k) + rem.skip(k));
            lemma_encode_concat(rem.take(k), rem.skip(k));
            lemma_byte_prefix_of_take(rem, k);
        }
        let len: usize = byte_len(self.rest) - byte_len(tail);
        let r = self.take_n(len);
        r.unwrap()
    }
}

} // verus!
