//! How consuming text moves a position.
use super::Loc;
use vstd::prelude::*;

verus! {

/// The number of line feeds in `s`.
pub open spec fn count_newlines(s: Seq<char>) -> nat
    decreases s.len(),
{
    if s.len() == 0 {
        0
    } else {
        count_newlines(s.drop_last()) + if s.last() == '\n' {
            1nat
        } else {
            0nat
        }
    }
}

/// The number of characters of `s` that follow its last line feed; all of
/// them if it has none.
pub open spec fn line_tail(s: Seq<char>) -> nat
    decreases s.len(),
{
    if s.len() == 0 || s.last() == '\n' {
        0
    } else {
        line_tail(s.drop_last()) + 1
    }
}

/// The position reached from `loc` by consuming `s`: one line down for each
/// line feed; the column one past the characters that follow the last line
/// feed, or `s.len()` to the right where `s` has none.
pub open spec fn advance(loc: Loc, s: Seq<char>) -> Loc {
    Loc {
        line: (loc.line + count_newlines(s)) as u32,
        column: if count_newlines(s) == 0 {
            (loc.column + s.len()) as u32
        } else {
            (1 + line_tail(s)) as u32
        },
    }
}

/// The position reached from `loc` by consuming the one character `c`.
pub open spec fn advance_char(loc: Loc, c: char) -> Loc {
    if c == '\n' {
        Loc { line: (loc.line + 1) as u32, column: 1 }
    } else {
        Loc { line: loc.line, column: (loc.column + 1) as u32 }
    }
}

/// Whether the counters of `loc` can take `n` more characters without
/// leaving `u32`.
pub open spec fn has_room(loc: Loc, n: nat) -> bool {
    loc.line + n <= u32::MAX && loc.column + n <= u32::MAX
}

/// A text has no more line feeds than characters, and what follows its last
/// line feed is shorter than the text.
pub proof fn lemma_counts_bounded(s: Seq<char>)
    ensures
        count_newlines(s) <= s.len(),
        line_tail(s) <= s.len(),
        count_newlines(s) > 0 ==> line_tail(s) < s.len(),
        count_newlines(s) == 0 ==> line_tail(s) == s.len(),
    decreases s.len(),
{
    if s.len() > 0 {
        lemma_counts_bounded(s.drop_last());
    }
}

/// Consuming `s` and then `c` is consuming `s.push(c)`.
pub proof fn lemma_advance_push(loc: Loc, s: Seq<char>, c: char)
    requires
        has_room(loc, s.len() + 1),
    ensures
        advance(loc, s.push(c)) == advance_char(advance(loc, s), c),
        has_room(advance(loc, s), 1),
{
    assert(s.push(c).drop_last() =~= s);
    lemma_counts_bounded(s);
}

/// Consuming `a` and then `b` is consuming `a + b`.
pub proof fn lemma_advance_concat(loc: Loc, a: Seq<char>, b: Seq<char>)
    requires
        has_room(loc, a.len() + b.len()),
    ensures
        advance(loc, a + b) == advance(advance(loc, a), b),
        has_room(advance(loc, a), b.len()),
    decreases b.len(),
{
    lemma_counts_bounded(a);
    if b.len() > 0 {
        let b0 = b.drop_last();
        lemma_advance_concat(loc, a, b0);
        assert(b =~= b0.push(b.last()));
        lemma_advance_push(loc, a + b0, b.last());
        lemma_advance_push(advance(loc, a), b0, b.last());
    }
}

impl Loc {
    /// The position of the first character of a text.
    pub open spec fn start() -> Loc {
        Loc { line: 1, column: 1 }
    }

    /// The position just past `c`, which stands at `self`.
    pub fn after_char(self, c: char) -> (next: Loc)
        requires
            has_room(self, 1),
        ensures
            next == advance_char(self, c),
    {
        if c == '\n' {
            Loc { line: self.line + 1, column: 1 }
        } else {
            Loc { line: self.line, column: self.column + 1 }
        }
    }

    /// The position just past `text`, whose first character stands at `self`.
    pub fn after_text(self, text: &str) -> (next: Loc)
        requires
            has_room(self, text@.len()),
        ensures
            next == advance(self, text@),
    {
        let mut cur: Loc = self;
        for c in it: text.chars()
            invariant
                it.seq() == text@,
                has_room(self, text@.len()),
                cur == advance(self, text@.take(it.index() as int)),
        {
            proof {
                let i = it.index() as int;
                assert(text@.take(i + 1) =~= text@.take(i).push(c));
                lemma_advance_push(self, text@.take(i), c);
            }
            cur = cur.after_char(c);
        }
        proof {
            assert(text@.take(text@.len() as int) =~= text@);
        }
        cur
    }
}

} // verus!
