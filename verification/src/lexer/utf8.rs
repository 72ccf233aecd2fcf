//! Text as bytes: how many bytes a run of characters occupies in the source
//! buffer, and where the buffer can be cut.
use vstd::prelude::*;
use vstd::string::*;
use vstd::utf8::*;

verus! {

/// The number of bytes that `s` occupies in UTF-8.
pub open spec fn utf8_len(s: Seq<char>) -> nat {
    encode_utf8(s).len()
}

/// The number of bytes that `c` occupies in UTF-8: between one and four.
pub open spec fn utf8_width(c: char) -> nat {
    encode_scalar(c as u32).len()
}

/// The prefix of `s` that is exactly `len` bytes long in UTF-8, if `s` has
/// one: it has none where `s` is shorter than `len` bytes, or where the
/// `len`-th byte falls inside a character.
pub open spec fn byte_prefix(s: Seq<char>, len: nat) -> Option<Seq<char>> {
    if exists|k: int| 0 <= k <= s.len() && utf8_len(#[trigger] s.take(k)) == len {
        Some(s.take(choose|k: int| 0 <= k <= s.len() && utf8_len(#[trigger] s.take(k)) == len))
    } else {
        None
    }
}

/// The encoding of a concatenation is the concatenation of the encodings.
pub proof fn lemma_encode_concat(a: Seq<char>, b: Seq<char>)
    ensures
        encode_utf8(a + b) =~= encode_utf8(a) + encode_utf8(b),
    decreases a.len(),
{
    if a.len() > 0 {
        assert((a + b).drop_first() =~= a.drop_first() + b);
        lemma_encode_concat(a.drop_first(), b);
    }
}

/// A text is at least as many bytes long as it has characters.
pub proof fn lemma_len_at_least(s: Seq<char>)
    ensures
        s.len() <= utf8_len(s),
    decreases s.len(),
{
    if s.len() > 0 {
        lemma_len_at_least(s.drop_first());
    }
}

/// A text of one character is as long as that character is wide.
pub proof fn lemma_len_single(c: char)
    ensures
        utf8_len(seq![c]) == utf8_width(c),
{
    reveal_with_fuel(encode_utf8, 2);
}

/// A longer prefix is longer in bytes.
pub proof fn lemma_prefix_len_increases(s: Seq<char>, i: int, j: int)
    requires
        0 <= i <= j <= s.len(),
    ensures
        utf8_len(s.take(i)) + (j - i) <= utf8_len(s.take(j)) <= utf8_len(s),
{
    assert(s.take(j) =~= s.take(i) + s.subrange(i, j));
    lemma_encode_concat(s.take(i), s.subrange(i, j));
    lemma_len_at_least(s.subrange(i, j));
    assert(s =~= s.take(j) + s.skip(j));
    lemma_encode_concat(s.take(j), s.skip(j));
}

/// The prefix of `k` characters is the prefix of its own length in bytes.
pub proof fn lemma_byte_prefix_of_take(s: Seq<char>, k: int)
    requires
        0 <= k <= s.len(),
    ensures
        byte_prefix(s, utf8_len(s.take(k))) == Some(s.take(k)),
{
    let len = utf8_len(s.take(k));
    let k2 = choose|k2: int| 0 <= k2 <= s.len() && utf8_len(#[trigger] s.take(k2)) == len;
    if k2 < k {
        lemma_prefix_len_increases(s, k2, k);
    } else if k < k2 {
        lemma_prefix_len_increases(s, k, k2);
    }
}

/// What `byte_prefix` finds is a prefix of the text, and that many bytes long.
pub proof fn lemma_byte_prefix_is_prefix(s: Seq<char>, len: nat)
    requires
        byte_prefix(s, len) is Some,
    ensures
        ({
            let p = byte_prefix(s, len)->0;
            &&& p.len() <= s.len()
            &&& p == s.take(p.len() as int)
            &&& utf8_len(p) == len
        }),
{
}

/// No text has a prefix longer than itself.
pub proof fn lemma_byte_prefix_too_long(s: Seq<char>, len: nat)
    requires
        utf8_len(s) < len,
    ensures
        byte_prefix(s, len) is None,
{
    assert forall|k: int| 0 <= k <= s.len() implies utf8_len(#[trigger] s.take(k)) != len by {
        lemma_prefix_len_increases(s, k, k);
    }
}

/// The bytes of a prefix end on a character boundary of the whole.
proof fn lemma_prefix_is_boundary(s: Seq<char>, k: int)
    requires
        0 <= k <= s.len(),
    ensures
        is_char_boundary(encode_utf8(s), utf8_len(s.take(k)) as int),
    decreases k,
{
    let bytes = encode_utf8(s);
    encode_utf8_valid_utf8(s);
    if k > 0 {
        let rest = s.drop_first();
        encode_utf8_first_scalar(s);
        assert(pop_first_scalar(bytes) =~= encode_utf8(rest));
        assert(s.take(k).drop_first() =~= rest.take(k - 1));
        lemma_prefix_is_boundary(rest, k - 1);
    }
}

/// A character boundary of the encoding is where some prefix ends.
proof fn lemma_boundary_is_prefix(s: Seq<char>, n: int) -> (k: int)
    requires
        is_char_boundary(encode_utf8(s), n),
    ensures
        0 <= k <= s.len(),
        utf8_len(s.take(k)) == n,
    decreases s.len(),
{
    let bytes = encode_utf8(s);
    encode_utf8_valid_utf8(s);
    if n == 0 {
        0
    } else {
        let rest = s.drop_first();
        encode_utf8_first_scalar(s);
        assert(pop_first_scalar(bytes) =~= encode_utf8(rest));
        let k1 = lemma_boundary_is_prefix(rest, n - length_of_first_scalar(bytes));
        assert(s.take(k1 + 1).drop_first() =~= rest.take(k1));
        k1 + 1
    }
}

/// A cut of the bytes at a boundary is a cut of the characters.
proof fn lemma_cut(s: Seq<char>, n: int, head: Seq<char>, tail: Seq<char>)
    requires
        is_char_boundary(encode_utf8(s), n),
        encode_utf8(head) =~= encode_utf8(s).subrange(0, n),
        encode_utf8(tail) =~= encode_utf8(s).subrange(n, encode_utf8(s).len() as int),
    ensures
        0 <= n,
        byte_prefix(s, n as nat) == Some(head),
        head + tail == s,
{
    let k = lemma_boundary_is_prefix(s, n);
    assert(s =~= s.take(k) + s.skip(k));
    lemma_encode_concat(s.take(k), s.skip(k));
    assert(encode_utf8(head) =~= encode_utf8(s.take(k)));
    assert(encode_utf8(tail) =~= encode_utf8(s.skip(k)));
    encode_utf8_decode_utf8(head);
    encode_utf8_decode_utf8(tail);
    encode_utf8_decode_utf8(s.take(k));
    encode_utf8_decode_utf8(s.skip(k));
    lemma_byte_prefix_of_take(s, k);
}

/// The number of bytes that `c` occupies in UTF-8.
pub fn char_width(c: char) -> (w: usize)
    ensures
        w == utf8_width(c),
{
    let v: u32 = c as u32;
    if v < 0x80 {
        1
    } else if v < 0x800 {
        2
    } else if v < 0x1_0000 {
        3
    } else {
        4
    }
}

/// The length of `s` in bytes.
pub fn byte_len(s: &str) -> (n: usize)
    ensures
        n == utf8_len(s@),
{
    s.as_bytes().len()
}

/// Cuts `s` after its first `len` bytes. There is no such cut where `s` is
/// shorter than that, or where it would part a character.
pub fn split_bytes<'a>(s: &'a str, len: usize) -> (r: Option<(&'a str, &'a str)>)
    ensures
        match r {
            Some((head, tail)) => byte_prefix(s@, len as nat) == Some(head@) && head@ + tail@
                == s@,
            None => byte_prefix(s@, len as nat) is None,
        },
{
    if byte_len(s) < len {
        proof {
            lemma_byte_prefix_too_long(s@, len as nat);
        }
        return None;
    }
    if !s.is_char_boundary(len) {
        proof {
            if byte_prefix(s@, len as nat) is Some {
                lemma_prefix_is_boundary(s@, byte_prefix(s@, len as nat)->0.len() as int);
            }
        }
        return None;
    }
    let (head, tail) = s.split_at(len);
    proof {
        lemma_cut(s@, len as int, head@, tail@);
    }
    Some((head, tail))
}

/// Parts the first character of `s` from the rest, if `s` has one.
pub fn split_first<'a>(s: &'a str) -> (r: Option<(char, &'a str)>)
    ensures
        match r {
            Some((c, tail)) => s@.len() > 0 && c == s@[0] && tail@ == s@.drop_first(),
            None => s@.len() == 0,
        },
{
    if s.is_empty() {
        return None;
    }
    let c: char = s.get_char(0);
    proof {
        assert(s@.take(1) =~= seq![c]);
        lemma_len_single(c);
        lemma_prefix_is_boundary(s@, 1);
    }
    let parts = s.split_at(char_width(c));
    proof {
        lemma_cut(s@, utf8_width(c) as int, parts.0@, parts.1@);
        lemma_byte_prefix_of_take(s@, 1);
    }
    Some((c, parts.1))
}

/// Whether `a` and `b` hold the same text, byte for byte.
pub fn same_text(a: &str, b: &str) -> (same: bool)
    ensures
        same == (a@ == b@),
{
    let x: &[u8] = a.as_bytes();
    let y: &[u8] = b.as_bytes();
    if x.len() != y.len() {
        return false;
    }
    let mut i: usize = 0;
    while i < x.len()
        invariant
            0 <= i <= x.len(),
            x.len() == y.len(),
            x@ == encode_utf8(a@),
            y@ == encode_utf8(b@),
            forall|j: int| 0 <= j < i ==> x@[j] == y@[j],
        decreases x.len() - i,
    {
        if x[i] != y[i] {
            return false;
        }
        i = i + 1;
    }
    proof {
        assert(x@ =~= y@);
        encode_utf8_decode_utf8(a@);
        encode_utf8_decode_utf8(b@);
    }
    true
}

} // verus!
