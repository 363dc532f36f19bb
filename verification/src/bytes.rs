//! Little-endian words.

use vstd::prelude::*;

verus! {

/// The four bytes of a word, lowest first.
pub open spec fn le4(x: u32) -> Seq<u8> {
    seq![
        (x % 256) as u8,
        (x / 256 % 256) as u8,
        (x / 65536 % 256) as u8,
        (x / 16777216) as u8,
    ]
}

/// The word that four bytes from `at` on store, lowest first.
pub open spec fn word_at(b: Seq<u8>, at: int) -> int {
    b[at] + b[at + 1] * 256 + b[at + 2] * 65536 + b[at + 3] * 16777216
}

/// The half word that two bytes from `at` on store, lowest first.
pub open spec fn half_at(b: Seq<u8>, at: int) -> int {
    b[at] + b[at + 1] * 256
}

/// The bytes of the words of `s`, one word after another.
pub open spec fn le_words(s: Seq<u32>) -> Seq<u8>
    decreases s.len(),
{
    if s.len() == 0 {
        Seq::empty()
    } else {
        le_words(s.drop_last()) + le4(s.last())
    }
}

pub fn push_le4(v: &mut Vec<u8>, x: u32)
    ensures
        final(v)@ == old(v)@ + le4(x),
{
    v.push((x % 256) as u8);
    v.push((x / 256 % 256) as u8);
    v.push((x / 65536 % 256) as u8);
    v.push((x / 16777216) as u8);
    assert(v@ =~= old(v)@ + le4(x));
}

pub fn push_words(v: &mut Vec<u8>, s: &[u32])
    ensures
        final(v)@ == old(v)@ + le_words(s@),
{
    let mut i: usize = 0;
    while i < s.len()
        invariant
            i <= s@.len(),
            v@ == old(v)@ + le_words(s@.take(i as int)),
        decreases s@.len() - i,
    {
        push_le4(v, s[i]);
        proof {
            let t = s@.take(i + 1);
            assert(t.drop_last() =~= s@.take(i as int));
            assert(t.last() == s@[i as int]);
            assert(v@ =~= old(v)@ + le_words(t));
        }
        i += 1;
    }
    assert(s@.take(s@.len() as int) =~= s@);
}

pub fn read_le4(b: &[u8], at: usize) -> (r: u32)
    requires
        at + 4 <= b@.len(),
    ensures
        r == word_at(b@, at as int),
{
    let n: usize = b.len();
    b[at] as u32 + b[at + 1] as u32 * 256 + b[at + 2] as u32 * 65536 + b[at + 3] as u32 * 16777216
}

pub fn read_le2(b: &[u8], at: usize) -> (r: u32)
    requires
        at + 2 <= b@.len(),
    ensures
        r == half_at(b@, at as int),
{
    let n: usize = b.len();
    b[at] as u32 + b[at + 1] as u32 * 256
}

/// Reading a word back gives what was written.
pub proof fn law_word_round_trip(x: u32)
    ensures
        le4(x).len() == 4,
        word_at(le4(x), 0) == x,
{
}

/// The words of a packed sequence are found at every fourth byte.
pub proof fn law_words_round_trip(s: Seq<u32>, i: int)
    requires
        0 <= i < s.len(),
    ensures
        le_words(s).len() == 4 * s.len(),
        word_at(le_words(s), 4 * i) == s[i],
    decreases s.len(),
{
    let p = s.drop_last();
    lemma_le_words_len(p);
    lemma_le_words_len(s);
    if i < s.len() - 1 {
        law_words_round_trip(p, i);
    } else {
        law_word_round_trip(s[i]);
    }
}

pub proof fn lemma_le_words_len(s: Seq<u32>)
    ensures
        le_words(s).len() == 4 * s.len(),
    decreases s.len(),
{
    if s.len() > 0 {
        lemma_le_words_len(s.drop_last());
    }
}

} // verus!
