//! Replacing parts of a text.

use vstd::prelude::*;
use vstd::string::{StrSliceExecFns, StringExecFns};

verus! {

/// Whether `pat` stands in `s` from `i` on.
pub open spec fn stands_at(s: Seq<char>, pat: Seq<char>, i: int) -> bool {
    i + pat.len() <= s.len() && s.subrange(i, i + pat.len()) == pat
}

/// `s` from `i` on, with `to` in place of every `pat`, from the left.
pub open spec fn replaced_from(s: Seq<char>, pat: Seq<char>, to: Seq<char>, i: int) -> Seq<char>
    decreases s.len() - i,
{
    if i < 0 || i >= s.len() {
        Seq::empty()
    } else if pat.len() > 0 && stands_at(s, pat, i) {
        to + replaced_from(s, pat, to, i + pat.len())
    } else {
        seq![s[i]] + replaced_from(s, pat, to, i + 1)
    }
}

/// `s` with `to` in place of every `pat`, from the left.
pub open spec fn replaced(s: Seq<char>, pat: Seq<char>, to: Seq<char>) -> Seq<char> {
    replaced_from(s, pat, to, 0)
}

fn stands(s: &str, n: usize, pat: &str, m: usize, i: usize) -> (r: bool)
    requires
        n == s@.len(),
        m == pat@.len(),
        i <= n,
    ensures
        r == stands_at(s@, pat@, i as int),
{
    if m > n - i {
        return false;
    }
    let mut k: usize = 0;
    while k < m
        invariant
            k <= m,
            n == s@.len(),
            m == pat@.len(),
            i + m <= n,
            forall|j: int| 0 <= j < k ==> s@[i + j] == #[trigger] pat@[j],
        decreases m - k,
    {
        if s.get_char(i + k) != pat.get_char(k) {
            proof {
                let t = s@.subrange(i as int, i + m);
                assert(t[k as int] == s@[i + k]);
            }
            return false;
        }
        k += 1;
    }
    assert(s@.subrange(i as int, i + m) =~= pat@);
    true
}

/// Puts `to` in place of every `pat`, from the left.
pub fn replace_all(s: &str, pat: &str, to: &str) -> (r: String)
    requires
        pat@.len() > 0,
    ensures
        r@ == replaced(s@, pat@, to@),
{
    let n: usize = s.unicode_len();
    let m: usize = pat.unicode_len();
    let mut out = String::new();
    let mut i: usize = 0;
    assert(out@ + replaced_from(s@, pat@, to@, 0) =~= replaced(s@, pat@, to@));
    while i < n
        invariant
            i <= n,
            n == s@.len(),
            m == pat@.len(),
            m > 0,
            out@ + replaced_from(s@, pat@, to@, i as int) == replaced(s@, pat@, to@),
        decreases n - i,
    {
        let ghost was = out@;
        if stands(s, n, pat, m, i) {
            out.append(to);
            assert(out@ + replaced_from(s@, pat@, to@, i + m) =~= was + replaced_from(
                s@,
                pat@,
                to@,
                i as int,
            ));
            i += m;
        } else {
            out.append(s.substring_char(i, i + 1));
            assert(s@.subrange(i as int, i + 1) =~= seq![s@[i as int]]);
            assert(out@ + replaced_from(s@, pat@, to@, i + 1) =~= was + replaced_from(
                s@,
                pat@,
                to@,
                i as int,
            ));
            i += 1;
        }
    }
    assert(out@ + Seq::<char>::empty() =~= out@);
    out
}

/// A text without `pat` stays as it is.
pub proof fn law_absent_is_kept(s: Seq<char>, pat: Seq<char>, to: Seq<char>)
    requires
        forall|i: int| 0 <= i < s.len() ==> !#[trigger] stands_at(s, pat, i),
    ensures
        replaced(s, pat, to) == s,
{
    lemma_absent(s, pat, to, 0);
    assert(s.subrange(0, s.len() as int) =~= s);
}

proof fn lemma_absent(s: Seq<char>, pat: Seq<char>, to: Seq<char>, i: int)
    requires
        0 <= i <= s.len(),
        forall|i: int| 0 <= i < s.len() ==> !#[trigger] stands_at(s, pat, i),
    ensures
        replaced_from(s, pat, to, i) == s.subrange(i, s.len() as int),
    decreases s.len() - i,
{
    if i < s.len() {
        lemma_absent(s, pat, to, i + 1);
        assert(seq![s[i]] + s.subrange(i + 1, s.len() as int) =~= s.subrange(i, s.len() as int));
    } else {
        assert(s.subrange(i, s.len() as int) =~= Seq::<char>::empty());
    }
}

} // verus!
