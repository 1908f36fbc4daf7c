//! Longest-common-prefix lengths of two character sequences.

use vstd::prelude::*;

verus! {

/// The length of the longest common prefix.
pub open spec fn lcp(s1: Seq<char>, s2: Seq<char>) -> nat
    decreases s1.len(),
{
    if s1.len() == 0 || s2.len() == 0 {
        0
    } else if s1[0] == s2[0] {
        1 + lcp(s1.drop_first(), s2.drop_first())
    } else {
        0
    }
}

/// The longest common prefix never outruns either sequence, matches
/// character-wise, and ends at the first difference.
pub proof fn lemma_lcp_characterises(s1: Seq<char>, s2: Seq<char>)
    ensures
        lcp(s1, s2) <= s1.len(),
        lcp(s1, s2) <= s2.len(),
        forall|j: int| 0 <= j < lcp(s1, s2) ==> s1[j] == s2[j],
        lcp(s1, s2) < s1.len() && lcp(s1, s2) < s2.len() ==> s1[lcp(s1, s2) as int] != s2[lcp(
            s1,
            s2,
        ) as int],
    decreases s1.len(),
{
    if s1.len() > 0 && s2.len() > 0 && s1[0] == s2[0] {
        lemma_lcp_characterises(s1.drop_first(), s2.drop_first());
        assert forall|j: int| 0 <= j < lcp(s1, s2) implies s1[j] == s2[j] by {
            if j >= 1 {
                assert(s1.drop_first()[j - 1] == s1[j]);
                assert(s2.drop_first()[j - 1] == s2[j]);
            }
        }
        if lcp(s1, s2) < s1.len() && lcp(s1, s2) < s2.len() {
            assert(s1.drop_first()[lcp(s1, s2) - 1] == s1[lcp(s1, s2) as int]);
            assert(s2.drop_first()[lcp(s1, s2) - 1] == s2[lcp(s1, s2) as int]);
        }
    }
}

/// Return length of longest common prefix.
pub fn len(s1: &[char], s2: &[char]) -> (r: usize)
    ensures
        r == lcp(s1@, s2@),
{
    let n1 = s1.len();
    let n2 = s2.len();
    let mut i: usize = 0;
    proof {
        assert(s1@.skip(0) =~= s1@);
        assert(s2@.skip(0) =~= s2@);
    }
    loop
        invariant
            i <= n1,
            i <= n2,
            n1 == s1@.len(),
            n2 == s2@.len(),
            lcp(s1@, s2@) == i + lcp(s1@.skip(i as int), s2@.skip(i as int)),
        decreases n1 - i,
    {
        if i >= n1 || i >= n2 {
            proof {
                assert(s1@.skip(i as int).len() == 0 || s2@.skip(i as int).len() == 0);
            }
            return i;
        }
        proof {
            assert(s1@.skip(i as int)[0] == s1@[i as int]);
            assert(s2@.skip(i as int)[0] == s2@[i as int]);
            assert(s1@.skip(i as int).drop_first() =~= s1@.skip(i + 1));
            assert(s2@.skip(i as int).drop_first() =~= s2@.skip(i + 1));
        }
        if s1[i] != s2[i] {
            return i;
        }
        i = i + 1;
    }
}

/// The length of the longest common prefix that ends with `end`:
/// the largest `j` within the common prefix with `s1[j - 1] == end`,
/// or zero if no such position exists.
pub fn len_ending(s1: &[char], s2: &[char], end: char) -> (r: usize)
    ensures
        r <= lcp(s1@, s2@),
        r > 0 ==> s1@[r - 1] == end,
        forall|j: int| r < j <= lcp(s1@, s2@) ==> #[trigger] s1@[j - 1] != end,
{
    let common = len(s1, s2);
    proof {
        lemma_lcp_characterises(s1@, s2@);
    }
    let mut best: usize = 0;
    let mut i: usize = 0;
    while i < common
        invariant
            i <= common,
            common == lcp(s1@, s2@),
            common <= s1@.len(),
            best <= i,
            best > 0 ==> s1@[best - 1] == end,
            forall|j: int| best < j <= i ==> #[trigger] s1@[j - 1] != end,
        decreases common - i,
    {
        if s1[i] == end {
            best = i + 1;
        }
        i = i + 1;
    }
    best
}

} // verus!
