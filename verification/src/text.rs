//! Plain-text utilities: prefix and substring tests, whitespace
//! splitting, and single-character edits — what the repository filter and
//! the path display are made of.

use vstd::prelude::*;

verus! {

/// `p` is an initial segment of `s`.
pub open spec fn is_prefix(p: Seq<char>, s: Seq<char>) -> bool {
    p.len() <= s.len() && s.take(p.len() as int) == p
}

/// Whether `s` starts with `prefix`, character-wise.
pub fn starts_with(s: &str, prefix: &str) -> (r: bool)
    ensures
        r == is_prefix(prefix@, s@),
{
    let n = s.unicode_len();
    let pn = prefix.unicode_len();
    if pn > n {
        proof {
            assert(!is_prefix(prefix@, s@));
        }
        return false;
    }
    let mut i: usize = 0;
    while i < pn
        invariant
            i <= pn,
            pn <= n,
            n == s@.len(),
            pn == prefix@.len(),
            forall|j: int| 0 <= j < i ==> s@[j] == prefix@[j],
        decreases pn - i,
    {
        if s.get_char(i) != prefix.get_char(i) {
            proof {
                assert(s@.take(pn as int)[i as int] == s@[i as int]);
            }
            return false;
        }
        i = i + 1;
    }
    proof {
        assert(s@.take(pn as int) =~= prefix@);
    }
    true
}

/// `needle` occurs in `hay` starting at position `i`.
pub open spec fn occurs_at(hay: Seq<char>, needle: Seq<char>, i: int) -> bool {
    0 <= i && i + needle.len() <= hay.len() && hay.subrange(i, i + needle.len()) == needle
}

/// `needle` occurs somewhere in `hay` (everywhere, if empty).
pub open spec fn is_substring(hay: Seq<char>, needle: Seq<char>) -> bool {
    exists|i: int| occurs_at(hay, needle, i)
}

/// Whether `needle` occurs in `hay`, character-wise.
pub fn contains_str(hay: &str, needle: &str) -> (r: bool)
    ensures
        r == is_substring(hay@, needle@),
{
    let n = hay.unicode_len();
    let m = needle.unicode_len();
    if m > n {
        proof {
            assert(!is_substring(hay@, needle@));
        }
        return false;
    }
    if m == 0 {
        proof {
            assert(hay@.subrange(0, 0) =~= needle@);
            assert(occurs_at(hay@, needle@, 0));
        }
        return true;
    }
    let mut i: usize = 0;
    while i <= n - m
        invariant
            m <= n,
            n == hay@.len(),
            m == needle@.len(),
            i <= n - m + 1,
            m >= 1,
            forall|k: int| 0 <= k < i ==> !occurs_at(hay@, needle@, k),
        decreases n - m + 1 - i,
    {
        let mut j: usize = 0;
        let mut mismatch = false;
        while j < m
            invariant
                j <= m,
                i + m <= n,
                n == hay@.len(),
                m == needle@.len(),
                !mismatch ==> forall|l: int| 0 <= l < j ==> hay@[i + l] == needle@[l],
                mismatch ==> !occurs_at(hay@, needle@, i as int),
            decreases m - j,
        {
            if hay.get_char(i + j) != needle.get_char(j) {
                proof {
                    if occurs_at(hay@, needle@, i as int) {
                        assert(hay@.subrange(i as int, i + needle@.len())[j as int] == hay@[i + j]);
                    }
                }
                mismatch = true;
            }
            j = j + 1;
        }
        if !mismatch {
            proof {
                assert(hay@.subrange(i as int, i + needle@.len()) =~= needle@);
                assert(occurs_at(hay@, needle@, i as int));
            }
            return true;
        }
        i = i + 1;
    }
    proof {
        assert forall|k: int| !occurs_at(hay@, needle@, k) by {
            if occurs_at(hay@, needle@, k) {
                assert(0 <= k <= n - m);
            }
        }
    }
    false
}

/// A path passes when every filter word occurs in it.
pub open spec fn passes_filters(path: Seq<char>, filters: Seq<Seq<char>>) -> bool {
    forall|k: int| 0 <= k < filters.len() ==> is_substring(path, #[trigger] filters[k])
}

/// Whether every filter word occurs in `path`.
pub fn matches_filters(path: &str, filters: &Vec<String>) -> (r: bool)
    ensures
        r == passes_filters(path@, crate::traversal::strings_view(filters@)),
{
    let ghost fv = crate::traversal::strings_view(filters@);
    let mut k: usize = 0;
    while k < filters.len()
        invariant
            k <= filters@.len(),
            fv == crate::traversal::strings_view(filters@),
            fv.len() == filters@.len(),
            forall|l: int| 0 <= l < k ==> is_substring(path@, #[trigger] fv[l]),
        decreases filters@.len() - k,
    {
        if !contains_str(path, filters[k].as_str()) {
            proof {
                assert(!is_substring(path@, fv[k as int]));
            }
            return false;
        }
        k = k + 1;
    }
    true
}

/// Position of the first occurrence of `sep`, or the length if there is
/// none.
pub open spec fn first_sep(s: Seq<char>, sep: char) -> nat
    decreases s.len(),
{
    if s.len() == 0 {
        0
    } else if s[0] == sep {
        0
    } else {
        1 + first_sep(s.drop_first(), sep)
    }
}

proof fn lemma_first_sep_bound(s: Seq<char>, sep: char)
    ensures
        first_sep(s, sep) <= s.len(),
        first_sep(s, sep) < s.len() ==> s[first_sep(s, sep) as int] == sep,
        forall|j: int| 0 <= j < first_sep(s, sep) ==> s[j] != sep,
    decreases s.len(),
{
    if s.len() > 0 && s[0] != sep {
        lemma_first_sep_bound(s.drop_first(), sep);
        assert forall|j: int| 0 <= j < first_sep(s, sep) implies s[j] != sep by {
            if j >= 1 {
                assert(s.drop_first()[j - 1] == s[j]);
            }
        }
        if first_sep(s, sep) < s.len() {
            assert(s.drop_first()[first_sep(s, sep) - 1] == s[first_sep(s, sep) as int]);
        }
    }
}

/// Splitting on single separators: the words between them, in order,
/// empty words included — an empty input is one empty word.
pub open spec fn split_char_spec(s: Seq<char>, sep: char) -> Seq<Seq<char>>
    decreases s.len(),
    via split_char_spec_decreases
{
    if first_sep(s, sep) >= s.len() {
        seq![s]
    } else {
        seq![s.take(first_sep(s, sep) as int)] + split_char_spec(
            s.skip(first_sep(s, sep) as int + 1),
            sep,
        )
    }
}

#[via_fn]
proof fn split_char_spec_decreases(s: Seq<char>, sep: char) {
    lemma_first_sep_bound(s, sep);
}

/// Splitting the filter text on single spaces.
pub open spec fn split_spaces_spec(s: Seq<char>) -> Seq<Seq<char>> {
    split_char_spec(s, ' ')
}

/// The first separator of a separator-free word extended by a separator
/// and a tail is exactly at the word's end.
proof fn lemma_first_sep_of_word(w: Seq<char>, tail: Seq<char>, sep: char)
    requires
        forall|j: int| 0 <= j < w.len() ==> w[j] != sep,
        tail.len() > 0 ==> tail[0] == sep,
    ensures
        first_sep(w + tail, sep) == w.len(),
    decreases w.len(),
{
    let s = w + tail;
    if w.len() == 0 {
        assert(s =~= tail);
        if tail.len() > 0 {
            assert(first_sep(tail, sep) == 0);
        }
    } else {
        assert(s[0] == w[0]);
        assert(s[0] != sep);
        assert(s.drop_first() =~= w.drop_first() + tail);
        lemma_first_sep_of_word(w.drop_first(), tail, sep);
    }
}

/// Relies on std's `FromIterator<char> for String`: collecting characters
/// yields the string of exactly those characters, in order.
#[verifier::external_body]
pub(crate) fn chars_to_string(v: &Vec<char>) -> (r: String)
    ensures
        r@ == v@,
{
    v.iter().collect()
}

/// The characters of a string, as a vector.
pub fn str_to_chars(s: &str) -> (r: Vec<char>)
    ensures
        r@ == s@,
{
    let n = s.unicode_len();
    let mut out: Vec<char> = Vec::new();
    let mut i: usize = 0;
    while i < n
        invariant
            i <= n,
            n == s@.len(),
            out@ =~= s@.take(i as int),
        decreases n - i,
    {
        out.push(s.get_char(i));
        proof {
            assert(out@ =~= s@.take(i + 1));
        }
        i = i + 1;
    }
    proof {
        assert(s@.take(n as int) =~= s@);
    }
    out
}

/// The string extended by one character at its end.
pub fn push_char(s: &str, c: char) -> (r: String)
    ensures
        r@ == s@.push(c),
{
    let mut chars = str_to_chars(s);
    chars.push(c);
    proof {
        assert(chars@ =~= s@.push(c));
    }
    chars_to_string(&chars)
}

/// The string with its last character removed; an empty string stays
/// empty.
pub fn pop_char(s: &str) -> (r: String)
    ensures
        s@.len() == 0 ==> r@ == s@,
        s@.len() > 0 ==> r@ == s@.take(s@.len() - 1),
{
    let n = s.unicode_len();
    if n == 0 {
        s.to_owned()
    } else {
        s.substring_char(0, n - 1).to_owned()
    }
}

/// Split on single spaces, exactly as [`split_spaces_spec`] describes.
pub fn split_spaces(s: &str) -> (r: Vec<String>)
    ensures
        crate::traversal::strings_view(r@) == split_spaces_spec(s@),
{
    split_char(s, ' ')
}

/// Split on single separators, exactly as [`split_char_spec`] describes.
pub fn split_char(s: &str, sep: char) -> (r: Vec<String>)
    ensures
        crate::traversal::strings_view(r@) == split_char_spec(s@, sep),
{
    let ghost sv = s@;
    let n = s.unicode_len();
    let mut out: Vec<String> = Vec::new();
    let mut cur: Vec<char> = Vec::new();
    let mut i: usize = 0;
    proof {
        assert(cur@ + sv.skip(0) =~= sv);
    }
    while i < n
        invariant
            i <= n,
            n == sv.len(),
            s@ == sv,
            forall|j: int| 0 <= j < cur@.len() ==> cur@[j] != sep,
            split_char_spec(sv, sep) == crate::traversal::strings_view(out@) + split_char_spec(
                cur@ + sv.skip(i as int),
                sep,
            ),
        decreases n - i,
    {
        let c = s.get_char(i);
        if c == sep {
            proof {
                let tail = sv.skip(i as int);
                assert(tail[0] == sep);
                lemma_first_sep_of_word(cur@, tail, sep);
                lemma_first_sep_bound(cur@ + tail, sep);
                assert((cur@ + tail).take(cur@.len() as int) =~= cur@);
                assert((cur@ + tail).skip(cur@.len() as int + 1) =~= sv.skip(i + 1));
                assert(split_char_spec(cur@ + tail, sep) == seq![cur@] + split_char_spec(
                    sv.skip(i + 1),
                    sep,
                ));
            }
            let word = chars_to_string(&cur);
            let ghost out0 = out@;
            out.push(word);
            proof {
                assert(crate::traversal::strings_view(out@)
                    =~= crate::traversal::strings_view(out0).push(cur@));
                assert(crate::traversal::strings_view(out0) + (seq![cur@] + split_char_spec(
                    sv.skip(i + 1),
                    sep,
                )) =~= crate::traversal::strings_view(out@) + split_char_spec(
                    sv.skip(i + 1),
                    sep,
                ));
                assert(Seq::<char>::empty() + sv.skip(i + 1) =~= sv.skip(i + 1));
            }
            cur = Vec::new();
        } else {
            let ghost cur0 = cur@;
            cur.push(c);
            proof {
                assert(cur@ =~= cur0.push(c));
                assert(cur0.push(c) + sv.skip(i + 1) =~= cur0 + sv.skip(i as int)) by {
                    assert(sv.skip(i as int)[0] == sv[i as int]);
                    assert forall|l: int|
                        0 <= l < cur0.len() + (sv.len() - i) implies (cur0.push(c) + sv.skip(i + 1))[l]
                        == (cur0 + sv.skip(i as int))[l] by {
                        if l < cur0.len() {
                        } else if l == cur0.len() {
                            assert((cur0 + sv.skip(i as int))[l] == sv[i as int]);
                        } else {
                            assert((cur0 + sv.skip(i as int))[l] == sv.skip(i as int)[l
                                - cur0.len()]);
                            assert((cur0.push(c) + sv.skip(i + 1))[l] == sv.skip(i + 1)[l
                                - cur0.len() - 1]);
                        }
                    }
                }
            }
        }
        i = i + 1;
    }
    proof {
        let tail = sv.skip(i as int);
        assert(tail.len() == 0);
        assert(cur@ + tail =~= cur@);
        lemma_first_sep_of_word(cur@, Seq::empty(), sep);
        assert(cur@ + Seq::<char>::empty() =~= cur@);
        lemma_first_sep_bound(cur@, sep);
        assert(split_char_spec(cur@, sep) == seq![cur@]);
    }
    let word = chars_to_string(&cur);
    let ghost out0 = out@;
    out.push(word);
    proof {
        assert(crate::traversal::strings_view(out@) =~= crate::traversal::strings_view(out0).push(
            cur@,
        ));
        assert(crate::traversal::strings_view(out0) + seq![cur@] =~= crate::traversal::strings_view(
            out@,
        ));
    }
    out
}

} // verus!
