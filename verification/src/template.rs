//! Percent-oriented templating: `%` followed by any character is
//! substituted by the string registered for that character, `%%` is a
//! literal percent, and a template is rejected exactly when it ends in a
//! dangling `%` or names a character with no registered value.

use vstd::prelude::*;

use crate::text::{chars_to_string, push_char};

verus! {

/// Why a template cannot be formatted.
#[derive(PartialEq, Eq, Structural, Clone, Copy, Debug)]
pub enum Error {
    /// `%` was followed by a character with no registered value.
    UnknownFormatCharacter(char),
    /// The template ended in an unfinished percent sequence.
    TrailingPercent,
}

impl Error {
    /// A human-readable rendering of the error.
    pub fn message(&self) -> (m: String)
        ensures
            match *self {
                Error::UnknownFormatCharacter(c) => m@ == "Unknown format character "@.push(c),
                Error::TrailingPercent => m@ == "Malformed percent sequence at end of string"@,
            },
    {
        match self {
            Error::UnknownFormatCharacter(c) => push_char("Unknown format character ", *c),
            Error::TrailingPercent => "Malformed percent sequence at end of string".to_owned(),
        }
    }
}

/// First-match lookup in an association list of substitution values.
pub open spec fn lookup(m: Seq<(char, Seq<char>)>, c: char) -> Option<Seq<char>>
    decreases m.len(),
{
    if m.len() == 0 {
        Option::None
    } else if m[0].0 == c {
        Option::Some(m[0].1)
    } else {
        lookup(m.drop_first(), c)
    }
}

/// The views of an association list of substitution values.
pub open spec fn values_view(v: Seq<(char, String)>) -> Seq<(char, Seq<char>)> {
    v.map_values(|p: (char, String)| (p.0, p.1@))
}

/// Prefix a formatted tail with already-produced output.
pub open spec fn prepend(v: Seq<char>, r: Result<Seq<char>, Error>) -> Result<Seq<char>, Error> {
    match r {
        Ok(t) => Ok(v + t),
        Err(e) => Err(e),
    }
}

/// What formatting a template means: every `%c` replaced by the value
/// registered for `c`, `%%` by `%`, all other characters kept; the first
/// unknown format character or a trailing `%` is the error.
pub open spec fn format_spec(s: Seq<char>, m: Seq<(char, Seq<char>)>) -> Result<Seq<char>, Error>
    decreases s.len(),
{
    if s.len() == 0 {
        Ok(Seq::empty())
    } else if s[0] == '%' {
        if s.len() == 1 {
            Err(Error::TrailingPercent)
        } else if s[1] == '%' {
            prepend(seq!['%'], format_spec(s.skip(2), m))
        } else {
            match lookup(m, s[1]) {
                Option::Some(v) => prepend(v, format_spec(s.skip(2), m)),
                Option::None => Err(Error::UnknownFormatCharacter(s[1])),
            }
        }
    } else {
        prepend(seq![s[0]], format_spec(s.skip(1), m))
    }
}

/// First-match lookup of the value registered for `c`.
fn lookup_value<'a>(values: &'a Vec<(char, String)>, c: char) -> (r: Option<&'a String>)
    ensures
        match r {
            Some(s) => lookup(values_view(values@), c) == Option::Some(s@),
            None => lookup(values_view(values@), c) is None,
        },
{
    let ghost mv = values_view(values@);
    let mut i: usize = 0;
    proof {
        assert(mv.skip(0) =~= mv);
    }
    loop
        invariant
            i <= values@.len(),
            mv == values_view(values@),
            mv.len() == values@.len(),
            lookup(mv, c) == lookup(mv.skip(i as int), c),
        decreases values@.len() - i,
    {
        if i >= values.len() {
            proof {
                assert(mv.skip(i as int).len() == 0);
            }
            return None;
        }
        proof {
            assert(mv.skip(i as int)[0] == mv[i as int]);
            assert(mv.skip(i as int).drop_first() =~= mv.skip(i + 1));
        }
        if values[i].0 == c {
            return Some(&values[i].1);
        }
        i = i + 1;
    }
}

/// Format `format_str` against the registered values, exactly as
/// [`format_spec`] describes.
pub fn format(format_str: &str, values: &Vec<(char, String)>) -> (r: Result<String, Error>)
    ensures
        match r {
            Ok(out) => format_spec(format_str@, values_view(values@)) == Ok::<Seq<char>, Error>(
                out@,
            ),
            Err(e) => format_spec(format_str@, values_view(values@)) == Err::<Seq<char>, Error>(e),
        },
{
    let s = format_str;
    let n = s.unicode_len();
    let ghost sv = s@;
    let ghost mv = values_view(values@);
    let mut out: Vec<char> = Vec::new();
    let mut percent = false;
    let mut i: usize = 0;
    proof {
        assert(sv.skip(0) =~= sv);
    }
    while i < n
        invariant
            i <= n,
            n == sv.len(),
            s@ == sv,
            format_str@ == sv,
            mv == values_view(values@),
            !percent ==> format_spec(sv, mv) == prepend(out@, format_spec(sv.skip(i as int), mv)),
            percent ==> i >= 1 && sv[i - 1] == '%' && format_spec(sv, mv) == prepend(
                out@,
                format_spec(sv.skip(i - 1), mv),
            ),
        decreases n - i,
    {
        let c = s.get_char(i);
        proof {
            assert(sv.skip(i as int)[0] == sv[i as int]);
            assert(sv.skip(i as int).skip(1) =~= sv.skip(i + 1));
            if i >= 1 {
                assert(sv.skip(i - 1)[0] == sv[i - 1]);
                if i < sv.len() {
                    assert(sv.skip(i - 1)[1] == sv[i as int]);
                }
                assert(sv.skip(i - 1).skip(2) =~= sv.skip(i + 1));
            }
        }
        if c == '%' {
            if percent {
                let ghost out0 = out@;
                out.push('%');
                percent = false;
                proof {
                    assert(format_spec(sv.skip(i - 1), mv) == prepend(
                        seq!['%'],
                        format_spec(sv.skip(i + 1), mv),
                    ));
                    lemma_prepend_assoc(out0, seq!['%'], format_spec(sv.skip(i + 1), mv));
                    assert(out@ =~= out0 + seq!['%']);
                }
            } else {
                percent = true;
            }
        } else if percent {
            match lookup_value(values, c) {
                Some(v) => {
                    let ghost out0 = out@;
                    let ghost vv = v@;
                    let vs = v.as_str();
                    let vn = vs.unicode_len();
                    let mut k: usize = 0;
                    while k < vn
                        invariant
                            k <= vn,
                            vn == vv.len(),
                            vs@ == vv,
                            out@ =~= out0 + vv.take(k as int),
                        decreases vn - k,
                    {
                        out.push(vs.get_char(k));
                        proof {
                            assert(out@ =~= out0 + vv.take(k + 1));
                        }
                        k = k + 1;
                    }
                    percent = false;
                    proof {
                        assert(vv.take(vn as int) =~= vv);
                        assert(out@ =~= out0 + vv);
                        assert(format_spec(sv.skip(i - 1), mv) == prepend(
                            vv,
                            format_spec(sv.skip(i + 1), mv),
                        ));
                        lemma_prepend_assoc(out0, vv, format_spec(sv.skip(i + 1), mv));
                    }
                }
                None => {
                    proof {
                        assert(format_spec(sv.skip(i - 1), mv) == Err::<Seq<char>, Error>(
                            Error::UnknownFormatCharacter(sv[i as int]),
                        ));
                        assert(format_spec(sv, mv) == prepend(
                            out@,
                            format_spec(sv.skip(i - 1), mv),
                        ));
                        assert(format_spec(sv, mv) == Err::<Seq<char>, Error>(
                            Error::UnknownFormatCharacter(c),
                        ));
                    }
                    return Err(Error::UnknownFormatCharacter(c));
                }
            }
        } else {
            let ghost out0 = out@;
            out.push(c);
            proof {
                assert(format_spec(sv.skip(i as int), mv) == prepend(
                    seq![sv[i as int]],
                    format_spec(sv.skip(i + 1), mv),
                ));
                lemma_prepend_assoc(out0, seq![sv[i as int]], format_spec(sv.skip(i + 1), mv));
                assert(out@ =~= out0 + seq![sv[i as int]]);
            }
        }
        i = i + 1;
    }
    if percent {
        proof {
            assert(sv.skip(i - 1).len() == 1);
            assert(sv.skip(i - 1)[0] == '%');
            assert(format_spec(sv.skip(i - 1), mv) == Err::<Seq<char>, Error>(
                Error::TrailingPercent,
            ));
        }
        Err(Error::TrailingPercent)
    } else {
        proof {
            assert(sv.skip(i as int).len() == 0);
            assert(format_spec(sv.skip(i as int), mv) == Ok::<Seq<char>, Error>(Seq::empty()));
            assert(out@ + Seq::<char>::empty() =~= out@);
        }
        Ok(chars_to_string(&out))
    }
}

proof fn lemma_prepend_assoc(a: Seq<char>, b: Seq<char>, r: Result<Seq<char>, Error>)
    ensures
        prepend(a, prepend(b, r)) == prepend(a + b, r),
{
    match r {
        Ok(t) => {
            assert(a + (b + t) =~= (a + b) + t);
        }
        Err(_) => {
        }
    }
}

} // verus!
