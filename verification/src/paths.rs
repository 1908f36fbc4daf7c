//! Backend-relative path arithmetic: joining path components and
//! home-directory expansion, on plain strings.

use vstd::prelude::*;

verus! {

/// Joining `child` onto `base`: an absolute `child` replaces `base`;
/// otherwise the two are separated by exactly one `/`.
pub open spec fn join_spec(base: Seq<char>, child: Seq<char>) -> Seq<char> {
    if child.len() > 0 && child[0] == '/' {
        child
    } else if base.len() == 0 {
        child
    } else if base[base.len() - 1] == '/' {
        base + child
    } else {
        base + seq!['/'] + child
    }
}

/// Join two path fragments as the platform path type does: `a` + `/` + `b`,
/// except that an absolute `b` stands alone, an empty `a` contributes
/// nothing, and no separator is doubled.
pub fn path_join(p1: &str, p2: &str) -> (r: String)
    ensures
        r@ == join_spec(p1@, p2@),
{
    let p1_len = p1.unicode_len();
    let p2_len = p2.unicode_len();
    if p2_len > 0 && p2.get_char(0) == '/' {
        p2.to_owned()
    } else if p1_len == 0 {
        p2.to_owned()
    } else if p1.get_char(p1_len - 1) == '/' {
        p1.to_owned().concat(p2)
    } else {
        let sep = "/";
        proof {
            reveal_strlit("/");
            assert(sep@ =~= seq!['/']);
        }
        p1.to_owned().concat(sep).concat(p2)
    }
}

/// Home-directory expansion: a path that is exactly `~`, or starts with
/// `~/`, has the tilde replaced by `home`; anything else is unchanged.
pub open spec fn tilde_spec(p: Seq<char>, home: Seq<char>) -> Seq<char> {
    if p =~= seq!['~'] {
        home
    } else if p.len() >= 2 && p[0] == '~' && p[1] == '/' {
        home + p.skip(1)
    } else {
        p
    }
}

/// Expand a leading tilde to the given home directory.
///
/// The home directory is handed in by the caller: what it is on a given
/// machine is the environment's business, not the library's.
pub fn expand_tilde(p: &str, home: &str) -> (r: String)
    ensures
        r@ == tilde_spec(p@, home@),
{
    let p_len = p.unicode_len();
    if p_len == 1 && p.get_char(0) == '~' {
        proof {
            assert(p@ =~= seq!['~']);
        }
        home.to_owned()
    } else if p_len >= 2 && p.get_char(0) == '~' && p.get_char(1) == '/' {
        proof {
            assert(!(p@ =~= seq!['~']));
        }
        let r = home.to_owned().concat(p.substring_char(1, p_len));
        proof {
            assert(p@.subrange(1, p_len as int) =~= p@.skip(1));
        }
        r
    } else {
        proof {
            if p@ =~= seq!['~'] {
                assert(p@.len() == 1);
                assert(p@[0] == '~');
                assert(false);
            }
        }
        p.to_owned()
    }
}

} // verus!
