//! Extracting a repository's configured remotes from its configuration
//! text: each `[remote "NAME"]` section contributes one remote per `url`
//! entry it holds.  Reading the file from the repository's git directory
//! is the caller's business; the text arrives here as a plain value.

use vstd::prelude::*;

use crate::model::{remotes_view, Remote, RemoteView};
use crate::text::{split_char, split_char_spec, is_prefix, starts_with};

verus! {

/// The number of leading blanks (spaces and tabs) of a line.
pub open spec fn first_content(s: Seq<char>) -> nat
    decreases s.len(),
{
    if s.len() == 0 {
        0
    } else if s[0] == ' ' || s[0] == '\t' {
        1 + first_content(s.drop_first())
    } else {
        0
    }
}

proof fn lemma_first_content_bound(s: Seq<char>)
    ensures
        first_content(s) <= s.len(),
        forall|j: int| 0 <= j < first_content(s) ==> s[j] == ' ' || s[j] == '\t',
        first_content(s) < s.len() ==> s[first_content(s) as int] != ' ' && s[first_content(
            s,
        ) as int] != '\t',
    decreases s.len(),
{
    if s.len() > 0 && (s[0] == ' ' || s[0] == '\t') {
        lemma_first_content_bound(s.drop_first());
        assert forall|j: int| 0 <= j < first_content(s) implies s[j] == ' ' || s[j] == '\t' by {
            if j >= 1 {
                assert(s.drop_first()[j - 1] == s[j]);
            }
        }
        if first_content(s) < s.len() {
            assert(s.drop_first()[first_content(s) - 1] == s[first_content(s) as int]);
        }
    }
}

/// A line with its leading blanks removed.
pub open spec fn trimmed(s: Seq<char>) -> Seq<char> {
    s.skip(first_content(s) as int)
}

/// The name of the remote section a line opens: `[remote "NAME"]`.
pub open spec fn remote_header_name(line: Seq<char>) -> Option<Seq<char>> {
    let t = trimmed(line);
    if t.len() >= 11 && is_prefix("[remote \""@, t) && t[t.len() - 2] == '"' && t[t.len() - 1]
        == ']' {
        Some(t.subrange(9, t.len() - 2))
    } else {
        None
    }
}

/// The line opens some section.
pub open spec fn is_section(line: Seq<char>) -> bool {
    trimmed(line).len() > 0 && trimmed(line)[0] == '['
}

/// The url a line assigns: `url = VALUE`.
pub open spec fn url_value(line: Seq<char>) -> Option<Seq<char>> {
    let t = trimmed(line);
    if is_prefix("url = "@, t) {
        Some(t.skip(6))
    } else {
        None
    }
}

/// The remotes named by `lines[i..]`, given the remote section currently
/// open: a remote-section header opens a section, any other section
/// header closes it, and each `url` entry inside an open remote section
/// contributes one remote.
pub open spec fn remotes_from(lines: Seq<Seq<char>>, i: int, cur: Option<Seq<char>>) -> Seq<
    RemoteView,
>
    decreases lines.len() - i,
{
    if i < 0 || i >= lines.len() {
        Seq::empty()
    } else {
        let line = lines[i];
        match remote_header_name(line) {
            Some(n) => remotes_from(lines, i + 1, Some(n)),
            None => {
                if is_section(line) {
                    remotes_from(lines, i + 1, None)
                } else {
                    match (cur, url_value(line)) {
                        (Some(n), Some(u)) => seq![RemoteView { name: n, url: u }] + remotes_from(
                            lines,
                            i + 1,
                            cur,
                        ),
                        _ => remotes_from(lines, i + 1, cur),
                    }
                }
            }
        }
    }
}

/// Index of the first non-blank character of a line.
fn content_start(line: &str) -> (k: usize)
    ensures
        k == first_content(line@),
        k <= line@.len(),
{
    let n = line.unicode_len();
    let mut i: usize = 0;
    proof {
        assert(line@.skip(0) =~= line@);
    }
    loop
        invariant
            i <= n,
            n == line@.len(),
            first_content(line@) == i + first_content(line@.skip(i as int)),
        decreases n - i,
    {
        if i >= n {
            proof {
                assert(line@.skip(i as int).len() == 0);
            }
            return i;
        }
        let c = line.get_char(i);
        proof {
            assert(line@.skip(i as int)[0] == line@[i as int]);
            assert(line@.skip(i as int).drop_first() =~= line@.skip(i + 1));
        }
        if c != ' ' && c != '\t' {
            return i;
        }
        i = i + 1;
    }
}

/// The remote name if the line opens a remote section.
fn remote_header(line: &str) -> (r: Option<String>)
    ensures
        match r {
            Some(n) => remote_header_name(line@) == Some(n@),
            None => remote_header_name(line@) is None,
        },
{
    let n = line.unicode_len();
    let k = content_start(line);
    let t = line.substring_char(k, n);
    proof {
        assert(t@ =~= trimmed(line@));
    }
    let tn = t.unicode_len();
    let head = "[remote \"";
    if tn >= 11 && starts_with(t, head) && t.get_char(tn - 2) == '"' && t.get_char(tn - 1) == ']' {
        proof {
            reveal_strlit("[remote \"");
            assert(head@.len() == 9);
        }
        Some(t.substring_char(9, tn - 2).to_owned())
    } else {
        proof {
            reveal_strlit("[remote \"");
        }
        None
    }
}

/// Whether the line opens any section.
fn section_line(line: &str) -> (r: bool)
    ensures
        r == is_section(line@),
{
    let n = line.unicode_len();
    let k = content_start(line);
    proof {
        if k < n {
            assert(trimmed(line@)[0] == line@[k as int]);
        }
    }
    k < n && line.get_char(k) == '['
}

/// The url if the line assigns one.
fn url_of_line(line: &str) -> (r: Option<String>)
    ensures
        match r {
            Some(u) => url_value(line@) == Some(u@),
            None => url_value(line@) is None,
        },
{
    let n = line.unicode_len();
    let k = content_start(line);
    let t = line.substring_char(k, n);
    proof {
        assert(t@ =~= trimmed(line@));
    }
    let tn = t.unicode_len();
    let head = "url = ";
    if starts_with(t, head) {
        proof {
            reveal_strlit("url = ");
            assert(head@.len() == 6);
            assert(t@.subrange(6, tn as int) =~= t@.skip(6));
        }
        Some(t.substring_char(6, tn).to_owned())
    } else {
        proof {
            reveal_strlit("url = ");
        }
        None
    }
}

/// The open remote section, viewed.
pub open spec fn section_view(c: Option<String>) -> Option<Seq<char>> {
    match c {
        Some(s) => Some(s@),
        None => None,
    }
}

proof fn lemma_remotes_view_push(s: Seq<Remote>, x: Remote)
    ensures
        remotes_view(s.push(x)) =~= remotes_view(s).push(x@),
{
    assert forall|k: int| 0 <= k < s.len() + 1 implies #[trigger] remotes_view(s.push(x))[k]
        == remotes_view(s).push(x@)[k] by {
        if k < s.len() {
            assert(s.push(x)[k] == s[k]);
        } else {
            assert(s.push(x)[k] == x);
        }
    }
}

/// The remotes a repository's configuration text names, in order of their
/// `url` entries, exactly as [`remotes_from`] describes over its lines.
pub fn remotes_from_config(content: &str) -> (r: Vec<Remote>)
    ensures
        remotes_view(r@) == remotes_from(split_char_spec(content@, '\n'), 0, Option::None),
{
    let lines = split_char(content, '\n');
    let ghost lv = split_char_spec(content@, '\n');
    let mut out: Vec<Remote> = Vec::new();
    let mut cur: Option<String> = None;
    let mut i: usize = 0;
    while i < lines.len()
        invariant
            i <= lines@.len(),
            crate::traversal::strings_view(lines@) == lv,
            lines@.len() == lv.len(),
            remotes_from(lv, 0, Option::None) == remotes_view(out@) + remotes_from(
                lv,
                i as int,
                section_view(cur),
            ),
        decreases lines@.len() - i,
    {
        let line = &lines[i];
        proof {
            assert(lv[i as int] == line@);
        }
        match remote_header(line.as_str()) {
            Some(name) => {
                cur = Some(name);
            }
            None => {
                if section_line(line.as_str()) {
                    cur = None;
                } else {
                    let url = url_of_line(line.as_str());
                    let take_it = match (&cur, &url) {
                        (Some(_), Some(_)) => true,
                        _ => false,
                    };
                    if take_it {
                        let name = match &cur {
                            Some(n) => n.clone(),
                            None => String::new(),
                        };
                        let u = match url {
                            Some(u) => u,
                            None => String::new(),
                        };
                        let ghost out0 = out@;
                        let ghost rv = RemoteView { name: name@, url: u@ };
                        out.push(Remote::new(name, u));
                        proof {
                            let x = out@[out@.len() - 1];
                            assert(out@ == out0.push(x));
                            lemma_remotes_view_push(out0, x);
                            assert(x@ == rv);
                            assert(remotes_view(out0) + (seq![rv] + remotes_from(
                                lv,
                                i + 1,
                                section_view(cur),
                            )) =~= remotes_view(out0).push(rv) + remotes_from(
                                lv,
                                i + 1,
                                section_view(cur),
                            ));
                        }
                    }
                }
            }
        }
        i = i + 1;
    }
    proof {
        assert(remotes_from(lv, i as int, section_view(cur)) == Seq::<RemoteView>::empty());
        assert(remotes_view(out@) + Seq::<RemoteView>::empty() =~= remotes_view(out@));
    }
    out
}

} // verus!
