//! Paths as text, with `/` as the separator: their last components.

use crate::text::{chars_of, string_of_range};
use vstd::prelude::*;

verus! {

/// `path` without the separators and `.` components at its end.
pub open spec fn trimmed_path(path: Seq<char>) -> Seq<char>
    decreases path.len(),
{
    if path.len() > 0 && (path.last() == '/' || (path.last() == '.' && (path.len() == 1
        || path[path.len() - 2] == '/'))) {
        trimmed_path(path.drop_last())
    } else {
        path
    }
}

/// The position after the last `/` in `s[..e]`, or 0.
pub open spec fn segment_start(s: Seq<char>, e: int) -> int
    decreases e,
{
    if e <= 0 {
        0
    } else if s[e - 1] == '/' {
        e
    } else {
        segment_start(s, e - 1)
    }
}

/// The file name of a path: its last component, when that is a name (not
/// `..`, and not missing as in `/` or `.`).
pub open spec fn file_name(path: Seq<char>) -> Option<Seq<char>> {
    let t = trimmed_path(path);
    let seg = t.subrange(segment_start(t, t.len() as int), t.len() as int);
    if seg.len() == 0 || seg == seq!['.', '.'] {
        None
    } else {
        Some(seg)
    }
}

proof fn lemma_segment_start(s: Seq<char>, e: int)
    requires
        0 <= e <= s.len(),
    ensures
        0 <= segment_start(s, e) <= e,
    decreases e,
{
    if e > 0 && s[e - 1] != '/' {
        lemma_segment_start(s, e - 1);
    }
}

/// The file name of the path `path`, which a path field keeps of what it
/// reads; `None` when the path has none.
pub fn path_file_name(path: &str) -> (r: Option<String>)
    ensures
        match r {
            Some(n) => file_name(path@) == Some(n@),
            None => file_name(path@) is None,
        },
{
    let cs = chars_of(path);
    let mut e: usize = cs.len();
    assert(cs@.subrange(0, e as int) =~= cs@);
    while e > 0 && (cs[e - 1] == '/' || (cs[e - 1] == '.' && (e == 1 || cs[e - 2] == '/')))
        invariant
            e <= cs@.len(),
            trimmed_path(cs@.subrange(0, e as int)) == trimmed_path(cs@),
        decreases e,
    {
        assert(cs@.subrange(0, e as int).drop_last() =~= cs@.subrange(0, e - 1));
        e = e - 1;
    }
    let ghost t = cs@.subrange(0, e as int);
    assert(trimmed_path(t) == t);
    let mut b: usize = e;
    while b > 0 && cs[b - 1] != '/'
        invariant
            b <= e,
            e <= cs@.len(),
            t == cs@.subrange(0, e as int),
            segment_start(t, b as int) == segment_start(t, e as int),
        decreases b,
    {
        b = b - 1;
    }
    assert(segment_start(t, b as int) == b);
    let seg = string_of_range(&cs, b, e);
    assert(seg@ =~= t.subrange(b as int, t.len() as int));
    if seg.as_str().is_empty() || (e - b == 2 && cs[b] == '.' && cs[b + 1] == '.') {
        proof {
            if e - b == 2 && cs@[b as int] == '.' && cs@[b + 1] == '.' {
                assert(seg@ =~= seq!['.', '.']);
            }
        }
        None
    } else {
        proof {
            if seg@ == seq!['.', '.'] {
                assert(seg@[0] == cs@[b as int]);
            }
        }
        Some(seg)
    }
}

/// The position of the last `.` in `s[..e]`, or -1.
pub open spec fn last_dot(s: Seq<char>, e: int) -> int
    decreases e,
{
    if e <= 0 {
        -1
    } else if s[e - 1] == '.' {
        e - 1
    } else {
        last_dot(s, e - 1)
    }
}

/// The stem of a file name: what comes before its last `.`, unless that
/// `.` starts the name or there is none.
pub open spec fn stem_of(name: Seq<char>) -> Seq<char> {
    let d = last_dot(name, name.len() as int);
    if d <= 0 {
        name
    } else {
        name.subrange(0, d)
    }
}

/// The stem of the path's file name, when it has one.
pub fn file_stem(path: &str) -> (r: Option<String>)
    ensures
        match r {
            Some(s) => file_name(path@) matches Some(n) && s@ == stem_of(n),
            None => file_name(path@) is None,
        },
{
    match path_file_name(path) {
        Some(name) => {
            let cs = chars_of(name.as_str());
            let mut d: usize = cs.len();
            while d > 0 && cs[d - 1] != '.'
                invariant
                    d <= cs@.len(),
                    last_dot(cs@, d as int) == last_dot(cs@, cs@.len() as int),
                decreases d,
            {
                d = d - 1;
            }
            if d <= 1 {
                Some(name)
            } else {
                Some(string_of_range(&cs, 0, d - 1))
            }
        },
        None => None,
    }
}

} // verus!
