//! The sdists and wheels of a PyPI repository directory.

use crate::digest::{compute_hash, hex_lower, pypi_algorithm, pypi_algorithm_exec, digest_of};
use crate::pypi::version::{read_version, Version, VersionReading};
use crate::text::{char_at, chars_of, lit_at, lit_at_exec, string_of_range, text_is};
use crate::time::Timestamp;
use std::path::PathBuf;
use vstd::prelude::*;

verus! {

// ---------------------------------------------------------------------------
// File names
// ---------------------------------------------------------------------------

/// First `-` at or after `i`, or the end of `s`.
pub open spec fn next_dash(s: Seq<char>, i: int) -> int
    decreases s.len() - i,
{
    if 0 <= i < s.len() && s[i] != '-' {
        next_dash(s, i + 1)
    } else {
        i
    }
}

pub proof fn lemma_next_dash(s: Seq<char>, i: int)
    requires
        0 <= i <= s.len(),
    ensures
        i <= next_dash(s, i) <= s.len(),
        next_dash(s, i) < s.len() ==> s[next_dash(s, i)] == '-',
    decreases s.len() - i,
{
    if i < s.len() && s[i] != '-' {
        lemma_next_dash(s, i + 1);
    }
}

/// First line feed at or after `i`, or the end of `s`.
pub open spec fn next_newline(s: Seq<char>, i: int) -> int
    decreases s.len() - i,
{
    if 0 <= i < s.len() && s[i] != '\n' {
        next_newline(s, i + 1)
    } else {
        i
    }
}

/// The last position `k` in `lo..=hi` where `l` is written.
pub open spec fn last_lit_in(s: Seq<char>, l: Seq<char>, lo: int, hi: int) -> Option<int>
    decreases hi - lo + 1,
{
    if hi < lo {
        None
    } else if lit_at(s, hi, l) {
        Some(hi)
    } else {
        last_lit_in(s, l, lo, hi - 1)
    }
}

/// A decimal digit in the sense of Unicode (general category Nd).
pub open spec fn is_decimal_digit(c: char) -> bool {
    let v = c as u32;
    (0x30 <= v && v <= 0x39) ||
        (0x660 <= v && v <= 0x669) ||
        (0x6f0 <= v && v <= 0x6f9) ||
        (0x7c0 <= v && v <= 0x7c9) ||
        (0x966 <= v && v <= 0x96f) ||
        (0x9e6 <= v && v <= 0x9ef) ||
        (0xa66 <= v && v <= 0xa6f) ||
        (0xae6 <= v && v <= 0xaef) ||
        (0xb66 <= v && v <= 0xb6f) ||
        (0xbe6 <= v && v <= 0xbef) ||
        (0xc66 <= v && v <= 0xc6f) ||
        (0xce6 <= v && v <= 0xcef) ||
        (0xd66 <= v && v <= 0xd6f) ||
        (0xde6 <= v && v <= 0xdef) ||
        (0xe50 <= v && v <= 0xe59) ||
        (0xed0 <= v && v <= 0xed9) ||
        (0xf20 <= v && v <= 0xf29) ||
        (0x1040 <= v && v <= 0x1049) ||
        (0x1090 <= v && v <= 0x1099) ||
        (0x17e0 <= v && v <= 0x17e9) ||
        (0x1810 <= v && v <= 0x1819) ||
        (0x1946 <= v && v <= 0x194f) ||
        (0x19d0 <= v && v <= 0x19d9) ||
        (0x1a80 <= v && v <= 0x1a89) ||
        (0x1a90 <= v && v <= 0x1a99) ||
        (0x1b50 <= v && v <= 0x1b59) ||
        (0x1bb0 <= v && v <= 0x1bb9) ||
        (0x1c40 <= v && v <= 0x1c49) ||
        (0x1c50 <= v && v <= 0x1c59) ||
        (0xa620 <= v && v <= 0xa629) ||
        (0xa8d0 <= v && v <= 0xa8d9) ||
        (0xa900 <= v && v <= 0xa909) ||
        (0xa9d0 <= v && v <= 0xa9d9) ||
        (0xa9f0 <= v && v <= 0xa9f9) ||
        (0xaa50 <= v && v <= 0xaa59) ||
        (0xabf0 <= v && v <= 0xabf9) ||
        (0xff10 <= v && v <= 0xff19) ||
        (0x104a0 <= v && v <= 0x104a9) ||
        (0x10d30 <= v && v <= 0x10d39) ||
        (0x10d40 <= v && v <= 0x10d49) ||
        (0x11066 <= v && v <= 0x1106f) ||
        (0x110f0 <= v && v <= 0x110f9) ||
        (0x11136 <= v && v <= 0x1113f) ||
        (0x111d0 <= v && v <= 0x111d9) ||
        (0x112f0 <= v && v <= 0x112f9) ||
        (0x11450 <= v && v <= 0x11459) ||
        (0x114d0 <= v && v <= 0x114d9) ||
        (0x11650 <= v && v <= 0x11659) ||
        (0x116c0 <= v && v <= 0x116c9) ||
        (0x116d0 <= v && v <= 0x116e3) ||
        (0x11730 <= v && v <= 0x11739) ||
        (0x118e0 <= v && v <= 0x118e9) ||
        (0x11950 <= v && v <= 0x11959) ||
        (0x11bf0 <= v && v <= 0x11bf9) ||
        (0x11c50 <= v && v <= 0x11c59) ||
        (0x11d50 <= v && v <= 0x11d59) ||
        (0x11da0 <= v && v <= 0x11da9) ||
        (0x11f50 <= v && v <= 0x11f59) ||
        (0x16130 <= v && v <= 0x16139) ||
        (0x16a60 <= v && v <= 0x16a69) ||
        (0x16ac0 <= v && v <= 0x16ac9) ||
        (0x16b50 <= v && v <= 0x16b59) ||
        (0x16d70 <= v && v <= 0x16d79) ||
        (0x1ccf0 <= v && v <= 0x1ccf9) ||
        (0x1d7ce <= v && v <= 0x1d7ff) ||
        (0x1e140 <= v && v <= 0x1e149) ||
        (0x1e2f0 <= v && v <= 0x1e2f9) ||
        (0x1e4f0 <= v && v <= 0x1e4f9) ||
        (0x1e5f1 <= v && v <= 0x1e5fa) ||
        (0x1e950 <= v && v <= 0x1e959) ||
        (0x1fbf0 <= v && v <= 0x1fbf9)
}

pub open spec fn lit_tar_gz() -> Seq<char> {
    seq!['.', 't', 'a', 'r', '.', 'g', 'z']
}

pub open spec fn lit_whl() -> Seq<char> {
    seq!['.', 'w', 'h', 'l']
}

/// For a distribution name ending at the dash `h`: where the longest
/// version followed by `.tar.gz` ends.
pub open spec fn sdist_version_end(s: Seq<char>, h: int) -> Option<int> {
    last_lit_in(s, lit_tar_gz(), h + 2, next_dash(s, h + 1) - 1)
}

/// An sdist name `DIST-VERSION.tar.gz` found from `p`: the dash after the
/// distribution and the end of the version.
pub open spec fn sdist_at(s: Seq<char>, p: int) -> Option<(int, int)> {
    if !(0 <= p < s.len()) || s[p] == '-' {
        None
    } else {
        let h = next_dash(s, p);
        if h >= s.len() {
            None
        } else {
            match sdist_version_end(s, h) {
                Some(k) => Some((h, k)),
                None => None,
            }
        }
    }
}

/// The leftmost sdist name at or after `p`.
pub open spec fn sdist_search(s: Seq<char>, p: int) -> Option<(int, int, int)>
    decreases s.len() - p,
{
    if p < 0 || p >= s.len() {
        None
    } else {
        match sdist_at(s, p) {
            Some((h, k)) => Some((p, h, k)),
            None => sdist_search(s, p + 1),
        }
    }
}

/// The distribution and version of an sdist file name: the leftmost text
/// `DIST-VERSION.tar.gz` in `s`, with `DIST` and `VERSION` free of `-` and
/// `VERSION` as long as possible.
pub open spec fn sdist_name(s: Seq<char>) -> Option<(Seq<char>, Seq<char>)> {
    match sdist_search(s, 0) {
        Some((p, h, k)) => Some((s.subrange(p, h), s.subrange(h + 1, k))),
        None => None,
    }
}

/// `-PYTHON-ABI-PLATFORM.whl` at `j`, each tag non-empty and free of `-`.
pub open spec fn wheel_tags_at(s: Seq<char>, j: int) -> bool {
    let d1 = next_dash(s, j + 1);
    let d2 = next_dash(s, d1 + 1);
    &&& char_at(s, j, '-')
    &&& j + 1 < d1 < s.len()
    &&& d1 + 1 < d2 < s.len()
    &&& last_lit_in(s, lit_whl(), d2 + 2, next_dash(s, d2 + 1) - 1) is Some
}

/// Some position in `lo..=hi` starts the wheel tags.
pub open spec fn wheel_tags_in(s: Seq<char>, lo: int, hi: int) -> bool
    decreases hi - lo + 1,
{
    if hi < lo {
        false
    } else {
        wheel_tags_at(s, hi) || wheel_tags_in(s, lo, hi - 1)
    }
}

/// A build tag `-DIGIT...` at the dash `h2`, followed on the same line by
/// the wheel tags.
pub open spec fn wheel_build_at(s: Seq<char>, h2: int) -> bool {
    &&& char_at(s, h2, '-')
    &&& h2 + 1 < s.len()
    &&& is_decimal_digit(s[h2 + 1])
    &&& wheel_tags_in(s, h2 + 2, next_newline(s, h2 + 2))
}

/// A wheel name found from `p`: the dashes after the distribution and after
/// the version.
pub open spec fn wheel_at(s: Seq<char>, p: int) -> Option<(int, int)> {
    if !(0 <= p < s.len()) || s[p] == '-' {
        None
    } else {
        let h1 = next_dash(s, p);
        let h2 = next_dash(s, h1 + 1);
        if h1 < s.len() && h1 + 1 < h2 < s.len() && (wheel_build_at(s, h2) || wheel_tags_at(s, h2)) {
            Some((h1, h2))
        } else {
            None
        }
    }
}

pub open spec fn wheel_search(s: Seq<char>, p: int) -> Option<(int, int, int)>
    decreases s.len() - p,
{
    if p < 0 || p >= s.len() {
        None
    } else {
        match wheel_at(s, p) {
            Some((h1, h2)) => Some((p, h1, h2)),
            None => wheel_search(s, p + 1),
        }
    }
}

/// The distribution and version of a wheel file name: the leftmost text
/// `DIST-VERSION(-BUILD)?-PYTHON-ABI-PLATFORM.whl` in `s`, where `BUILD`
/// starts with a decimal digit and stays on one line and the other fields
/// are free of `-`.
pub open spec fn wheel_name(s: Seq<char>) -> Option<(Seq<char>, Seq<char>)> {
    match wheel_search(s, 0) {
        Some((p, h1, h2)) => Some((s.subrange(p, h1), s.subrange(h1 + 1, h2))),
        None => None,
    }
}

fn is_decimal_digit_exec(c: char) -> (r: bool)
    ensures
        r == is_decimal_digit(c),
{
    let v = c as u32;
    (0x30 <= v && v <= 0x39) ||
        (0x660 <= v && v <= 0x669) ||
        (0x6f0 <= v && v <= 0x6f9) ||
        (0x7c0 <= v && v <= 0x7c9) ||
        (0x966 <= v && v <= 0x96f) ||
        (0x9e6 <= v && v <= 0x9ef) ||
        (0xa66 <= v && v <= 0xa6f) ||
        (0xae6 <= v && v <= 0xaef) ||
        (0xb66 <= v && v <= 0xb6f) ||
        (0xbe6 <= v && v <= 0xbef) ||
        (0xc66 <= v && v <= 0xc6f) ||
        (0xce6 <= v && v <= 0xcef) ||
        (0xd66 <= v && v <= 0xd6f) ||
        (0xde6 <= v && v <= 0xdef) ||
        (0xe50 <= v && v <= 0xe59) ||
        (0xed0 <= v && v <= 0xed9) ||
        (0xf20 <= v && v <= 0xf29) ||
        (0x1040 <= v && v <= 0x1049) ||
        (0x1090 <= v && v <= 0x1099) ||
        (0x17e0 <= v && v <= 0x17e9) ||
        (0x1810 <= v && v <= 0x1819) ||
        (0x1946 <= v && v <= 0x194f) ||
        (0x19d0 <= v && v <= 0x19d9) ||
        (0x1a80 <= v && v <= 0x1a89) ||
        (0x1a90 <= v && v <= 0x1a99) ||
        (0x1b50 <= v && v <= 0x1b59) ||
        (0x1bb0 <= v && v <= 0x1bb9) ||
        (0x1c40 <= v && v <= 0x1c49) ||
        (0x1c50 <= v && v <= 0x1c59) ||
        (0xa620 <= v && v <= 0xa629) ||
        (0xa8d0 <= v && v <= 0xa8d9) ||
        (0xa900 <= v && v <= 0xa909) ||
        (0xa9d0 <= v && v <= 0xa9d9) ||
        (0xa9f0 <= v && v <= 0xa9f9) ||
        (0xaa50 <= v && v <= 0xaa59) ||
        (0xabf0 <= v && v <= 0xabf9) ||
        (0xff10 <= v && v <= 0xff19) ||
        (0x104a0 <= v && v <= 0x104a9) ||
        (0x10d30 <= v && v <= 0x10d39) ||
        (0x10d40 <= v && v <= 0x10d49) ||
        (0x11066 <= v && v <= 0x1106f) ||
        (0x110f0 <= v && v <= 0x110f9) ||
        (0x11136 <= v && v <= 0x1113f) ||
        (0x111d0 <= v && v <= 0x111d9) ||
        (0x112f0 <= v && v <= 0x112f9) ||
        (0x11450 <= v && v <= 0x11459) ||
        (0x114d0 <= v && v <= 0x114d9) ||
        (0x11650 <= v && v <= 0x11659) ||
        (0x116c0 <= v && v <= 0x116c9) ||
        (0x116d0 <= v && v <= 0x116e3) ||
        (0x11730 <= v && v <= 0x11739) ||
        (0x118e0 <= v && v <= 0x118e9) ||
        (0x11950 <= v && v <= 0x11959) ||
        (0x11bf0 <= v && v <= 0x11bf9) ||
        (0x11c50 <= v && v <= 0x11c59) ||
        (0x11d50 <= v && v <= 0x11d59) ||
        (0x11da0 <= v && v <= 0x11da9) ||
        (0x11f50 <= v && v <= 0x11f59) ||
        (0x16130 <= v && v <= 0x16139) ||
        (0x16a60 <= v && v <= 0x16a69) ||
        (0x16ac0 <= v && v <= 0x16ac9) ||
        (0x16b50 <= v && v <= 0x16b59) ||
        (0x16d70 <= v && v <= 0x16d79) ||
        (0x1ccf0 <= v && v <= 0x1ccf9) ||
        (0x1d7ce <= v && v <= 0x1d7ff) ||
        (0x1e140 <= v && v <= 0x1e149) ||
        (0x1e2f0 <= v && v <= 0x1e2f9) ||
        (0x1e4f0 <= v && v <= 0x1e4f9) ||
        (0x1e5f1 <= v && v <= 0x1e5fa) ||
        (0x1e950 <= v && v <= 0x1e959) ||
        (0x1fbf0 <= v && v <= 0x1fbf9)
}

fn next_dash_exec(cs: &Vec<char>, i: usize) -> (r: usize)
    requires
        i <= cs@.len(),
    ensures
        r == next_dash(cs@, i as int),
        i <= r <= cs@.len(),
{
    let mut j = i;
    while j < cs.len() && cs[j] != '-'
        invariant
            i <= j <= cs@.len(),
            next_dash(cs@, j as int) == next_dash(cs@, i as int),
        decreases cs.len() - j,
    {
        j = j + 1;
    }
    j
}

fn next_newline_exec(cs: &Vec<char>, i: usize) -> (r: usize)
    requires
        i <= cs@.len(),
    ensures
        r == next_newline(cs@, i as int),
        i <= r <= cs@.len(),
{
    let mut j = i;
    while j < cs.len() && cs[j] != '\n'
        invariant
            i <= j <= cs@.len(),
            next_newline(cs@, j as int) == next_newline(cs@, i as int),
        decreases cs.len() - j,
    {
        j = j + 1;
    }
    j
}

/// The last position in `lo..hi` (exclusive) where `l` is written.
fn last_lit_in_exec(cs: &Vec<char>, l: &[char], lo: usize, hi: usize) -> (r: Option<usize>)
    requires
        hi <= cs@.len() + 1,
    ensures
        match r {
            Some(k) => last_lit_in(cs@, l@, lo as int, hi - 1) == Some(k as int) && lo <= k < hi,
            None => last_lit_in(cs@, l@, lo as int, hi - 1) is None,
        },
{
    if hi <= lo {
        return None;
    }
    let mut k = hi;
    while k > lo
        invariant
            lo <= k <= hi,
            last_lit_in(cs@, l@, lo as int, hi - 1) == last_lit_in(cs@, l@, lo as int, k - 1),
        decreases k,
    {
        if lit_at_exec(cs, k - 1, l) {
            return Some(k - 1);
        }
        k = k - 1;
    }
    None
}

fn sdist_at_exec(cs: &Vec<char>, p: usize) -> (r: Option<(usize, usize)>)
    requires
        p < cs@.len(),
    ensures
        match r {
            Some((h, k)) => sdist_at(cs@, p as int) == Some((h as int, k as int)) && p <= h < k
                <= cs@.len(),
            None => sdist_at(cs@, p as int) is None,
        },
{
    let _n = cs.len();
    if cs[p] == '-' {
        return None;
    }
    let h = next_dash_exec(cs, p);
    if h >= cs.len() {
        return None;
    }
    let m = next_dash_exec(cs, h + 1);
    if m <= h + 1 {
        return None;
    }
    let l: &[char] = &['.', 't', 'a', 'r', '.', 'g', 'z'];
    assert(l@ =~= lit_tar_gz());
    match last_lit_in_exec(cs, l, h + 2, m) {
        Some(k) => Some((h, k)),
        None => None,
    }
}

/// The distribution and version of an sdist file name
/// (`DIST-VERSION.tar.gz`).
pub fn sdist_distribution(filename: &str) -> (r: Option<(String, String)>)
    ensures
        match sdist_name(filename@) {
            Some((d, v)) => r matches Some((rd, rv)) && rd@ == d && rv@ == v,
            None => r is None,
        },
{
    let cs = chars_of(filename);
    let mut p: usize = 0;
    while p < cs.len()
        invariant
            cs@ == filename@,
            p <= cs@.len(),
            sdist_search(cs@, 0) == sdist_search(cs@, p as int),
        decreases cs.len() - p,
    {
        match sdist_at_exec(&cs, p) {
            Some((h, k)) => {
                assert(h < k);
                return Some((string_of_range(&cs, p, h), string_of_range(&cs, h + 1, k)));
            },
            None => {},
        }
        p = p + 1;
    }
    None
}

fn wheel_tags_at_exec(cs: &Vec<char>, j: usize) -> (r: bool)
    requires
        j <= cs@.len(),
    ensures
        r == wheel_tags_at(cs@, j as int),
{
    let _n = cs.len();
    if !(j < cs.len() && cs[j] == '-') {
        return false;
    }
    let d1 = next_dash_exec(cs, j + 1);
    if !(j + 1 < d1 && d1 < cs.len()) {
        return false;
    }
    let d2 = next_dash_exec(cs, d1 + 1);
    if !(d1 + 1 < d2 && d2 < cs.len()) {
        return false;
    }
    let m = next_dash_exec(cs, d2 + 1);
    if m <= d2 + 1 {
        return false;
    }
    let l: &[char] = &['.', 'w', 'h', 'l'];
    assert(l@ =~= lit_whl());
    last_lit_in_exec(cs, l, d2 + 2, m).is_some()
}

fn wheel_tags_in_exec(cs: &Vec<char>, lo: usize, hi: usize) -> (r: bool)
    requires
        hi <= cs@.len(),
    ensures
        r == wheel_tags_in(cs@, lo as int, hi as int),
{
    if hi < lo {
        return false;
    }
    let mut k = hi;
    loop
        invariant
            lo <= k <= hi <= cs@.len(),
            wheel_tags_in(cs@, lo as int, hi as int) == wheel_tags_in(cs@, lo as int, k as int),
        decreases k,
    {
        if wheel_tags_at_exec(cs, k) {
            return true;
        }
        if k == lo {
            assert(!wheel_tags_in(cs@, lo as int, lo - 1));
            return false;
        }
        k = k - 1;
    }
}

fn wheel_at_exec(cs: &Vec<char>, p: usize) -> (r: Option<(usize, usize)>)
    requires
        p < cs@.len(),
    ensures
        match r {
            Some((h1, h2)) => wheel_at(cs@, p as int) == Some((h1 as int, h2 as int)) && p <= h1
                < h2
                <= cs@.len(),
            None => wheel_at(cs@, p as int) is None,
        },
{
    let _n = cs.len();
    if cs[p] == '-' {
        return None;
    }
    let h1 = next_dash_exec(cs, p);
    if h1 >= cs.len() {
        return None;
    }
    let h2 = next_dash_exec(cs, h1 + 1);
    if !(h1 + 1 < h2 && h2 < cs.len()) {
        return None;
    }
    proof {
        lemma_next_dash(cs@, h1 + 1);
    }
    let build = h2 + 1 < cs.len() && is_decimal_digit_exec(cs[h2 + 1]) && wheel_tags_in_exec(
        cs,
        h2 + 2,
        next_newline_exec(cs, h2 + 2),
    );
    if build || wheel_tags_at_exec(cs, h2) {
        Some((h1, h2))
    } else {
        None
    }
}

/// The distribution and version of a wheel file name
/// (`DIST-VERSION(-BUILD)?-PYTHON-ABI-PLATFORM.whl`).
pub fn wheel_distribution(filename: &str) -> (r: Option<(String, String)>)
    ensures
        match wheel_name(filename@) {
            Some((d, v)) => r matches Some((rd, rv)) && rd@ == d && rv@ == v,
            None => r is None,
        },
{
    let cs = chars_of(filename);
    let mut p: usize = 0;
    while p < cs.len()
        invariant
            cs@ == filename@,
            p <= cs@.len(),
            wheel_search(cs@, 0) == wheel_search(cs@, p as int),
        decreases cs.len() - p,
    {
        match wheel_at_exec(&cs, p) {
            Some((h1, h2)) => {
                return Some((string_of_range(&cs, p, h1), string_of_range(&cs, h1 + 1, h2)));
            },
            None => {},
        }
        p = p + 1;
    }
    None
}

// ---------------------------------------------------------------------------
// Project names
// ---------------------------------------------------------------------------

/// A project name with every run of `-`, `_` and `.` replaced by one `-`.
pub open spec fn normalized(s: Seq<char>) -> Seq<char>
    decreases s.len(),
{
    if s.len() == 0 {
        seq![]
    } else {
        let c = s.last();
        let prev = normalized(s.drop_last());
        if c == '-' || c == '_' || c == '.' {
            if s.len() >= 2 && (s[s.len() - 2] == '-' || s[s.len() - 2] == '_' || s[s.len() - 2]
                == '.') {
                prev
            } else {
                prev.push('-')
            }
        } else {
            prev.push(c)
        }
    }
}

pub open spec fn is_separator(c: char) -> bool {
    c == '-' || c == '_' || c == '.'
}

/// A normalized name: no `_` nor `.`, and no two `-` in a row.
pub open spec fn is_normal(t: Seq<char>) -> bool {
    &&& forall|i: int| 0 <= i < t.len() ==> #[trigger] t[i] != '_' && t[i] != '.'
    &&& forall|i: int| 0 < i < t.len() && #[trigger] t[i] == '-' ==> t[i - 1] != '-'
}

proof fn lemma_normalized_last(s: Seq<char>)
    requires
        s.len() > 0,
    ensures
        normalized(s).len() > 0,
        normalized(s).last() == if is_separator(s.last()) {
            '-'
        } else {
            s.last()
        },
    decreases s.len(),
{
    if is_separator(s.last()) && s.len() >= 2 && is_separator(s[s.len() - 2]) {
        lemma_normalized_last(s.drop_last());
    }
}

proof fn lemma_normalized_is_normal(s: Seq<char>)
    ensures
        is_normal(normalized(s)),
    decreases s.len(),
{
    if s.len() > 0 {
        let prev = normalized(s.drop_last());
        lemma_normalized_is_normal(s.drop_last());
        if s.len() >= 2 {
            lemma_normalized_last(s.drop_last());
        }
        let t = normalized(s);
        assert forall|i: int| 0 < i < t.len() && #[trigger] t[i] == '-' implies t[i - 1] != '-' by {
            if i < prev.len() {
                assert(t[i] == prev[i] && t[i - 1] == prev[i - 1]);
            }
        }
    }
}

proof fn lemma_normal_is_fixed(t: Seq<char>)
    requires
        is_normal(t),
    ensures
        normalized(t) == t,
    decreases t.len(),
{
    if t.len() > 0 {
        let p = t.drop_last();
        assert(is_normal(p)) by {
            assert forall|i: int| 0 < i < p.len() && #[trigger] p[i] == '-' implies p[i - 1] != '-' by {
                assert(t[i] == '-');
            }
        }
        lemma_normal_is_fixed(p);
        if t.len() >= 2 && t.last() == '-' {
            assert(t[t.len() - 1] == '-');
        }
        assert(p.push(t.last()) =~= t);
    }
}

/// Normalizing a normalized name changes nothing.
pub proof fn lemma_normalize_idempotent(s: Seq<char>)
    ensures
        normalized(normalized(s)) == normalized(s),
{
    lemma_normalized_is_normal(s);
    lemma_normal_is_fixed(normalized(s));
}

/// `name` with every run of `-`, `_` and `.` replaced by one `-`.
pub fn normalize(name: &str) -> (r: String)
    ensures
        r@ == normalized(name@),
{
    let cs = chars_of(name);
    let mut out = String::new();
    let mut i: usize = 0;
    while i < cs.len()
        invariant
            cs@ == name@,
            i <= cs@.len(),
            out@ == normalized(cs@.subrange(0, i as int)),
        decreases cs.len() - i,
    {
        let c = cs[i];
        let ghost pre = cs@.subrange(0, i + 1);
        assert(pre.drop_last() =~= cs@.subrange(0, i as int));
        if c == '-' || c == '_' || c == '.' {
            let p = i > 0 && (cs[i - 1] == '-' || cs[i - 1] == '_' || cs[i - 1] == '.');
            if !p {
                out.push('-');
            }
        } else {
            out.push(c);
        }
        i = i + 1;
    }
    assert(cs@.subrange(0, cs@.len() as int) =~= cs@);
    out
}

// ---------------------------------------------------------------------------
// The repository
// ---------------------------------------------------------------------------

#[derive(Debug, Clone, Copy, PartialEq, Eq, Structural)]
pub enum PackageType {
    Sdist,
    Wheel,
}

/// What the host reports of one entry of the repository directory.
pub struct FileEntry {
    pub path: PathBuf,
    pub filename: String,
    pub is_file: bool,
    pub size: usize,
    pub created_at: Option<Timestamp>,
    pub updated_at: Option<Timestamp>,
}

pub struct Package {
    pub path: PathBuf,
    pub filename: String,
    pub distribution: String,
    pub version: Version,
    pub size: usize,
    pub created_at: Option<Timestamp>,
    pub updated_at: Option<Timestamp>,
    /// Digests computed so far, by algorithm name; no name occurs twice.
    pub hashes: Vec<(String, String)>,
    pub ty: PackageType,
}

pub struct Packages {
    pub root: PathBuf,
    pub files: Vec<Package>,
}

/// How a file name is served: as a wheel when it reads as one, else as an
/// sdist; with its distribution and version text.
pub open spec fn entry_kind(filename: Seq<char>) -> Option<(Seq<char>, Seq<char>, PackageType)> {
    match wheel_name(filename) {
        Some((d, v)) => Some((d, v, PackageType::Wheel)),
        None => match sdist_name(filename) {
            Some((d, v)) => Some((d, v, PackageType::Sdist)),
            None => None,
        },
    }
}

/// The entry is a file with a package name.
pub open spec fn is_package_entry(e: FileEntry) -> bool {
    e.is_file && entry_kind(e.filename@) is Some
}

/// The version text of a package entry reads as a version.
pub open spec fn version_readable(e: FileEntry) -> bool {
    is_package_entry(e) ==> read_version((entry_kind(e.filename@)->0).1) is Read
}

/// The package entries of `entries`, in order.
pub open spec fn package_entries(entries: Seq<FileEntry>) -> Seq<FileEntry>
    decreases entries.len(),
{
    if entries.len() == 0 {
        seq![]
    } else if is_package_entry(entries.last()) {
        package_entries(entries.drop_last()).push(entries.last())
    } else {
        package_entries(entries.drop_last())
    }
}

/// `p` is the package served for the entry `e`.
pub open spec fn made_from(p: Package, e: FileEntry) -> bool {
    match entry_kind(e.filename@) {
        Some((d, v, ty)) => {
            &&& p.path == e.path
            &&& p.filename@ == e.filename@
            &&& p.distribution@ == d
            &&& p.version@.raw == v
            &&& read_version(v) == VersionReading::Read(p.version@.identifier)
            &&& p.size == e.size
            &&& p.created_at == e.created_at
            &&& p.updated_at == e.updated_at
            &&& p.hashes@.len() == 0
            &&& p.ty == ty
        },
        None => false,
    }
}

impl Package {
    fn new(
        path: PathBuf,
        filename: &str,
        distribution: &str,
        version: &str,
        size: usize,
        created_at: Option<Timestamp>,
        updated_at: Option<Timestamp>,
        ty: PackageType,
    ) -> (p: Package)
        requires
            read_version(version@) is Read,
        ensures
            p.path == path,
            p.filename@ == filename@,
            p.distribution@ == distribution@,
            p.version@.raw == version@,
            read_version(version@) == VersionReading::Read(p.version@.identifier),
            p.size == size,
            p.created_at == created_at,
            p.updated_at == updated_at,
            p.hashes@.len() == 0,
            p.ty == ty,
    {
        let version = Version::new(version).unwrap();
        Package {
            path,
            filename: filename.to_owned(),
            distribution: distribution.to_owned(),
            version,
            size,
            created_at,
            updated_at,
            hashes: Vec::new(),
            ty,
        }
    }
}

impl Packages {
    /// An empty repository rooted at `root`.
    pub fn new(root: PathBuf) -> (r: Self)
        ensures
            r.root == root,
            r.files@.len() == 0,
    {
        Packages { root, files: Vec::new() }
    }

    /// Adds, in order, a package for each entry that is a file named as a
    /// wheel or an sdist.
    pub fn collect(&mut self, entries: Vec<FileEntry>)
        requires
            forall|i: int| 0 <= i < entries@.len() ==> version_readable(#[trigger] entries@[i]),
        ensures
            final(self).root == old(self).root,
            final(self).files@.len() == old(self).files@.len() + package_entries(entries@).len(),
            forall|i: int|
                0 <= i < old(self).files@.len() ==> final(self).files@[i] == old(self).files@[i],
            forall|i: int|
                0 <= i < package_entries(entries@).len() ==> made_from(
                    #[trigger] final(self).files@[old(self).files@.len() + i],
                    package_entries(entries@)[i],
                ),
    {
        let ghost all = entries@;
        let mut entries = entries;
        let mut n: usize = 0;
        let total = entries.len();
        while n < total
            invariant
                total == all.len(),
                n <= total,
                entries@ == all.skip(n as int),
                self.root == old(self).root,
                self.files@.len() == old(self).files@.len() + package_entries(all.take(n as int)).len(),
                forall|i: int|
                    0 <= i < old(self).files@.len() ==> self.files@[i] == old(self).files@[i],
                forall|i: int|
                    0 <= i < package_entries(all.take(n as int)).len() ==> made_from(
                        #[trigger] self.files@[old(self).files@.len() + i],
                        package_entries(all.take(n as int))[i],
                    ),
                forall|i: int| 0 <= i < all.len() ==> version_readable(#[trigger] all[i]),
            decreases total - n,
        {
            let e = entries.remove(0);
            assert(e == all[n as int]);
            assert(all.take(n + 1).drop_last() =~= all.take(n as int));
            assert(all.skip(n as int).remove(0) =~= all.skip(n + 1));
            if e.is_file {
                let kind = match wheel_distribution(e.filename.as_str()) {
                    Some((d, v)) => Some((d, v, PackageType::Wheel)),
                    None => match sdist_distribution(e.filename.as_str()) {
                        Some((d, v)) => Some((d, v, PackageType::Sdist)),
                        None => None,
                    },
                };
                if let Some((d, v, ty)) = kind {
                    assert(version_readable(all[n as int]));
                    let p = Package::new(
                        e.path,
                        e.filename.as_str(),
                        d.as_str(),
                        v.as_str(),
                        e.size,
                        e.created_at,
                        e.updated_at,
                        ty,
                    );
                    self.files.push(p);
                }
            }
            n = n + 1;
        }
        assert(all.take(total as int) =~= all);
    }
}

} // verus!
