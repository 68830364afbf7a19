//! The package tarballs of an npm registry directory.

use crate::pypi::version::{digit_run, digits_u16, digits_value, fits, is_digit, lemma_digit_run};
use crate::text::str_eq;
use std::cmp::Ordering;
use vstd::std_specs::cmp::{PartialEqSpecImpl, PartialOrdSpecImpl};
use crate::text::{char_at, chars_of, lit_at, lit_at_exec, string_of_range};
use crate::paths::trimmed_path;
use crate::time::Timestamp;
use std::path::PathBuf;
use vstd::prelude::*;

verus! {

// ---------------------------------------------------------------------------
// Tarball names: NAME-MAJOR.MINOR.PATCH(-PRE)?(+BUILD)?.tgz
// ---------------------------------------------------------------------------

/// `[a-z0-9-]`, the characters of a package name.
pub open spec fn is_name_char(c: char) -> bool {
    ('a' <= c && c <= 'z') || is_digit(c) || c == '-'
}

/// `[A-Za-z0-9-]`, the characters of a pre-release or build identifier.
pub open spec fn is_ident_char(c: char) -> bool {
    ('A' <= c && c <= 'Z') || ('a' <= c && c <= 'z') || is_digit(c) || c == '-'
}

/// `s[a..e]` is a dot-separated list of identifiers, `X+(\.X+)*`.
pub open spec fn dotted_ident(s: Seq<char>, a: int, e: int) -> bool {
    &&& 0 <= a < e <= s.len()
    &&& forall|k: int| a <= k < e ==> is_ident_char(#[trigger] s[k]) || s[k] == '.'
    &&& s[a] != '.'
    &&& s[e - 1] != '.'
    &&& forall|k: int| a <= k < e - 1 ==> !(#[trigger] s[k] == '.' && s[k + 1] == '.')
}

pub open spec fn lit_tgz() -> Seq<char> {
    seq!['.', 't', 'g', 'z']
}

/// The largest `b` in `lo..=hi` where identifiers `s[a..b]` are followed by
/// `.tgz`.
pub open spec fn last_ident_tgz(s: Seq<char>, a: int, lo: int, hi: int) -> Option<int>
    decreases hi - lo + 1,
{
    if hi < lo {
        None
    } else if dotted_ident(s, a, hi) && lit_at(s, hi, lit_tgz()) {
        Some(hi)
    } else {
        last_ident_tgz(s, a, lo, hi - 1)
    }
}

/// A build part `+BUILD.tgz` at `t`: where `.tgz` starts, for the longest
/// build.
pub open spec fn build_then_tgz(s: Seq<char>, t: int) -> Option<int> {
    if char_at(s, t, '+') {
        last_ident_tgz(s, t + 1, t + 2, s.len() as int)
    } else {
        None
    }
}

/// After the pre-release part ends at `e`: an optional build part, then
/// `.tgz`; where `.tgz` starts.
pub open spec fn after_pre(s: Seq<char>, e: int) -> Option<int> {
    match build_then_tgz(s, e) {
        Some(b) => Some(b),
        None => if lit_at(s, e, lit_tgz()) {
            Some(e)
        } else {
            None
        },
    }
}

/// The largest end `e` in `lo..=hi` of pre-release identifiers `s[a..e]`
/// after which the name can be completed; where `.tgz` then starts.
pub open spec fn last_pre(s: Seq<char>, a: int, lo: int, hi: int) -> Option<int>
    decreases hi - lo + 1,
{
    if hi < lo {
        None
    } else if dotted_ident(s, a, hi) && after_pre(s, hi) is Some {
        after_pre(s, hi)
    } else {
        last_pre(s, a, lo, hi - 1)
    }
}

/// A pre-release part `-PRE` at `t`, with the rest of the name; where `.tgz`
/// then starts.
pub open spec fn pre_then_rest(s: Seq<char>, t: int) -> Option<int> {
    if char_at(s, t, '-') {
        last_pre(s, t + 1, t + 2, s.len() as int)
    } else {
        None
    }
}

/// `MAJOR.MINOR.PATCH` at `v0`: the ends of the three numbers.
pub open spec fn triple_at(s: Seq<char>, v0: int) -> Option<(int, int, int)> {
    let m1 = digit_run(s, v0);
    let m2 = digit_run(s, m1 + 1);
    let t = digit_run(s, m2 + 1);
    if m1 > v0 && char_at(s, m1, '.') && m2 > m1 + 1 && char_at(s, m2, '.') && t > m2 + 1 {
        Some((m1, m2, t))
    } else {
        None
    }
}

/// A version `MAJOR.MINOR.PATCH(-PRE)?(+BUILD)?` followed by `.tgz` at `v0`:
/// where `.tgz` starts.
pub open spec fn version_end(s: Seq<char>, v0: int) -> Option<int> {
    match triple_at(s, v0) {
        Some((_, _, t)) => match pre_then_rest(s, t) {
            Some(x) => Some(x),
            None => after_pre(s, t),
        },
        None => None,
    }
}

/// End of the longest run of name characters from `p`.
pub open spec fn name_run(s: Seq<char>, p: int) -> int
    decreases s.len() - p,
{
    if 0 <= p < s.len() && is_name_char(s[p]) {
        name_run(s, p + 1)
    } else {
        p
    }
}

proof fn lemma_name_run(s: Seq<char>, p: int)
    requires
        0 <= p,
    ensures
        p <= name_run(s, p),
    decreases s.len() - p,
{
    if 0 <= p < s.len() && is_name_char(s[p]) {
        lemma_name_run(s, p + 1);
    }
}

/// The largest dash `h` in `lo..=hi` followed by a version.
pub open spec fn last_name_end(s: Seq<char>, lo: int, hi: int) -> Option<int>
    decreases hi - lo + 1,
{
    if hi < lo {
        None
    } else if char_at(s, hi, '-') && version_end(s, hi + 1) is Some {
        Some(hi)
    } else {
        last_name_end(s, lo, hi - 1)
    }
}

/// A tarball name found from `p`: the dash after the name and where `.tgz`
/// starts.
pub open spec fn tarball_at(s: Seq<char>, p: int) -> Option<(int, int)> {
    if 0 <= p < s.len() && is_name_char(s[p]) {
        match last_name_end(s, p + 1, name_run(s, p) - 1) {
            Some(h) => Some((h, version_end(s, h + 1)->0)),
            None => None,
        }
    } else {
        None
    }
}

/// The leftmost tarball name at or after `p`.
pub open spec fn tarball_search(s: Seq<char>, p: int) -> Option<(int, int, int)>
    decreases s.len() - p,
{
    if p < 0 || p >= s.len() {
        None
    } else {
        match tarball_at(s, p) {
            Some((h, v)) => Some((p, h, v)),
            None => tarball_search(s, p + 1),
        }
    }
}

/// The name, the full version and the three version numbers of a tarball
/// file name: the leftmost text `NAME-VERSION.tgz` in it, with the name as
/// long as possible and then the version as long as possible.
pub open spec fn tarball_name(s: Seq<char>) -> Option<(Seq<char>, Seq<char>, (nat, nat, nat))> {
    match tarball_search(s, 0) {
        Some((p, h, v)) => {
            let (m1, m2, t) = triple_at(s, h + 1)->0;
            Some(
                (
                    s.subrange(p, h),
                    s.subrange(h + 1, v),
                    (
                        digits_value(s, h + 1, m1),
                        digits_value(s, m1 + 1, m2),
                        digits_value(s, m2 + 1, t),
                    ),
                ),
            )
        },
        None => None,
    }
}

/// The three version numbers fit in 16 bits.
pub open spec fn numbers_fit(n: (nat, nat, nat)) -> bool {
    fits(n.0) && fits(n.1) && fits(n.2)
}

fn is_ident_char_exec(c: char) -> (r: bool)
    ensures
        r == is_ident_char(c),
{
    ('A' <= c && c <= 'Z') || ('a' <= c && c <= 'z') || ('0' <= c && c <= '9') || c == '-'
}

fn dotted_ident_exec(cs: &Vec<char>, a: usize, e: usize) -> (r: bool)
    ensures
        r == dotted_ident(cs@, a as int, e as int),
{
    if !(a < e && e <= cs.len()) {
        return false;
    }
    if cs[a] == '.' || cs[e - 1] == '.' {
        return false;
    }
    let mut k = a;
    while k < e
        invariant
            a <= k <= e <= cs@.len(),
            forall|m: int| a <= m < k ==> is_ident_char(#[trigger] cs@[m]) || cs@[m] == '.',
            forall|m: int| a <= m < k && m < e - 1 ==> !(#[trigger] cs@[m] == '.' && cs@[m + 1]
                == '.'),
        decreases e - k,
    {
        if !(is_ident_char_exec(cs[k]) || cs[k] == '.') {
            return false;
        }
        if k + 1 < e && cs[k] == '.' && cs[k + 1] == '.' {
            return false;
        }
        k = k + 1;
    }
    true
}

fn last_ident_tgz_exec(cs: &Vec<char>, a: usize, lo: usize, hi: usize) -> (r: Option<usize>)
    requires
        hi <= cs@.len(),
    ensures
        match r {
            Some(b) => last_ident_tgz(cs@, a as int, lo as int, hi as int) == Some(b as int),
            None => last_ident_tgz(cs@, a as int, lo as int, hi as int) is None,
        },
{
    if hi < lo {
        return None;
    }
    let l: &[char] = &['.', 't', 'g', 'z'];
    assert(l@ =~= lit_tgz());
    let mut k = hi;
    loop
        invariant
            lo <= k <= hi <= cs@.len(),
            l@ == lit_tgz(),
            last_ident_tgz(cs@, a as int, lo as int, hi as int) == last_ident_tgz(
                cs@,
                a as int,
                lo as int,
                k as int,
            ),
        decreases k,
    {
        if dotted_ident_exec(cs, a, k) && lit_at_exec(cs, k, l) {
            return Some(k);
        }
        if k == lo {
            assert(last_ident_tgz(cs@, a as int, lo as int, lo - 1) is None);
            return None;
        }
        k = k - 1;
    }
}

fn build_then_tgz_exec(cs: &Vec<char>, t: usize) -> (r: Option<usize>)
    requires
        t <= cs@.len(),
    ensures
        match r {
            Some(b) => build_then_tgz(cs@, t as int) == Some(b as int),
            None => build_then_tgz(cs@, t as int) is None,
        },
{
    let n = cs.len();
    if t < n && cs[t] == '+' {
        if t + 1 >= n {
            return None;
        }
        last_ident_tgz_exec(cs, t + 1, t + 2, n)
    } else {
        None
    }
}

fn after_pre_exec(cs: &Vec<char>, e: usize) -> (r: Option<usize>)
    requires
        e <= cs@.len(),
    ensures
        match r {
            Some(b) => after_pre(cs@, e as int) == Some(b as int),
            None => after_pre(cs@, e as int) is None,
        },
{
    match build_then_tgz_exec(cs, e) {
        Some(b) => Some(b),
        None => {
            let l: &[char] = &['.', 't', 'g', 'z'];
            assert(l@ =~= lit_tgz());
            if lit_at_exec(cs, e, l) {
                Some(e)
            } else {
                None
            }
        },
    }
}

fn last_pre_exec(cs: &Vec<char>, a: usize, lo: usize, hi: usize) -> (r: Option<usize>)
    requires
        hi <= cs@.len(),
    ensures
        match r {
            Some(b) => last_pre(cs@, a as int, lo as int, hi as int) == Some(b as int),
            None => last_pre(cs@, a as int, lo as int, hi as int) is None,
        },
{
    if hi < lo {
        return None;
    }
    let mut k = hi;
    loop
        invariant
            lo <= k <= hi <= cs@.len(),
            last_pre(cs@, a as int, lo as int, hi as int) == last_pre(
                cs@,
                a as int,
                lo as int,
                k as int,
            ),
        decreases k,
    {
        if dotted_ident_exec(cs, a, k) {
            let r = after_pre_exec(cs, k);
            if r.is_some() {
                return r;
            }
        }
        if k == lo {
            assert(last_pre(cs@, a as int, lo as int, lo - 1) is None);
            return None;
        }
        k = k - 1;
    }
}

fn version_end_exec(cs: &Vec<char>, v0: usize) -> (r: Option<(usize, usize, usize, usize)>)
    requires
        v0 <= cs@.len(),
    ensures
        match r {
            Some((m1, m2, t, v)) => triple_at(cs@, v0 as int) == Some(
                (m1 as int, m2 as int, t as int),
            ) && version_end(cs@, v0 as int) == Some(v as int) && v0 < m1 < m2 < t <= cs@.len(),
            None => version_end(cs@, v0 as int) is None,
        },
{
    let n = cs.len();
    let m1 = digit_run_npm(cs, v0);
    if !(m1 > v0 && m1 < n && cs[m1] == '.') {
        return None;
    }
    let m2 = digit_run_npm(cs, m1 + 1);
    if !(m2 > m1 + 1 && m2 < n && cs[m2] == '.') {
        return None;
    }
    let t = digit_run_npm(cs, m2 + 1);
    if !(t > m2 + 1) {
        return None;
    }
    let pre = if t < n && t + 1 < n && cs[t] == '-' {
        last_pre_exec(cs, t + 1, t + 2, n)
    } else {
        None
    };
    let v = match pre {
        Some(x) => x,
        None => match after_pre_exec(cs, t) {
            Some(x) => x,
            None => return None,
        },
    };
    Some((m1, m2, t, v))
}

fn digit_run_npm(cs: &Vec<char>, i: usize) -> (j: usize)
    requires
        i <= cs@.len(),
    ensures
        j == digit_run(cs@, i as int),
        i <= j <= cs@.len(),
        forall|k: int| i <= k < j ==> is_digit(cs@[k]),
{
    proof {
        lemma_digit_run(cs@, i as int);
    }
    let mut j = i;
    while j < cs.len() && '0' <= cs[j] && cs[j] <= '9'
        invariant
            i <= j <= cs@.len(),
            digit_run(cs@, j as int) == digit_run(cs@, i as int),
            forall|k: int| i <= k < j ==> is_digit(cs@[k]),
        decreases cs.len() - j,
    {
        j = j + 1;
    }
    j
}

fn name_run_exec(cs: &Vec<char>, p: usize) -> (j: usize)
    requires
        p <= cs@.len(),
    ensures
        j == name_run(cs@, p as int),
        p <= j <= cs@.len(),
{
    let mut j = p;
    while j < cs.len() && (('a' <= cs[j] && cs[j] <= 'z') || ('0' <= cs[j] && cs[j] <= '9')
        || cs[j] == '-')
        invariant
            p <= j <= cs@.len(),
            name_run(cs@, j as int) == name_run(cs@, p as int),
        decreases cs.len() - j,
    {
        j = j + 1;
    }
    j
}

fn tarball_at_exec(cs: &Vec<char>, p: usize) -> (r: Option<(usize, usize, usize, usize, usize)>)
    requires
        p < cs@.len(),
    ensures
        match r {
            Some((h, m1, m2, t, v)) => tarball_at(cs@, p as int) == Some((h as int, v as int))
                && triple_at(cs@, h + 1) == Some((m1 as int, m2 as int, t as int)) && p < h < m1
                < m2 < t <= cs@.len() && t <= v <= cs@.len(),
            None => tarball_at(cs@, p as int) is None,
        },
{
    let c = cs[p];
    if !(('a' <= c && c <= 'z') || ('0' <= c && c <= '9') || c == '-') {
        return None;
    }
    let run = name_run_exec(cs, p);
    proof {
        lemma_name_run(cs@, p + 1);
    }
    // the dash that ends the name lies before the end of the run
    let mut h = run;
    loop
        invariant
            p < run <= cs@.len(),
            run == name_run(cs@, p as int),
            is_name_char(cs@[p as int]),
            p < h <= run,
            last_name_end(cs@, p + 1, run - 1) == last_name_end(cs@, p + 1, h - 1),
        decreases h,
    {
        if h - 1 == p {
            assert(last_name_end(cs@, p + 1, p as int) is None);
            return None;
        }
        let d = h - 1;
        if cs[d] == '-' {
            match version_end_exec(cs, d + 1) {
                Some((m1, m2, t, v)) => {
                    proof {
                        lemma_version_end_bound(cs@, d + 1);
                    }
                    return Some((d, m1, m2, t, v));
                },
                None => {},
            }
        }
        h = h - 1;
    }
}

proof fn lemma_last_ident_tgz(s: Seq<char>, a: int, lo: int, hi: int)
    ensures
        last_ident_tgz(s, a, lo, hi) matches Some(b) ==> lo <= b <= hi,
    decreases hi - lo + 1,
{
    if hi >= lo && !(dotted_ident(s, a, hi) && lit_at(s, hi, lit_tgz())) {
        lemma_last_ident_tgz(s, a, lo, hi - 1);
    }
}

proof fn lemma_after_pre(s: Seq<char>, e: int)
    ensures
        after_pre(s, e) matches Some(b) ==> e <= b <= s.len(),
{
    lemma_last_ident_tgz(s, e + 1, e + 2, s.len() as int);
}

proof fn lemma_last_pre(s: Seq<char>, a: int, lo: int, hi: int)
    requires
        0 <= lo,
    ensures
        last_pre(s, a, lo, hi) matches Some(b) ==> lo <= b <= s.len(),
    decreases hi - lo + 1,
{
    if hi >= lo {
        lemma_after_pre(s, hi);
        if !(dotted_ident(s, a, hi) && after_pre(s, hi) is Some) {
            lemma_last_pre(s, a, lo, hi - 1);
        }
    }
}

proof fn lemma_version_end_bound(s: Seq<char>, v0: int)
    requires
        triple_at(s, v0) is Some,
    ensures
        version_end(s, v0) matches Some(v) ==> (triple_at(s, v0)->0).2 <= v <= s.len(),
{
    let t = (triple_at(s, v0)->0).2;
    lemma_after_pre(s, t);
    lemma_last_pre(s, t + 1, t + 2, s.len() as int);
}

/// The leftmost tarball name in `cs`: the start, the dash after the name,
/// the ends of the three numbers and where `.tgz` starts.
fn tarball_search_exec(cs: &Vec<char>) -> (r: Option<(usize, usize, usize, usize, usize, usize)>)
    ensures
        match r {
            Some((p, h, m1, m2, t, v)) => tarball_search(cs@, 0) == Some(
                (p as int, h as int, v as int),
            ) && triple_at(cs@, h + 1) == Some((m1 as int, m2 as int, t as int)) && p < h < m1
                < m2 < t <= v <= cs@.len(),
            None => tarball_search(cs@, 0) is None,
        },
{
    let mut p: usize = 0;
    while p < cs.len()
        invariant
            p <= cs@.len(),
            tarball_search(cs@, 0) == tarball_search(cs@, p as int),
        decreases cs.len() - p,
    {
        match tarball_at_exec(cs, p) {
            Some((h, m1, m2, t, v)) => return Some((p, h, m1, m2, t, v)),
            None => {},
        }
        p = p + 1;
    }
    None
}

/// A tarball name holds a version number that does not fit in 16 bits.
#[derive(Debug, Clone, Copy, PartialEq, Eq, Structural)]
pub enum TarballNameError {
    NumberTooLarge,
}

/// Reads a tarball file name: its package name, full version and version
/// numbers. `Ok(None)` when the name does not hold `NAME-VERSION.tgz`.
pub fn parse_tarball_name(filename: &str) -> (r: Result<Option<(String, String, (u16, u16, u16))>, TarballNameError>)
    ensures
        match tarball_name(filename@) {
            None => r matches Ok(None),
            Some((n, v, nums)) => if numbers_fit(nums) {
                r matches Ok(Some((rn, rv, (a, b, c)))) && rn@ == n && rv@ == v && a == nums.0
                    && b == nums.1 && c == nums.2
            } else {
                r is Err
            },
        },
{
    let cs = chars_of(filename);
    match tarball_search_exec(&cs) {
        None => Ok(None),
        Some((p, h, m1, m2, t, v)) => {
            proof {
                lemma_digit_run(cs@, h + 1);
                lemma_digit_run(cs@, m1 + 1);
                lemma_digit_run(cs@, m2 + 1);
            }
            let major = digits_u16(&cs, h + 1, m1);
            let minor = digits_u16(&cs, m1 + 1, m2);
            let patch = digits_u16(&cs, m2 + 1, t);
            match (major, minor, patch) {
                (Some(a), Some(b), Some(c)) => Ok(
                    Some((string_of_range(&cs, p, h), string_of_range(&cs, h + 1, v), (a, b, c))),
                ),
                _ => Err(TarballNameError::NumberTooLarge),
            }
        },
    }
}

/// The package name, full version and version numbers of a tarball file
/// name, when it holds one.
pub fn is_pkg(filename: &str) -> (r: Option<(String, String, (u16, u16, u16))>)
    requires
        tarball_name(filename@) matches Some((_, _, nums)) ==> numbers_fit(nums),
    ensures
        match tarball_name(filename@) {
            None => r is None,
            Some((n, v, nums)) => r matches Some((rn, rv, (a, b, c))) && rn@ == n && rv@ == v
                && a == nums.0 && b == nums.1 && c == nums.2,
        },
{
    match parse_tarball_name(filename) {
        Ok(x) => x,
        Err(_) => None,
    }
}

// ---------------------------------------------------------------------------
// Entries of a tarball
// ---------------------------------------------------------------------------

pub open spec fn lit_package_json() -> Seq<char> {
    seq!['p', 'a', 'c', 'k', 'a', 'g', 'e', '.', 'j', 's', 'o', 'n']
}

/// The last component of the entry path `path` is `package.json`.
pub open spec fn is_metadata_path(path: Seq<char>) -> bool {
    let t = trimmed_path(path);
    &&& t.len() >= 12
    &&& t.subrange(t.len() - 12, t.len() as int) == lit_package_json()
    &&& (t.len() == 12 || t[t.len() - 13] == '/')
}

/// Whether a tarball entry, by its path, is the `package.json` file.
pub fn is_metadata(path: &str) -> (r: bool)
    ensures
        r == is_metadata_path(path@),
{
    let cs = chars_of(path);
    let mut e: usize = cs.len();
    assert(cs@.subrange(0, e as int) =~= cs@);
    while e > 0 && (cs[e - 1] == '/' || (cs[e - 1] == '.' && (e == 1 || cs[e - 2] == '/')))
        invariant
            e <= cs@.len(),
            trimmed_path(cs@.subrange(0, e as int)) == trimmed_path(cs@),
        decreases e,
    {
        assert(cs@.subrange(0, e as int).drop_last() =~= cs@.subrange(0, e - 1));
        e = e - 1;
    }
    let t = Ghost(cs@.subrange(0, e as int));
    assert(trimmed_path(t@) == t@);
    if e < 12 || !lit_at_exec(&cs, e - 12, &['p', 'a', 'c', 'k', 'a', 'g', 'e', '.', 'j', 's', 'o', 'n']) {
        proof {
            if e >= 12 {
                assert(t@.subrange(e - 12, e as int) =~= cs@.subrange(e - 12, e as int));
            }
        }
        return false;
    }
    assert(t@.subrange(e - 12, e as int) =~= cs@.subrange(e - 12, e as int));
    e == 12 || cs[e - 13] == '/'
}

// ---------------------------------------------------------------------------
// package.json
// ---------------------------------------------------------------------------

/// A person in `package.json`: a line `Name <email> (url)` or an object.
pub enum PackageJsonPeople {
    Line(String),
    Object(PackageJsonPeopleObject),
}

pub struct PackageJsonPeopleObject {
    pub name: String,
    pub email: Option<String>,
    pub url: Option<String>,
}

/// A repository in `package.json`: a URL line or an object.
pub enum PackageJsonRepository {
    Line(String),
    Object(PackageJsonRepositoryObject),
}

pub struct PackageJsonRepositoryObject {
    pub ty: Option<String>,
    pub url: String,
}

/// The fields of `package.json` the registry serves. Maps are lists of
/// pairs in which no key occurs twice.
pub struct PackageJson {
    pub name: String,
    pub version: String,
    pub description: Option<String>,
    pub keywords: Option<Vec<String>>,
    pub homepage: Option<String>,
    pub license: Option<String>,
    pub author: Option<PackageJsonPeople>,
    pub contributors: Option<Vec<PackageJsonPeople>>,
    pub repository: Option<PackageJsonRepository>,
    pub dependencies: Option<Vec<(String, String)>>,
    pub dev_dependencies: Option<Vec<(String, String)>>,
}

// ---------------------------------------------------------------------------
// The registry directory
// ---------------------------------------------------------------------------

/// What the host reports of one entry of the registry directory; the
/// `package.json` read from it when it is a file with a tarball name.
pub struct TarballEntry {
    pub path: PathBuf,
    pub filename: String,
    pub is_file: bool,
    pub metadata: Option<PackageJson>,
    pub created_at: Option<Timestamp>,
    pub updated_at: Option<Timestamp>,
}

pub struct Package {
    pub path: PathBuf,
    pub filename: String,
    pub name: String,
    pub full_version: String,
    pub version: (u16, u16, u16),
    pub metadata: PackageJson,
    pub created_at: Option<Timestamp>,
    pub updated_at: Option<Timestamp>,
    /// Hexadecimal SHA-1 of the tarball; empty until computed.
    pub shasum: String,
}

pub struct Packages {
    pub root: PathBuf,
    pub files: Vec<Package>,
}

/// The entry is served: a file with a tarball name and a `package.json`.
pub open spec fn is_tarball_entry(e: TarballEntry) -> bool {
    e.is_file && tarball_name(e.filename@) is Some && e.metadata is Some
}

/// The served entries of `entries`, in order.
pub open spec fn tarball_entries(entries: Seq<TarballEntry>) -> Seq<TarballEntry>
    decreases entries.len(),
{
    if entries.len() == 0 {
        seq![]
    } else if is_tarball_entry(entries.last()) {
        tarball_entries(entries.drop_last()).push(entries.last())
    } else {
        tarball_entries(entries.drop_last())
    }
}

/// `p` is the package served for the entry `e`.
pub open spec fn made_from(p: Package, e: TarballEntry) -> bool {
    match tarball_name(e.filename@) {
        Some((n, v, nums)) => {
            &&& p.path == e.path
            &&& p.filename@ == e.filename@
            &&& p.name@ == n
            &&& p.full_version@ == v
            &&& p.version.0 == nums.0 && p.version.1 == nums.1 && p.version.2 == nums.2
            &&& e.metadata == Some(p.metadata)
            &&& p.created_at == e.created_at
            &&& p.updated_at == e.updated_at
            &&& p.shasum@.len() == 0
        },
        None => false,
    }
}

/// The version numbers of a file with a tarball name fit in 16 bits.
pub open spec fn entry_numbers_fit(e: TarballEntry) -> bool {
    e.is_file ==> (tarball_name(e.filename@) matches Some((_, _, nums)) ==> numbers_fit(nums))
}

impl Packages {
    /// An empty registry rooted at `root`.
    pub fn new(root: PathBuf) -> (r: Self)
        ensures
            r.root == root,
            r.files@.len() == 0,
    {
        Packages { root, files: Vec::new() }
    }

    /// Adds, in order, a package for each entry that is a file with a
    /// tarball name and a `package.json`.
    pub fn collect(&mut self, entries: Vec<TarballEntry>)
        requires
            forall|i: int| 0 <= i < entries@.len() ==> entry_numbers_fit(#[trigger] entries@[i]),
        ensures
            final(self).root == old(self).root,
            final(self).files@.len() == old(self).files@.len() + tarball_entries(entries@).len(),
            forall|i: int|
                0 <= i < old(self).files@.len() ==> final(self).files@[i] == old(self).files@[i],
            forall|i: int|
                0 <= i < tarball_entries(entries@).len() ==> made_from(
                    #[trigger] final(self).files@[old(self).files@.len() + i],
                    tarball_entries(entries@)[i],
                ),
    {
        let ghost all = entries@;
        let mut entries = entries;
        let mut n: usize = 0;
        let total = entries.len();
        while n < total
            invariant
                total == all.len(),
                n <= total,
                entries@ == all.skip(n as int),
                self.root == old(self).root,
                self.files@.len() == old(self).files@.len() + tarball_entries(all.take(n as int)).len(),
                forall|i: int|
                    0 <= i < old(self).files@.len() ==> self.files@[i] == old(self).files@[i],
                forall|i: int|
                    0 <= i < tarball_entries(all.take(n as int)).len() ==> made_from(
                        #[trigger] self.files@[old(self).files@.len() + i],
                        tarball_entries(all.take(n as int))[i],
                    ),
                forall|i: int| 0 <= i < all.len() ==> entry_numbers_fit(#[trigger] all[i]),
            decreases total - n,
        {
            let e = entries.remove(0);
            assert(e == all[n as int]);
            assert(all.take(n + 1).drop_last() =~= all.take(n as int));
            assert(all.skip(n as int).remove(0) =~= all.skip(n + 1));
            if e.is_file {
                assert(entry_numbers_fit(all[n as int]));
                if let Some((name, full_version, version)) = is_pkg(e.filename.as_str()) {
                    if let Some(metadata) = e.metadata {
                        self.files.push(
                            Package {
                                path: e.path,
                                filename: e.filename,
                                name,
                                full_version,
                                version,
                                metadata,
                                created_at: e.created_at,
                                updated_at: e.updated_at,
                                shasum: String::new(),
                            },
                        );
                    }
                }
            }
            n = n + 1;
        }
        assert(all.take(total as int) =~= all);
    }

    /// The first file named `filename`.
    pub fn find_archive(&self, filename: &str) -> (r: Option<usize>)
        ensures
            match r {
                Some(i) => i < self.files@.len() && self.files@[i as int].filename@ == filename@
                    && forall|j: int| 0 <= j < i ==> self.files@[j].filename@ != filename@,
                None => forall|j: int|
                    0 <= j < self.files@.len() ==> self.files@[j].filename@ != filename@,
            },
    {
        let mut i: usize = 0;
        while i < self.files.len()
            invariant
                i <= self.files@.len(),
                forall|j: int| 0 <= j < i ==> self.files@[j].filename@ != filename@,
            decreases self.files.len() - i,
        {
            if str_eq(self.files[i].filename.as_str(), filename) {
                return Some(i);
            }
            i = i + 1;
        }
        None
    }

    /// The files whose `package.json` names `name`, by increasing version;
    /// files with equal versions keep their order.
    pub fn versions_of(&self, name: &str) -> (r: Vec<usize>)
        ensures
            forall|k: int|
                0 <= k < r@.len() ==> #[trigger] r@[k] < self.files@.len()
                    && self.files@[r@[k] as int].metadata.name@ == name@,
            forall|j: int|
                0 <= j < self.files@.len() && self.files@[j].metadata.name@ == name@ ==> exists|k: int|
                    0 <= k < r@.len() && #[trigger] r@[k] == j,
            forall|k1: int, k2: int|
                0 <= k1 < k2 < r@.len() ==> stably_before(
                    self.files@[r@[k1] as int].version,
                    r@[k1] as int,
                    self.files@[r@[k2] as int].version,
                    r@[k2] as int,
                ),
    {
        let mut out: Vec<usize> = Vec::new();
        let mut i: usize = 0;
        while i < self.files.len()
            invariant
                i <= self.files@.len(),
                forall|k: int|
                    0 <= k < out@.len() ==> #[trigger] out@[k] < i
                        && self.files@[out@[k] as int].metadata.name@ == name@,
                forall|j: int|
                    0 <= j < i && self.files@[j].metadata.name@ == name@ ==> exists|k: int|
                        0 <= k < out@.len() && #[trigger] out@[k] == j,
                forall|k1: int, k2: int|
                    0 <= k1 < k2 < out@.len() ==> stably_before(
                        self.files@[out@[k1] as int].version,
                        out@[k1] as int,
                        self.files@[out@[k2] as int].version,
                        out@[k2] as int,
                    ),
            decreases self.files.len() - i,
        {
            if str_eq(self.files[i].metadata.name.as_str(), name) {
                let key = self.files[i].version;
                let mut pos: usize = 0;
                while pos < out.len() && !version_lt(key, self.files[out[pos]].version)
                    invariant
                        pos <= out@.len(),
                        forall|k: int| 0 <= k < out@.len() ==> #[trigger] out@[k] < i,
                        i < self.files@.len(),
                        key == self.files@[i as int].version,
                        forall|k: int|
                            0 <= k < pos ==> !version_lt_spec(key, self.files@[#[trigger] out@[k] as int].version),
                    decreases out.len() - pos,
                {
                    pos = pos + 1;
                }
                let ghost before = out@;
                out.insert(pos, i);
                proof {
                    assert forall|k1: int, k2: int| 0 <= k1 < k2 < out@.len() implies stably_before(
                        self.files@[out@[k1] as int].version,
                        out@[k1] as int,
                        self.files@[out@[k2] as int].version,
                        out@[k2] as int,
                    ) by {
                        if k2 < pos {
                            assert(out@[k1] == before[k1] && out@[k2] == before[k2]);
                        } else if k2 == pos {
                            assert(out@[k1] == before[k1]);
                            assert(before[k1] < i);
                        } else if k1 < pos {
                            assert(out@[k1] == before[k1] && out@[k2] == before[k2 - 1]);
                            assert(stably_before(
                                self.files@[before[k1] as int].version,
                                before[k1] as int,
                                self.files@[before[k2 - 1] as int].version,
                                before[k2 - 1] as int,
                            ) || k1 == k2 - 1);
                        } else if k1 == pos {
                            assert(out@[k2] == before[k2 - 1]);
                            if k2 - 1 > pos {
                                assert(stably_before(
                                    self.files@[before[pos as int] as int].version,
                                    before[pos as int] as int,
                                    self.files@[before[k2 - 1] as int].version,
                                    before[k2 - 1] as int,
                                ));
                            }
                        } else {
                            assert(out@[k1] == before[k1 - 1] && out@[k2] == before[k2 - 1]);
                        }
                    }
                    assert forall|j: int|
                        0 <= j < i + 1 && self.files@[j].metadata.name@ == name@ implies exists|k: int|
                        0 <= k < out@.len() && #[trigger] out@[k] == j by {
                        if j < i {
                            let k = choose|k: int| 0 <= k < before.len() && #[trigger] before[k] == j;
                            if k < pos {
                                assert(out@[k] == j);
                            } else {
                                assert(out@[k + 1] == j);
                            }
                        } else {
                            assert(out@[pos as int] == j);
                        }
                    }
                }
            }
            i = i + 1;
        }
        out
    }
}

/// Versions in increasing order.
pub open spec fn version_lt_spec(a: (u16, u16, u16), b: (u16, u16, u16)) -> bool {
    a.0 < b.0 || (a.0 == b.0 && (a.1 < b.1 || (a.1 == b.1 && a.2 < b.2)))
}

/// Versions are ordered by major, then minor, then patch number: a larger
/// major number comes later whatever follows, then, with equal major
/// numbers, a larger minor number, then, with equal major and minor
/// numbers, a larger patch number; two versions neither of which comes
/// first are the same version.
pub proof fn lemma_version_order(a: (u16, u16, u16), b: (u16, u16, u16))
    ensures
        a.0 < b.0 ==> version_lt_spec(a, b),
        a.0 == b.0 && a.1 < b.1 ==> version_lt_spec(a, b),
        a.0 == b.0 && a.1 == b.1 ==> (version_lt_spec(a, b) <==> a.2 < b.2),
        version_lt_spec(a, b) ==> !version_lt_spec(b, a),
        !version_lt_spec(a, b) && !version_lt_spec(b, a) ==> a == b,
{
}

/// The file with version `a` at position `i` comes before the one with
/// version `b` at `j`: a smaller version, or the same version earlier.
pub open spec fn stably_before(a: (u16, u16, u16), i: int, b: (u16, u16, u16), j: int) -> bool {
    version_lt_spec(a, b) || (a == b && i < j)
}

fn version_lt(a: (u16, u16, u16), b: (u16, u16, u16)) -> (r: bool)
    ensures
        r == version_lt_spec(a, b),
{
    a.0 < b.0 || (a.0 == b.0 && (a.1 < b.1 || (a.1 == b.1 && a.2 < b.2)))
}

impl PartialEq for Package {
    fn eq(&self, other: &Self) -> (r: bool) {
        str_eq(self.name.as_str(), other.name.as_str()) && str_eq(
            self.full_version.as_str(),
            other.full_version.as_str(),
        )
    }
}

impl PartialEqSpecImpl for Package {
    open spec fn obeys_eq_spec() -> bool {
        true
    }

    open spec fn eq_spec(&self, other: &Self) -> bool {
        self.name@ == other.name@ && self.full_version@ == other.full_version@
    }
}

/// Packages are ordered by their version numbers.
pub open spec fn version_ordering(a: (u16, u16, u16), b: (u16, u16, u16)) -> Ordering {
    if version_lt_spec(a, b) {
        Ordering::Less
    } else if a == b {
        Ordering::Equal
    } else {
        Ordering::Greater
    }
}

impl PartialOrd for Package {
    fn partial_cmp(&self, other: &Self) -> (r: Option<Ordering>) {
        let a = self.version;
        let b = other.version;
        if version_lt(a, b) {
            Some(Ordering::Less)
        } else if a.0 == b.0 && a.1 == b.1 && a.2 == b.2 {
            Some(Ordering::Equal)
        } else {
            Some(Ordering::Greater)
        }
    }
}

impl PartialOrdSpecImpl for Package {
    open spec fn obeys_partial_cmp_spec() -> bool {
        true
    }

    open spec fn partial_cmp_spec(&self, other: &Self) -> Option<Ordering> {
        Some(version_ordering(self.version, other.version))
    }
}

} // verus!
