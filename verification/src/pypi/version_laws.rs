//! Laws of version reading: where the separators `-`, `_` and `.` may be
//! left out without changing the version read.

use crate::pypi::version::{
    epoch_of, has_epoch, match_start, more_release, read_version, release_end, release_from,
    release_start, release_values, starts_at, read_at, reading_of, dev_part, digit_at, digit_run, digits_value, local_char_at, local_end, local_part,
    local_run, number_tail, post_part, post_phase_at, pre_part, pre_phase_at, sep_at, skip_sep,
    lit_alpha, lit_a, lit_beta, lit_b, lit_preview, lit_pre, lit_c, lit_rc, lit_post, lit_rev,
    lit_r, lit_dev, VersionPrePhase,
};
use crate::text::{char_at, lit_at};
use vstd::prelude::*;

verus! {

/// `s` from `i` on is `t` from `j` on.
pub open spec fn same_from(s: Seq<char>, i: int, t: Seq<char>, j: int) -> bool {
    0 <= i <= s.len() && 0 <= j <= t.len() && s.skip(i) == t.skip(j)
}

proof fn lemma_advance(s: Seq<char>, i: int, t: Seq<char>, j: int, d: int)
    requires
        same_from(s, i, t, j),
        0 <= d <= s.len() - i,
    ensures
        same_from(s, i + d, t, j + d),
{
    assert(s.skip(i + d) =~= s.skip(i).skip(d));
    assert(t.skip(j + d) =~= t.skip(j).skip(d));
}

proof fn lemma_at(s: Seq<char>, i: int, t: Seq<char>, j: int, d: int)
    requires
        same_from(s, i, t, j),
        0 <= d,
    ensures
        s.len() - i == t.len() - j,
        d < s.len() - i ==> s[i + d] == t[j + d],
        digit_at(s, i + d) == digit_at(t, j + d),
        sep_at(s, i + d) == sep_at(t, j + d),
        local_char_at(s, i + d) == local_char_at(t, j + d),
{
    assert(s.skip(i).len() == t.skip(j).len());
    if d < s.len() - i {
        assert(s.skip(i)[d] == s[i + d]);
        assert(t.skip(j)[d] == t[j + d]);
    }
}

proof fn lemma_digit_run_shift(s: Seq<char>, i: int, t: Seq<char>, j: int)
    requires
        same_from(s, i, t, j),
    ensures
        digit_run(s, i) - i == digit_run(t, j) - j,
    decreases s.len() - i,
{
    lemma_at(s, i, t, j, 0);
    if digit_at(s, i) {
        lemma_advance(s, i, t, j, 1);
        lemma_digit_run_shift(s, i + 1, t, j + 1);
    }
}

proof fn lemma_local_run_shift(s: Seq<char>, i: int, t: Seq<char>, j: int)
    requires
        same_from(s, i, t, j),
    ensures
        local_run(s, i) - i == local_run(t, j) - j,
    decreases s.len() - i,
{
    lemma_at(s, i, t, j, 0);
    if local_char_at(s, i) {
        lemma_advance(s, i, t, j, 1);
        lemma_local_run_shift(s, i + 1, t, j + 1);
    }
}

proof fn lemma_digits_value_shift(s: Seq<char>, i: int, t: Seq<char>, j: int, a: int, b: int)
    requires
        same_from(s, i, t, j),
        0 <= a <= b <= s.len() - i,
    ensures
        digits_value(s, i + a, i + b) == digits_value(t, j + a, j + b),
    decreases b - a,
{
    if a < b {
        lemma_digits_value_shift(s, i, t, j, a, b - 1);
        lemma_at(s, i, t, j, b - 1);
    }
}

proof fn lemma_lit_shift(s: Seq<char>, i: int, t: Seq<char>, j: int, l: Seq<char>)
    requires
        same_from(s, i, t, j),
    ensures
        lit_at(s, i, l) == lit_at(t, j, l),
{
    lemma_at(s, i, t, j, 0);
    if i + l.len() <= s.len() {
        assert(s.subrange(i, i + l.len()) =~= s.skip(i).subrange(0, l.len() as int));
        assert(t.subrange(j, j + l.len()) =~= t.skip(j).subrange(0, l.len() as int));
    }
}

proof fn lemma_skip_sep_shift(s: Seq<char>, i: int, t: Seq<char>, j: int)
    requires
        same_from(s, i, t, j),
    ensures
        skip_sep(s, i) - i == skip_sep(t, j) - j,
        same_from(s, skip_sep(s, i), t, skip_sep(t, j)),
{
    lemma_at(s, i, t, j, 0);
    if sep_at(s, i) {
        lemma_advance(s, i, t, j, 1);
    }
}

proof fn lemma_number_tail_shift(s: Seq<char>, i: int, t: Seq<char>, j: int)
    requires
        same_from(s, i, t, j),
    ensures
        number_tail(s, i).0 == number_tail(t, j).0,
        number_tail(s, i).1 - i == number_tail(t, j).1 - j,
        same_from(s, number_tail(s, i).1, t, number_tail(t, j).1),
{
    lemma_skip_sep_shift(s, i, t, j);
    let a = skip_sep(s, i);
    let b = skip_sep(t, j);
    lemma_at(s, a, t, b, 0);
    lemma_digit_run_shift(s, a, t, b);
    crate::pypi::version::lemma_digit_run(s, a);
    lemma_digits_value_shift(s, a, t, b, 0, digit_run(s, a) - a);
    lemma_advance(s, a, t, b, digit_run(s, a) - a);
}

proof fn lemma_pre_phase_shift(s: Seq<char>, i: int, t: Seq<char>, j: int)
    requires
        same_from(s, i, t, j),
    ensures
        match pre_phase_at(s, i) {
            Some((ph, e)) => pre_phase_at(t, j) == Some((ph, e - i + j)) && 0 <= e - i <= s.len() - i,
            None => pre_phase_at(t, j) is None,
        },
{
    lemma_lit_shift(s, i, t, j, lit_alpha());
    lemma_lit_shift(s, i, t, j, lit_a());
    lemma_lit_shift(s, i, t, j, lit_beta());
    lemma_lit_shift(s, i, t, j, lit_b());
    lemma_lit_shift(s, i, t, j, lit_preview());
    lemma_lit_shift(s, i, t, j, lit_pre());
    lemma_lit_shift(s, i, t, j, lit_c());
    lemma_lit_shift(s, i, t, j, lit_rc());
}

proof fn lemma_post_phase_shift(s: Seq<char>, i: int, t: Seq<char>, j: int)
    requires
        same_from(s, i, t, j),
    ensures
        match post_phase_at(s, i) {
            Some((nm, e)) => post_phase_at(t, j) == Some((nm, e - i + j)) && 0 <= e - i <= s.len() - i,
            None => post_phase_at(t, j) is None,
        },
{
    lemma_lit_shift(s, i, t, j, lit_post());
    lemma_lit_shift(s, i, t, j, lit_rev());
    lemma_lit_shift(s, i, t, j, lit_r());
}

proof fn lemma_local_end_shift(s: Seq<char>, i: int, t: Seq<char>, j: int)
    requires
        same_from(s, i, t, j),
    ensures
        local_end(s, i) - i == local_end(t, j) - j,
        i <= local_end(s, i) <= s.len(),
    decreases s.len() - i,
{
    lemma_local_run_shift(s, i, t, j);
    crate::pypi::version::lemma_local_run(s, i);
    let e = local_run(s, i);
    lemma_at(s, i, t, j, e - i);
    lemma_at(s, i, t, j, e - i + 1);
    if i < e && sep_at(s, e) && local_char_at(s, e + 1) {
        lemma_advance(s, i, t, j, e - i + 1);
        lemma_local_end_shift(s, e + 1, t, e - i + 1 + j);
    }
}

proof fn lemma_local_part_shift(s: Seq<char>, i: int, t: Seq<char>, j: int)
    requires
        same_from(s, i, t, j),
    ensures
        local_part(s, i) == local_part(t, j),
{
    lemma_at(s, i, t, j, 0);
    lemma_at(s, i, t, j, 1);
    if char_at(s, i, '+') && local_char_at(s, i + 1) {
        lemma_advance(s, i, t, j, 1);
        lemma_local_end_shift(s, i + 1, t, j + 1);
        let e = local_end(s, i + 1);
        assert(s.subrange(i + 1, e) =~= s.skip(i + 1).subrange(0, e - i - 1));
        assert(t.subrange(j + 1, local_end(t, j + 1)) =~= t.skip(j + 1).subrange(0, e - i - 1));
    }
}

/// What a version reads after its dev part starts at `i`: the dev part and
/// the local label.
pub open spec fn dev_from(s: Seq<char>, i: int) -> (Option<Option<nat>>, Option<Seq<char>>) {
    (dev_part(s, i).0, local_part(s, dev_part(s, i).1))
}

/// What a version reads from its post part at `i` on.
pub open spec fn post_from(s: Seq<char>, i: int) -> (
    Option<(Option<Seq<char>>, Option<nat>)>,
    (Option<Option<nat>>, Option<Seq<char>>),
) {
    (post_part(s, i).0, dev_from(s, post_part(s, i).1))
}

/// What a version reads from its pre-release part at `i` on: the pre, post
/// and dev parts and the local label.
pub open spec fn parts_from(s: Seq<char>, i: int) -> (
    Option<(VersionPrePhase, Option<nat>)>,
    (Option<(Option<Seq<char>>, Option<nat>)>, (Option<Option<nat>>, Option<Seq<char>>)),
) {
    (pre_part(s, i).0, post_from(s, pre_part(s, i).1))
}

proof fn lemma_pre_part_shift(s: Seq<char>, i: int, t: Seq<char>, j: int)
    requires
        same_from(s, i, t, j),
    ensures
        pre_part(s, i).0 == pre_part(t, j).0,
        same_from(s, pre_part(s, i).1, t, pre_part(t, j).1),
{
    lemma_skip_sep_shift(s, i, t, j);
    let a = skip_sep(s, i);
    let b = skip_sep(t, j);
    lemma_pre_phase_shift(s, a, t, b);
    if let Some((ph, k)) = pre_phase_at(s, a) {
        lemma_advance(s, a, t, b, k - a);
        lemma_number_tail_shift(s, k, t, k - a + b);
    }
}

proof fn lemma_post_part_shift(s: Seq<char>, i: int, t: Seq<char>, j: int)
    requires
        same_from(s, i, t, j),
    ensures
        post_part(s, i).0 == post_part(t, j).0,
        same_from(s, post_part(s, i).1, t, post_part(t, j).1),
{
    lemma_at(s, i, t, j, 0);
    lemma_at(s, i, t, j, 1);
    if char_at(s, i, '-') && digit_at(s, i + 1) {
        lemma_advance(s, i, t, j, 1);
        lemma_digit_run_shift(s, i + 1, t, j + 1);
        crate::pypi::version::lemma_digit_run(s, i + 1);
        lemma_digits_value_shift(s, i + 1, t, j + 1, 0, digit_run(s, i + 1) - i - 1);
        lemma_advance(s, i + 1, t, j + 1, digit_run(s, i + 1) - i - 1);
    } else {
        lemma_skip_sep_shift(s, i, t, j);
        let a = skip_sep(s, i);
        let b = skip_sep(t, j);
        lemma_post_phase_shift(s, a, t, b);
        if let Some((nm, k)) = post_phase_at(s, a) {
            lemma_advance(s, a, t, b, k - a);
            lemma_number_tail_shift(s, k, t, k - a + b);
        }
    }
}

proof fn lemma_dev_part_shift(s: Seq<char>, i: int, t: Seq<char>, j: int)
    requires
        same_from(s, i, t, j),
    ensures
        dev_part(s, i).0 == dev_part(t, j).0,
        same_from(s, dev_part(s, i).1, t, dev_part(t, j).1),
{
    lemma_skip_sep_shift(s, i, t, j);
    let a = skip_sep(s, i);
    let b = skip_sep(t, j);
    lemma_lit_shift(s, a, t, b, lit_dev());
    if lit_at(s, a, lit_dev()) {
        lemma_advance(s, a, t, b, 3);
        lemma_number_tail_shift(s, a + 3, t, b + 3);
    }
}

/// The dev part and the local label read the same from any two places
/// where the same text follows.
pub proof fn lemma_dev_from_shift(s: Seq<char>, i: int, t: Seq<char>, j: int)
    requires
        same_from(s, i, t, j),
    ensures
        dev_from(s, i) == dev_from(t, j),
{
    lemma_dev_part_shift(s, i, t, j);
    lemma_local_part_shift(s, dev_part(s, i).1, t, dev_part(t, j).1);
}

/// The post part and what follows it read the same from any two places
/// where the same text follows.
pub proof fn lemma_post_from_shift(s: Seq<char>, i: int, t: Seq<char>, j: int)
    requires
        same_from(s, i, t, j),
    ensures
        post_from(s, i) == post_from(t, j),
{
    lemma_post_part_shift(s, i, t, j);
    lemma_dev_from_shift(s, post_part(s, i).1, t, post_part(t, j).1);
}

/// The parts after the release read the same from any two places where the
/// same text follows.
pub proof fn lemma_parts_from_shift(s: Seq<char>, i: int, t: Seq<char>, j: int)
    requires
        same_from(s, i, t, j),
    ensures
        parts_from(s, i) == parts_from(t, j),
{
    lemma_pre_part_shift(s, i, t, j);
    lemma_post_from_shift(s, pre_part(s, i).1, t, pre_part(t, j).1);
}

pub open spec fn is_lower(c: char) -> bool {
    'a' <= c && c <= 'z'
}

/// `s` at `i` holds a separator, after which the same text follows as in
/// `t` from `j`, where a lowercase letter stands.
pub open spec fn separator_before_letter(s: Seq<char>, i: int, t: Seq<char>, j: int) -> bool {
    &&& sep_at(s, i)
    &&& same_from(s, i + 1, t, j)
    &&& j < t.len()
    &&& is_lower(t[j])
}

/// A separator before the dev part, or before the local label's absence,
/// changes nothing when a letter follows it.
pub proof fn lemma_separator_before_dev(s: Seq<char>, i: int, t: Seq<char>, j: int)
    requires
        separator_before_letter(s, i, t, j),
    ensures
        dev_from(s, i) == dev_from(t, j),
{
    assert(skip_sep(s, i) == i + 1);
    assert(skip_sep(t, j) == j);
    lemma_lit_shift(s, i + 1, t, j, lit_dev());
    if lit_at(s, i + 1, lit_dev()) {
        lemma_advance(s, i + 1, t, j, 3);
        lemma_number_tail_shift(s, i + 4, t, j + 3);
        lemma_local_part_shift(s, number_tail(s, i + 4).1, t, number_tail(t, j + 3).1);
    }
}

/// A separator before the post part changes nothing when a letter follows
/// it.
pub proof fn lemma_separator_before_post(s: Seq<char>, i: int, t: Seq<char>, j: int)
    requires
        separator_before_letter(s, i, t, j),
    ensures
        post_from(s, i) == post_from(t, j),
{
    lemma_at(s, i + 1, t, j, 0);
    assert(!digit_at(s, i + 1));
    assert(skip_sep(s, i) == i + 1);
    assert(skip_sep(t, j) == j);
    lemma_post_phase_shift(s, i + 1, t, j);
    if let Some((nm, k)) = post_phase_at(s, i + 1) {
        lemma_advance(s, i + 1, t, j, k - i - 1);
        lemma_number_tail_shift(s, k, t, k - i - 1 + j);
        lemma_dev_from_shift(s, number_tail(s, k).1, t, number_tail(t, k - i - 1 + j).1);
    } else {
        lemma_separator_before_dev(s, i, t, j);
    }
}

/// A separator before the pre-release part changes nothing when a letter
/// follows it.
pub proof fn lemma_separator_before_pre(s: Seq<char>, i: int, t: Seq<char>, j: int)
    requires
        separator_before_letter(s, i, t, j),
    ensures
        parts_from(s, i) == parts_from(t, j),
{
    assert(skip_sep(s, i) == i + 1);
    assert(skip_sep(t, j) == j);
    lemma_pre_phase_shift(s, i + 1, t, j);
    if let Some((ph, k)) = pre_phase_at(s, i + 1) {
        lemma_advance(s, i + 1, t, j, k - i - 1);
        lemma_number_tail_shift(s, k, t, k - i - 1 + j);
        lemma_post_from_shift(s, number_tail(s, k).1, t, number_tail(t, k - i - 1 + j).1);
    } else {
        lemma_separator_before_post(s, i, t, j);
    }
}

/// A separator between a phase name and its number changes nothing: the
/// same number is read, and the same text follows it.
pub proof fn lemma_separator_before_number(s: Seq<char>, k: int, t: Seq<char>, m: int)
    requires
        sep_at(s, k),
        same_from(s, k + 1, t, m),
        m < t.len(),
        !sep_at(t, m),
    ensures
        number_tail(s, k).0 == number_tail(t, m).0,
        same_from(s, number_tail(s, k).1, t, number_tail(t, m).1),
{
    assert(skip_sep(s, k) == k + 1);
    assert(skip_sep(t, m) == m);
    lemma_at(s, k + 1, t, m, 0);
    lemma_digit_run_shift(s, k + 1, t, m);
    crate::pypi::version::lemma_digit_run(s, k + 1);
    lemma_digits_value_shift(s, k + 1, t, m, 0, digit_run(s, k + 1) - k - 1);
    lemma_advance(s, k + 1, t, m, digit_run(s, k + 1) - k - 1);
}

/// `s` is `t` with a separator put in at `n`, before a lowercase letter.
pub open spec fn inserted_at(s: Seq<char>, t: Seq<char>, n: int) -> bool {
    &&& 0 <= n < t.len()
    &&& s.len() == t.len() + 1
    &&& s.take(n) == t.take(n)
    &&& separator_before_letter(s, n, t, n)
}

proof fn lemma_agree(s: Seq<char>, t: Seq<char>, n: int, q: int)
    requires
        inserted_at(s, t, n),
        0 <= q < n,
    ensures
        s[q] == t[q],
{
    assert(s.take(n)[q] == s[q]);
    assert(t.take(n)[q] == t[q]);
}

proof fn lemma_at_boundary(s: Seq<char>, t: Seq<char>, n: int)
    requires
        inserted_at(s, t, n),
    ensures
        s[n + 1] == t[n],
        !digit_at(s, n) && !digit_at(t, n),
        !char_at(s, n, '!') && !char_at(t, n, '!'),
        !char_at(t, n, '.') && !char_at(t, n, '-') && !char_at(t, n, '+'),
        !sep_at(t, n),
        !digit_at(s, n + 1),
{
    lemma_at(s, n + 1, t, n, 0);
}

proof fn lemma_digit_run_prefix(s: Seq<char>, t: Seq<char>, n: int, q: int)
    requires
        inserted_at(s, t, n),
        0 <= q <= n,
    ensures
        digit_run(s, q) == digit_run(t, q),
        digit_run(t, q) <= n,
    decreases n - q,
{
    lemma_at_boundary(s, t, n);
    if q < n {
        lemma_agree(s, t, n, q);
        if digit_at(t, q) {
            lemma_digit_run_prefix(s, t, n, q + 1);
        }
    }
}

proof fn lemma_digits_value_prefix(s: Seq<char>, t: Seq<char>, n: int, a: int, b: int)
    requires
        inserted_at(s, t, n),
        0 <= a <= b <= n,
    ensures
        digits_value(s, a, b) == digits_value(t, a, b),
    decreases b - a,
{
    if a < b {
        lemma_digits_value_prefix(s, t, n, a, b - 1);
        lemma_agree(s, t, n, b - 1);
    }
}

proof fn lemma_has_epoch_prefix(s: Seq<char>, t: Seq<char>, n: int, q: int)
    requires
        inserted_at(s, t, n),
        0 <= q <= n,
    ensures
        has_epoch(s, q) == has_epoch(t, q),
        has_epoch(t, q) ==> digit_run(t, q) + 1 <= n,
{
    lemma_digit_run_prefix(s, t, n, q);
    lemma_at_boundary(s, t, n);
    crate::pypi::version::lemma_digit_run(t, q);
    let e = digit_run(t, q);
    if e < n {
        lemma_agree(s, t, n, e);
        if e + 1 < n {
            lemma_agree(s, t, n, e + 1);
        }
    }
}

proof fn lemma_release_prefix(s: Seq<char>, t: Seq<char>, n: int, q: int)
    requires
        inserted_at(s, t, n),
        0 <= q <= n,
    ensures
        release_end(s, q) == release_end(t, q),
        release_values(s, q) == release_values(t, q),
        release_end(t, q) <= n,
    decreases n - q,
{
    lemma_digit_run_prefix(s, t, n, q);
    lemma_at_boundary(s, t, n);
    crate::pypi::version::lemma_digit_run(t, q);
    let j = digit_run(t, q);
    lemma_digits_value_prefix(s, t, n, q, j);
    if j < n {
        lemma_agree(s, t, n, j);
        if j + 1 < n {
            lemma_agree(s, t, n, j + 1);
        }
    }
    if q < j && more_release(t, j) {
        lemma_release_prefix(s, t, n, j + 1);
    }
}

proof fn lemma_match_start_prefix(s: Seq<char>, t: Seq<char>, n: int, q: int, p: int)
    requires
        inserted_at(s, t, n),
        0 <= q <= p < n,
        match_start(t, q) == Some(p),
    ensures
        match_start(s, q) == Some(p),
    decreases p - q,
{
    lemma_agree(s, t, n, q);
    lemma_at_boundary(s, t, n);
    if q + 1 < n {
        lemma_agree(s, t, n, q + 1);
    }
    assert(starts_at(s, q) == starts_at(t, q));
    crate::pypi::version::lemma_match_start(t, q + 1);
    if q < p {
        lemma_match_start_prefix(s, t, n, q + 1, p);
    }
}

pub open spec fn all_lower(l: Seq<char>) -> bool {
    forall|k: int| 0 <= k < l.len() ==> #[trigger] is_lower(l[k])
}

proof fn lemma_literals_lower()
    ensures
        all_lower(lit_alpha()) && all_lower(lit_a()) && all_lower(lit_beta()) && all_lower(lit_b()),
        all_lower(lit_preview()) && all_lower(lit_pre()) && all_lower(lit_c()) && all_lower(lit_rc()),
        all_lower(lit_post()) && all_lower(lit_rev()) && all_lower(lit_r()) && all_lower(lit_dev()),
{
}

proof fn lemma_lit_prefix(s: Seq<char>, t: Seq<char>, n: int, a: int, l: Seq<char>)
    requires
        inserted_at(s, t, n),
        0 <= a <= n,
        all_lower(l),
    ensures
        lit_at(s, a, l) ==> lit_at(t, a, l),
        lit_at(t, a, l) && a + l.len() <= n ==> lit_at(s, a, l),
{
    if a + l.len() <= n {
        assert forall|k: int| a <= k < a + l.len() implies s[k] == t[k] by {
            lemma_agree(s, t, n, k);
        }
        assert(s.subrange(a, a + l.len()) =~= t.subrange(a, a + l.len()));
    } else if lit_at(s, a, l) {
        assert(s.subrange(a, a + l.len())[n - a] == s[n]);
        assert(is_lower(l[n - a]));
    }
}

proof fn lemma_pre_phase_prefix(s: Seq<char>, t: Seq<char>, n: int, a: int)
    requires
        inserted_at(s, t, n),
        0 <= a <= n,
    ensures
        pre_phase_at(t, a) is None ==> pre_phase_at(s, a) is None,
        (pre_phase_at(t, a) matches Some((ph, k)) && k <= n) ==> pre_phase_at(s, a) == pre_phase_at(t, a),
{
    lemma_literals_lower();
    lemma_lit_prefix(s, t, n, a, lit_alpha());
    lemma_lit_prefix(s, t, n, a, lit_a());
    lemma_lit_prefix(s, t, n, a, lit_beta());
    lemma_lit_prefix(s, t, n, a, lit_b());
    lemma_lit_prefix(s, t, n, a, lit_preview());
    lemma_lit_prefix(s, t, n, a, lit_pre());
    lemma_lit_prefix(s, t, n, a, lit_c());
    lemma_lit_prefix(s, t, n, a, lit_rc());
}

proof fn lemma_post_phase_prefix(s: Seq<char>, t: Seq<char>, n: int, a: int)
    requires
        inserted_at(s, t, n),
        0 <= a <= n,
    ensures
        post_phase_at(t, a) is None ==> post_phase_at(s, a) is None,
        (post_phase_at(t, a) matches Some((nm, k)) && k <= n) ==> post_phase_at(s, a) == post_phase_at(t, a),
{
    lemma_literals_lower();
    lemma_lit_prefix(s, t, n, a, lit_post());
    lemma_lit_prefix(s, t, n, a, lit_rev());
    lemma_lit_prefix(s, t, n, a, lit_r());
}

proof fn lemma_number_tail_ge(t: Seq<char>, k: int)
    requires
        0 <= k <= t.len(),
    ensures
        k <= number_tail(t, k).1,
{
    let a = skip_sep(t, k);
    if digit_at(t, a) {
        crate::pypi::version::lemma_digit_run(t, a);
    }
}

proof fn lemma_number_tail_prefix(s: Seq<char>, t: Seq<char>, n: int, k: int)
    requires
        inserted_at(s, t, n),
        0 <= k <= n,
        number_tail(t, k).1 <= n,
    ensures
        number_tail(s, k).0 == number_tail(t, k).0,
        number_tail(t, k).1 < n ==> number_tail(s, k).1 == number_tail(t, k).1,
        number_tail(t, k).1 == n ==> number_tail(s, k).1 == n || number_tail(s, k).1 == n + 1,
{
    lemma_at_boundary(s, t, n);
    if k < n {
        lemma_agree(s, t, n, k);
        let a = skip_sep(t, k);
        assert(skip_sep(s, k) == a);
        if a < n {
            lemma_agree(s, t, n, a);
            lemma_digit_run_prefix(s, t, n, a);
            crate::pypi::version::lemma_digit_run(t, a);
            lemma_digits_value_prefix(s, t, n, a, digit_run(t, a));
        }
    }
}

proof fn lemma_pre_part_prefix(s: Seq<char>, t: Seq<char>, n: int, i: int)
    requires
        inserted_at(s, t, n),
        0 <= i < n,
        pre_part(t, i).1 <= n,
    ensures
        pre_part(s, i).0 == pre_part(t, i).0,
        pre_part(t, i).1 < n ==> pre_part(s, i).1 == pre_part(t, i).1,
        pre_part(t, i).1 == n ==> pre_part(s, i).1 == n || pre_part(s, i).1 == n + 1,
{
    lemma_agree(s, t, n, i);
    let a = skip_sep(t, i);
    assert(skip_sep(s, i) == a);
    lemma_pre_phase_prefix(s, t, n, a);
    if let Some((ph, k)) = pre_phase_at(t, a) {
        lemma_number_tail_ge(t, k);
        lemma_number_tail_prefix(s, t, n, k);
    }
}

proof fn lemma_post_part_prefix(s: Seq<char>, t: Seq<char>, n: int, i: int)
    requires
        inserted_at(s, t, n),
        0 <= i < n,
        post_part(t, i).1 <= n,
    ensures
        post_part(s, i).0 == post_part(t, i).0,
        post_part(t, i).1 < n ==> post_part(s, i).1 == post_part(t, i).1,
        post_part(t, i).1 == n ==> post_part(s, i).1 == n || post_part(s, i).1 == n + 1,
{
    lemma_at_boundary(s, t, n);
    lemma_agree(s, t, n, i);
    if i + 1 < n {
        lemma_agree(s, t, n, i + 1);
    }
    if char_at(t, i, '-') && digit_at(t, i + 1) {
        lemma_digit_run_prefix(s, t, n, i + 1);
        crate::pypi::version::lemma_digit_run(t, i + 1);
        lemma_digits_value_prefix(s, t, n, i + 1, digit_run(t, i + 1));
    } else {
        let a = skip_sep(t, i);
        assert(skip_sep(s, i) == a);
        lemma_post_phase_prefix(s, t, n, a);
        if let Some((nm, k)) = post_phase_at(t, a) {
            lemma_number_tail_ge(t, k);
            lemma_number_tail_prefix(s, t, n, k);
        }
    }
}

proof fn lemma_post_from_insert(s: Seq<char>, t: Seq<char>, n: int, i: int)
    requires
        inserted_at(s, t, n),
        0 <= i <= n,
        i == n || post_part(t, i).1 == n,
    ensures
        post_from(s, i) == post_from(t, i),
{
    if i == n {
        lemma_separator_before_post(s, n, t, n);
    } else {
        lemma_post_part_prefix(s, t, n, i);
        if post_part(s, i).1 == n {
            lemma_separator_before_dev(s, n, t, n);
        } else {
            lemma_dev_from_shift(s, n + 1, t, n);
        }
    }
}

proof fn lemma_parts_from_insert(s: Seq<char>, t: Seq<char>, n: int, i: int)
    requires
        inserted_at(s, t, n),
        0 <= i <= n,
        i == n || pre_part(t, i).1 == n || (pre_part(t, i).1 < n && post_part(t, pre_part(t, i).1).1 == n),
    ensures
        parts_from(s, i) == parts_from(t, i),
{
    if i == n {
        lemma_separator_before_pre(s, n, t, n);
    } else {
        lemma_pre_part_prefix(s, t, n, i);
        let e = pre_part(t, i).1;
        if e == n {
            if pre_part(s, i).1 == n {
                lemma_separator_before_post(s, n, t, n);
            } else {
                lemma_post_from_shift(s, n + 1, t, n);
            }
        } else {
            lemma_post_from_insert(s, t, n, e);
        }
    }
}

proof fn lemma_release_end_ge(t: Seq<char>, q: int)
    requires
        0 <= q <= t.len(),
    ensures
        digit_run(t, q) <= release_end(t, q) <= t.len(),
        q <= digit_run(t, q),
    decreases t.len() - q,
{
    crate::pypi::version::lemma_digit_run(t, q);
    let j = digit_run(t, q);
    if q < j && more_release(t, j) {
        lemma_release_end_ge(t, j + 1);
    }
}

proof fn lemma_part_ends(t: Seq<char>, i: int)
    requires
        0 <= i <= t.len(),
    ensures
        i <= pre_part(t, i).1 <= t.len(),
        i <= post_part(t, i).1 <= t.len(),
{
    let a = skip_sep(t, i);
    if let Some((ph, k)) = pre_phase_at(t, a) {
        lemma_number_tail_ge(t, k);
        lemma_number_tail_le(t, k);
    }
    if char_at(t, i, '-') && digit_at(t, i + 1) {
        crate::pypi::version::lemma_digit_run(t, i + 1);
    } else if let Some((nm, k)) = post_phase_at(t, a) {
        lemma_number_tail_ge(t, k);
        lemma_number_tail_le(t, k);
    }
}

proof fn lemma_number_tail_le(t: Seq<char>, k: int)
    requires
        0 <= k <= t.len(),
    ensures
        number_tail(t, k).1 <= t.len(),
{
    let a = skip_sep(t, k);
    if digit_at(t, a) {
        crate::pypi::version::lemma_digit_run(t, a);
    }
}

/// Where the release of the version in `t` ends, and where its pre-release
/// and post-release parts end: the places before which a part may start.
pub open spec fn part_boundary(t: Seq<char>, n: int) -> bool {
    match match_start(t, 0) {
        Some(p) => {
            let e0 = release_end(t, release_from(t, p));
            let e1 = pre_part(t, e0).1;
            let e2 = post_part(t, e1).1;
            n == e0 || n == e1 || n == e2
        },
        None => false,
    }
}

/// A separator `-`, `_` or `.` before the pre-release, post-release or
/// development part of a version may be left out or put in: the text with
/// the separator reads as the same version as the text without it. The
/// place is one where a part may start (after the release, or after the
/// pre- or post-release part), and a letter follows it, as the name of a
/// part does.
pub proof fn lemma_separator_before_part(t: Seq<char>, n: int, c: char)
    requires
        part_boundary(t, n),
        0 <= n < t.len(),
        is_lower(t[n]),
        c == '-' || c == '_' || c == '.',
    ensures
        read_version(t.insert(n, c)) == read_version(t),
{
    let s = t.insert(n, c);
    assert(s.take(n) =~= t.take(n));
    assert(s.skip(n + 1) =~= t.skip(n));
    assert(s[n] == c);
    assert(inserted_at(s, t, n));
    let p = match_start(t, 0)->0;
    crate::pypi::version::lemma_match_start(t, 0);
    let q = if char_at(t, p, 'v') { p + 1 } else { p };
    let r = release_from(t, p);
    crate::pypi::version::lemma_digit_run(t, q);
    assert(digit_at(t, r));
    lemma_release_end_ge(t, r);
    let e0 = release_end(t, r);
    lemma_part_ends(t, e0);
    let e1 = pre_part(t, e0).1;
    lemma_part_ends(t, e1);
    assert(p < e0 <= n);
    lemma_match_start_prefix(s, t, n, 0, p);
    lemma_agree(s, t, n, p);
    assert(char_at(s, p, 'v') == char_at(t, p, 'v'));
    lemma_has_epoch_prefix(s, t, n, q);
    lemma_digit_run_prefix(s, t, n, q);
    lemma_digits_value_prefix(s, t, n, q, digit_run(t, q));
    assert(release_from(s, p) == r);
    assert(epoch_of(s, p) == epoch_of(t, p));
    lemma_release_prefix(s, t, n, r);
    lemma_parts_from_insert(s, t, n, e0);
    assert(read_at(s, p) == read_at(t, p));
}

/// `s` and `t` agree below `k`; at `k`, `s` holds a separator and `t` a
/// digit, and before `k` stands a letter.
pub open spec fn agree_below(s: Seq<char>, t: Seq<char>, k: int) -> bool {
    &&& 1 <= k
    &&& k < s.len()
    &&& k < t.len()
    &&& s.take(k) == t.take(k)
    &&& sep_at(s, k)
    &&& digit_at(t, k)
    &&& is_lower(t[k - 1])
}

proof fn lemma_agree2(s: Seq<char>, t: Seq<char>, k: int, q: int)
    requires
        agree_below(s, t, k),
        0 <= q < k,
    ensures
        s[q] == t[q],
{
    assert(s.take(k)[q] == s[q]);
    assert(t.take(k)[q] == t[q]);
}

proof fn lemma_digit_run2(s: Seq<char>, t: Seq<char>, k: int, q: int)
    requires
        agree_below(s, t, k),
        0 <= q,
        digit_run(t, q) < k,
    ensures
        digit_run(s, q) == digit_run(t, q),
    decreases k - q,
{
    if q < k {
        lemma_agree2(s, t, k, q);
        if digit_at(t, q) {
            lemma_digit_run2(s, t, k, q + 1);
        }
    } else if q <= t.len() {
        crate::pypi::version::lemma_digit_run(t, q);
    }
}

proof fn lemma_digits_value2(s: Seq<char>, t: Seq<char>, k: int, a: int, b: int)
    requires
        agree_below(s, t, k),
        0 <= a <= b <= k,
    ensures
        digits_value(s, a, b) == digits_value(t, a, b),
    decreases b - a,
{
    if a < b {
        lemma_digits_value2(s, t, k, a, b - 1);
        lemma_agree2(s, t, k, b - 1);
    }
}

proof fn lemma_release2(s: Seq<char>, t: Seq<char>, k: int, q: int)
    requires
        agree_below(s, t, k),
        0 <= q,
        release_end(t, q) < k,
    ensures
        release_end(s, q) == release_end(t, q),
        release_values(s, q) == release_values(t, q),
    decreases k - q,
{
    lemma_release_end_ge(t, q);
    let j = digit_run(t, q);
    lemma_digit_run2(s, t, k, q);
    crate::pypi::version::lemma_digit_run(t, q);
    lemma_digits_value2(s, t, k, q, j);
    lemma_agree2(s, t, k, j);
    if j + 1 < k {
        lemma_agree2(s, t, k, j + 1);
    }
    if q < j && more_release(t, j) {
        lemma_release_end_ge(t, j + 1);
        lemma_release2(s, t, k, j + 1);
    }
}

proof fn lemma_has_epoch2(s: Seq<char>, t: Seq<char>, k: int, q: int)
    requires
        agree_below(s, t, k),
        0 <= q,
        digit_run(t, q) < k,
    ensures
        has_epoch(s, q) == has_epoch(t, q),
{
    lemma_digit_run2(s, t, k, q);
    let e = digit_run(t, q);
    crate::pypi::version::lemma_digit_run(t, q);
    lemma_agree2(s, t, k, e);
    if e + 1 < k {
        lemma_agree2(s, t, k, e + 1);
    }
}

proof fn lemma_match_start2(s: Seq<char>, t: Seq<char>, k: int, q: int, p: int)
    requires
        agree_below(s, t, k),
        0 <= q <= p,
        p + 1 < k,
        match_start(t, q) == Some(p),
    ensures
        match_start(s, q) == Some(p),
    decreases p - q,
{
    lemma_agree2(s, t, k, q);
    lemma_agree2(s, t, k, q + 1);
    assert(starts_at(s, q) == starts_at(t, q));
    crate::pypi::version::lemma_match_start(t, q + 1);
    if q < p {
        lemma_match_start2(s, t, k, q + 1, p);
    }
}

proof fn lemma_lit2(s: Seq<char>, t: Seq<char>, k: int, a: int, l: Seq<char>)
    requires
        agree_below(s, t, k),
        0 <= a <= k,
        all_lower(l),
    ensures
        lit_at(s, a, l) == lit_at(t, a, l),
{
    if a + l.len() <= k {
        assert forall|m: int| a <= m < a + l.len() implies s[m] == t[m] by {
            lemma_agree2(s, t, k, m);
        }
        assert(s.subrange(a, a + l.len()) =~= t.subrange(a, a + l.len()));
    } else {
        if lit_at(s, a, l) {
            assert(s.subrange(a, a + l.len())[k - a] == s[k]);
            assert(is_lower(l[k - a]));
        }
        if lit_at(t, a, l) {
            assert(t.subrange(a, a + l.len())[k - a] == t[k]);
            assert(is_lower(l[k - a]));
        }
    }
}

proof fn lemma_phases2(s: Seq<char>, t: Seq<char>, k: int, a: int)
    requires
        agree_below(s, t, k),
        0 <= a <= k,
    ensures
        pre_phase_at(s, a) == pre_phase_at(t, a),
        post_phase_at(s, a) == post_phase_at(t, a),
        lit_at(s, a, lit_dev()) == lit_at(t, a, lit_dev()),
{
    lemma_literals_lower();
    lemma_lit2(s, t, k, a, lit_alpha());
    lemma_lit2(s, t, k, a, lit_a());
    lemma_lit2(s, t, k, a, lit_beta());
    lemma_lit2(s, t, k, a, lit_b());
    lemma_lit2(s, t, k, a, lit_preview());
    lemma_lit2(s, t, k, a, lit_pre());
    lemma_lit2(s, t, k, a, lit_c());
    lemma_lit2(s, t, k, a, lit_rc());
    lemma_lit2(s, t, k, a, lit_post());
    lemma_lit2(s, t, k, a, lit_rev());
    lemma_lit2(s, t, k, a, lit_r());
    lemma_lit2(s, t, k, a, lit_dev());
}

proof fn lemma_number_tail2(s: Seq<char>, t: Seq<char>, k: int, m: int)
    requires
        agree_below(s, t, k),
        0 <= m < k,
        number_tail(t, m).1 < k,
    ensures
        number_tail(s, m) == number_tail(t, m),
{
    lemma_agree2(s, t, k, m);
    let a = skip_sep(t, m);
    assert(skip_sep(s, m) == a);
    lemma_agree2(s, t, k, a);
    if digit_at(t, a) {
        lemma_digit_run2(s, t, k, a);
        crate::pypi::version::lemma_digit_run(t, a);
        lemma_digits_value2(s, t, k, a, digit_run(t, a));
    }
}

proof fn lemma_pre_part2(s: Seq<char>, t: Seq<char>, k: int, i: int)
    requires
        agree_below(s, t, k),
        0 <= i < k,
        pre_part(t, i).1 < k,
    ensures
        pre_part(s, i) == pre_part(t, i),
{
    lemma_agree2(s, t, k, i);
    let a = skip_sep(t, i);
    assert(skip_sep(s, i) == a);
    lemma_phases2(s, t, k, a);
    if let Some((ph, m)) = pre_phase_at(t, a) {
        lemma_number_tail_ge(t, m);
        lemma_number_tail2(s, t, k, m);
    }
}

proof fn lemma_post_part2(s: Seq<char>, t: Seq<char>, k: int, i: int)
    requires
        agree_below(s, t, k),
        0 <= i < k,
        post_part(t, i).1 < k,
    ensures
        post_part(s, i) == post_part(t, i),
{
    lemma_agree2(s, t, k, i);
    if i + 1 < k {
        lemma_agree2(s, t, k, i + 1);
    }
    if char_at(t, i, '-') && digit_at(t, i + 1) {
        crate::pypi::version::lemma_digit_run(t, i + 1);
        lemma_digit_run2(s, t, k, i + 1);
        lemma_digits_value2(s, t, k, i + 1, digit_run(t, i + 1));
    } else {
        let a = skip_sep(t, i);
        assert(skip_sep(s, i) == a);
        lemma_phases2(s, t, k, a);
        if let Some((nm, m)) = post_phase_at(t, a) {
            lemma_number_tail_ge(t, m);
            lemma_number_tail2(s, t, k, m);
        }
    }
}

proof fn lemma_word_end(t: Seq<char>, a: int, l: Seq<char>)
    requires
        lit_at(t, a, l),
        l.len() > 0,
        all_lower(l),
    ensures
        is_lower(t[a + l.len() - 1]),
{
    assert(t.subrange(a, a + l.len())[l.len() - 1] == t[a + l.len() - 1]);
    assert(is_lower(l[l.len() - 1]));
}

proof fn lemma_phase_word_end(t: Seq<char>, a: int)
    requires
        0 <= a,
    ensures
        pre_phase_at(t, a) matches Some((ph, m)) ==> a < m <= t.len() && is_lower(t[m - 1]),
        post_phase_at(t, a) matches Some((nm, m)) ==> a < m <= t.len() && is_lower(t[m - 1]),
        lit_at(t, a, lit_dev()) ==> a + 3 <= t.len() && is_lower(t[a + 2]),
{
    lemma_literals_lower();
    if lit_at(t, a, lit_alpha()) { lemma_word_end(t, a, lit_alpha()); }
    if lit_at(t, a, lit_a()) { lemma_word_end(t, a, lit_a()); }
    if lit_at(t, a, lit_beta()) { lemma_word_end(t, a, lit_beta()); }
    if lit_at(t, a, lit_b()) { lemma_word_end(t, a, lit_b()); }
    if lit_at(t, a, lit_preview()) { lemma_word_end(t, a, lit_preview()); }
    if lit_at(t, a, lit_pre()) { lemma_word_end(t, a, lit_pre()); }
    if lit_at(t, a, lit_c()) { lemma_word_end(t, a, lit_c()); }
    if lit_at(t, a, lit_rc()) { lemma_word_end(t, a, lit_rc()); }
    if lit_at(t, a, lit_post()) { lemma_word_end(t, a, lit_post()); }
    if lit_at(t, a, lit_rev()) { lemma_word_end(t, a, lit_rev()); }
    if lit_at(t, a, lit_r()) { lemma_word_end(t, a, lit_r()); }
    if lit_at(t, a, lit_dev()) { lemma_word_end(t, a, lit_dev()); }
}

/// The end of the phase name of the pre-release, post-release or
/// development part of the version in `t`: the place before its number.
pub open spec fn phase_name_end(t: Seq<char>, k: int) -> bool {
    match match_start(t, 0) {
        Some(p) => {
            let e0 = release_end(t, release_from(t, p));
            let e1 = pre_part(t, e0).1;
            let e2 = post_part(t, e1).1;
            ||| pre_phase_at(t, skip_sep(t, e0)) matches Some((ph, m)) && m == k
            ||| !(char_at(t, e1, '-') && digit_at(t, e1 + 1)) && (post_phase_at(t, skip_sep(t, e1))
                matches Some((nm, m)) && m == k)
            ||| lit_at(t, skip_sep(t, e2), lit_dev()) && skip_sep(t, e2) + 3 == k
        },
        None => false,
    }
}

proof fn lemma_parts_number_insert(s: Seq<char>, t: Seq<char>, k: int, e0: int)
    requires
        agree_below(s, t, k),
        same_from(s, k + 1, t, k),
        0 <= e0 < k,
        ({
            let e1 = pre_part(t, e0).1;
            let e2 = post_part(t, e1).1;
            ||| pre_phase_at(t, skip_sep(t, e0)) matches Some((ph, m)) && m == k
            ||| !(char_at(t, e1, '-') && digit_at(t, e1 + 1)) && (post_phase_at(t, skip_sep(t, e1))
                matches Some((nm, m)) && m == k)
            ||| lit_at(t, skip_sep(t, e2), lit_dev()) && skip_sep(t, e2) + 3 == k
        }),
    ensures
        parts_from(s, e0) == parts_from(t, e0),
{
    lemma_agree2(s, t, k, e0);
    let a = skip_sep(t, e0);
    assert(skip_sep(s, e0) == a);
    lemma_phase_word_end(t, a);
    if pre_phase_at(t, a) matches Some((ph, m)) && m == k {
        lemma_phases2(s, t, k, a);
        lemma_separator_before_number(s, k, t, k);
        lemma_post_from_shift(s, number_tail(s, k).1, t, number_tail(t, k).1);
    } else {
        lemma_part_ends(t, e0);
        let e1 = pre_part(t, e0).1;
        let a2 = skip_sep(t, e1);
        lemma_phase_word_end(t, a2);
        if !(char_at(t, e1, '-') && digit_at(t, e1 + 1)) && (post_phase_at(t, a2) matches Some((nm, m)) && m == k) {
            assert(e1 < k);
            lemma_pre_part2(s, t, k, e0);
            lemma_agree2(s, t, k, e1);
            if e1 + 1 < k {
                lemma_agree2(s, t, k, e1 + 1);
            }
            assert(skip_sep(s, e1) == a2);
            lemma_phases2(s, t, k, a2);
            lemma_separator_before_number(s, k, t, k);
            lemma_dev_from_shift(s, number_tail(s, k).1, t, number_tail(t, k).1);
        } else {
            lemma_part_ends(t, e1);
            let e2 = post_part(t, e1).1;
            let a3 = skip_sep(t, e2);
            lemma_phase_word_end(t, a3);
            assert(e2 < k);
            lemma_pre_part2(s, t, k, e0);
            lemma_post_part2(s, t, k, e1);
            lemma_agree2(s, t, k, e2);
            assert(skip_sep(s, e2) == a3);
            lemma_phases2(s, t, k, a3);
            lemma_separator_before_number(s, k, t, k);
            lemma_local_part_shift(s, number_tail(s, k).1, t, number_tail(t, k).1);
            assert(dev_from(s, e2) == dev_from(t, e2));
        }
    }
}

/// A separator `-`, `_` or `.` between the phase name of a pre-release,
/// post-release or development part and its number may be left out or put
/// in: the text with the separator reads as the same version as the text
/// without it.
pub proof fn lemma_separator_before_phase_number(t: Seq<char>, k: int, c: char)
    requires
        phase_name_end(t, k),
        0 <= k < t.len(),
        '0' <= t[k] && t[k] <= '9',
        c == '-' || c == '_' || c == '.',
    ensures
        read_version(t.insert(k, c)) == read_version(t),
{
    let s = t.insert(k, c);
    assert(s.take(k) =~= t.take(k));
    assert(s.skip(k + 1) =~= t.skip(k));
    assert(s[k] == c);
    let p = match_start(t, 0)->0;
    crate::pypi::version::lemma_match_start(t, 0);
    let q = if char_at(t, p, 'v') { p + 1 } else { p };
    let r = release_from(t, p);
    crate::pypi::version::lemma_digit_run(t, q);
    assert(digit_at(t, r));
    lemma_release_end_ge(t, r);
    let e0 = release_end(t, r);
    lemma_part_ends(t, e0);
    let e1 = pre_part(t, e0).1;
    lemma_part_ends(t, e1);
    let e2 = post_part(t, e1).1;
    lemma_phase_word_end(t, skip_sep(t, e0));
    lemma_phase_word_end(t, skip_sep(t, e1));
    lemma_phase_word_end(t, skip_sep(t, e2));
    assert(e0 < k);
    assert(agree_below(s, t, k));
    lemma_match_start2(s, t, k, 0, p);
    lemma_agree2(s, t, k, p);
    assert(char_at(s, p, 'v') == char_at(t, p, 'v'));
    lemma_has_epoch2(s, t, k, q);
    lemma_digit_run2(s, t, k, q);
    lemma_digits_value2(s, t, k, q, digit_run(t, q));
    assert(release_from(s, p) == r);
    assert(epoch_of(s, p) == epoch_of(t, p));
    lemma_release2(s, t, k, r);
    lemma_parts_number_insert(s, t, k, e0);
    assert(read_at(s, p) == read_at(t, p));
}

} // verus!
