//! Version identifiers of Python packages: parsing and ordering.
//!
//! The accepted syntax is
//! `v? (EPOCH!)? RELEASE PRE? POST? DEV? (+LOCAL)?`, searched for anywhere
//! in the text: the leftmost place where it can start is taken, and at each
//! optional part the longest reading is preferred.

use crate::text::{char_at, chars_of, lit_at, lit_at_exec, string_of_range};
use std::cmp::Ordering;
use vstd::prelude::*;
use vstd::std_specs::cmp::{PartialEqSpecImpl, PartialOrdSpecImpl};

verus! {

// ---------------------------------------------------------------------------
// Characters and numbers
// ---------------------------------------------------------------------------

pub open spec fn is_digit(c: char) -> bool {
    '0' <= c && c <= '9'
}

pub open spec fn is_sep(c: char) -> bool {
    c == '-' || c == '_' || c == '.'
}

/// `[a-z0-9]`, the characters of a local label.
pub open spec fn is_local_char(c: char) -> bool {
    ('a' <= c && c <= 'z') || is_digit(c)
}

pub open spec fn digit_at(s: Seq<char>, i: int) -> bool {
    0 <= i < s.len() && is_digit(s[i])
}

pub open spec fn sep_at(s: Seq<char>, i: int) -> bool {
    0 <= i < s.len() && is_sep(s[i])
}

pub open spec fn local_char_at(s: Seq<char>, i: int) -> bool {
    0 <= i < s.len() && is_local_char(s[i])
}

/// End of the longest run of digits that starts at `i`.
pub open spec fn digit_run(s: Seq<char>, i: int) -> int
    decreases s.len() - i,
{
    if digit_at(s, i) {
        digit_run(s, i + 1)
    } else {
        i
    }
}

/// End of the longest run of `[a-z0-9]` that starts at `i`.
pub open spec fn local_run(s: Seq<char>, i: int) -> int
    decreases s.len() - i,
{
    if local_char_at(s, i) {
        local_run(s, i + 1)
    } else {
        i
    }
}

/// The decimal number written by `s[i..j]`.
pub open spec fn digits_value(s: Seq<char>, i: int, j: int) -> nat
    decreases j - i,
{
    if j <= i {
        0
    } else {
        digits_value(s, i, j - 1) * 10 + ((s[j - 1] as int - '0' as int) as nat)
    }
}

/// Position after an optional separator at `i`.
pub open spec fn skip_sep(s: Seq<char>, i: int) -> int {
    if sep_at(s, i) {
        i + 1
    } else {
        i
    }
}

pub proof fn lemma_digit_run(s: Seq<char>, i: int)
    requires
        0 <= i <= s.len(),
    ensures
        i <= digit_run(s, i) <= s.len(),
        forall|k: int| i <= k < digit_run(s, i) ==> is_digit(s[k]),
        !digit_at(s, digit_run(s, i)),
    decreases s.len() - i,
{
    if digit_at(s, i) {
        lemma_digit_run(s, i + 1);
    }
}

pub proof fn lemma_local_run(s: Seq<char>, i: int)
    requires
        0 <= i <= s.len(),
    ensures
        i <= local_run(s, i) <= s.len(),
    decreases s.len() - i,
{
    if local_char_at(s, i) {
        lemma_local_run(s, i + 1);
    }
}

proof fn lemma_digits_value_grows(s: Seq<char>, i: int, j: int, k: int)
    requires
        i <= j <= k,
        forall|m: int| i <= m < k ==> is_digit(s[m]),
    ensures
        digits_value(s, i, j) <= digits_value(s, i, k),
    decreases k - j,
{
    if j < k {
        lemma_digits_value_grows(s, i, j, k - 1);
    }
}

// ---------------------------------------------------------------------------
// The grammar
// ---------------------------------------------------------------------------

/// A match can start at `p`: a digit, or a `v` before a digit.
pub open spec fn starts_at(s: Seq<char>, p: int) -> bool {
    digit_at(s, p) || (char_at(s, p, 'v') && digit_at(s, p + 1))
}

/// The leftmost position at or after `p` where a match starts.
pub open spec fn match_start(s: Seq<char>, p: int) -> Option<int>
    decreases s.len() - p,
{
    if p < 0 || p >= s.len() {
        None
    } else if starts_at(s, p) {
        Some(p)
    } else {
        match_start(s, p + 1)
    }
}

/// An epoch `DIGITS!` at `q` is taken when a release number follows it.
pub open spec fn has_epoch(s: Seq<char>, q: int) -> bool {
    let e = digit_run(s, q);
    e > q && char_at(s, e, '!') && digit_at(s, e + 1)
}

pub open spec fn release_start(s: Seq<char>, q: int) -> int {
    if has_epoch(s, q) {
        digit_run(s, q) + 1
    } else {
        q
    }
}

/// A further release component `.DIGITS` starts at `j`.
pub open spec fn more_release(s: Seq<char>, j: int) -> bool {
    char_at(s, j, '.') && digit_at(s, j + 1)
}

/// End of the release `DIGITS(.DIGITS)*` that starts at `i`.
pub open spec fn release_end(s: Seq<char>, i: int) -> int
    decreases s.len() - i,
{
    let j = digit_run(s, i);
    if 0 <= i < j && more_release(s, j) {
        release_end(s, j + 1)
    } else {
        j
    }
}

/// The numbers of the release that starts at `i`.
pub open spec fn release_values(s: Seq<char>, i: int) -> Seq<nat>
    decreases s.len() - i,
{
    let j = digit_run(s, i);
    if 0 <= i < j && more_release(s, j) {
        seq![digits_value(s, i, j)] + release_values(s, j + 1)
    } else {
        seq![digits_value(s, i, j)]
    }
}

/// The optional `SEP? DIGITS?` after a phase name ending at `k`: the
/// number, if any, and the end of the part.
pub open spec fn number_tail(s: Seq<char>, k: int) -> (Option<nat>, int) {
    let a = skip_sep(s, k);
    if digit_at(s, a) {
        (Some(digits_value(s, a, digit_run(s, a))), digit_run(s, a))
    } else {
        (None, a)
    }
}

pub open spec fn lit_alpha() -> Seq<char> { seq!['a', 'l', 'p', 'h', 'a'] }
pub open spec fn lit_a() -> Seq<char> { seq!['a'] }
pub open spec fn lit_beta() -> Seq<char> { seq!['b', 'e', 't', 'a'] }
pub open spec fn lit_b() -> Seq<char> { seq!['b'] }
pub open spec fn lit_preview() -> Seq<char> { seq!['p', 'r', 'e', 'v', 'i', 'e', 'w'] }
pub open spec fn lit_pre() -> Seq<char> { seq!['p', 'r', 'e'] }
pub open spec fn lit_c() -> Seq<char> { seq!['c'] }
pub open spec fn lit_rc() -> Seq<char> { seq!['r', 'c'] }
pub open spec fn lit_post() -> Seq<char> { seq!['p', 'o', 's', 't'] }
pub open spec fn lit_rev() -> Seq<char> { seq!['r', 'e', 'v'] }
pub open spec fn lit_r() -> Seq<char> { seq!['r'] }
pub open spec fn lit_dev() -> Seq<char> { seq!['d', 'e', 'v'] }

/// The pre-release phase name at `a`, tried in the order
/// `alpha|a|beta|b|preview|pre|c|rc`, with the end of the name.
pub open spec fn pre_phase_at(s: Seq<char>, a: int) -> Option<(VersionPrePhase, int)> {
    if lit_at(s, a, lit_alpha()) {
        Some((VersionPrePhase::Alpha, a + 5))
    } else if lit_at(s, a, lit_a()) {
        Some((VersionPrePhase::Alpha, a + 1))
    } else if lit_at(s, a, lit_beta()) {
        Some((VersionPrePhase::Beta, a + 4))
    } else if lit_at(s, a, lit_b()) {
        Some((VersionPrePhase::Beta, a + 1))
    } else if lit_at(s, a, lit_preview()) {
        Some((VersionPrePhase::Preview, a + 7))
    } else if lit_at(s, a, lit_pre()) {
        Some((VersionPrePhase::Preview, a + 3))
    } else if lit_at(s, a, lit_c()) {
        Some((VersionPrePhase::Preview, a + 1))
    } else if lit_at(s, a, lit_rc()) {
        Some((VersionPrePhase::Preview, a + 2))
    } else {
        None
    }
}

/// The pre-release part at `i`: its phase and number, and where it ends.
pub open spec fn pre_part(s: Seq<char>, i: int) -> (Option<(VersionPrePhase, Option<nat>)>, int) {
    match pre_phase_at(s, skip_sep(s, i)) {
        Some((phase, k)) => (Some((phase, number_tail(s, k).0)), number_tail(s, k).1),
        None => (None, i),
    }
}

/// The post-release phase name at `a`, tried in the order `post|rev|r`.
pub open spec fn post_phase_at(s: Seq<char>, a: int) -> Option<(Seq<char>, int)> {
    if lit_at(s, a, lit_post()) {
        Some((lit_post(), a + 4))
    } else if lit_at(s, a, lit_rev()) {
        Some((lit_rev(), a + 3))
    } else if lit_at(s, a, lit_r()) {
        Some((lit_r(), a + 1))
    } else {
        None
    }
}

/// The post-release part at `i`: `-DIGITS`, or a phase name with an
/// optional number; and where it ends.
pub open spec fn post_part(s: Seq<char>, i: int) -> (Option<(Option<Seq<char>>, Option<nat>)>, int) {
    if char_at(s, i, '-') && digit_at(s, i + 1) {
        (Some((None, Some(digits_value(s, i + 1, digit_run(s, i + 1))))), digit_run(s, i + 1))
    } else {
        match post_phase_at(s, skip_sep(s, i)) {
            Some((name, k)) => (Some((Some(name), number_tail(s, k).0)), number_tail(s, k).1),
            None => (None, i),
        }
    }
}

/// The development part at `i`: its number, and where it ends.
pub open spec fn dev_part(s: Seq<char>, i: int) -> (Option<Option<nat>>, int) {
    let a = skip_sep(s, i);
    if lit_at(s, a, lit_dev()) {
        (Some(number_tail(s, a + 3).0), number_tail(s, a + 3).1)
    } else {
        (None, i)
    }
}

/// End of the local label `[a-z0-9]+([-_.][a-z0-9]+)*` that starts at `i`.
pub open spec fn local_end(s: Seq<char>, i: int) -> int
    decreases s.len() - i,
{
    let j = local_run(s, i);
    if 0 <= i < j && sep_at(s, j) && local_char_at(s, j + 1) {
        local_end(s, j + 1)
    } else {
        j
    }
}

/// The local label `+LABEL` at `i`.
pub open spec fn local_part(s: Seq<char>, i: int) -> Option<Seq<char>> {
    if char_at(s, i, '+') && local_char_at(s, i + 1) {
        Some(s.subrange(i + 1, local_end(s, i + 1)))
    } else {
        None
    }
}

pub open spec fn fits(n: nat) -> bool {
    n <= 65535
}

pub open spec fn number_ok(n: Option<nat>) -> bool {
    n is Some && fits(n->0)
}

/// The mathematical content of a version identifier.
pub struct IdentifierView {
    pub epoch: u16,
    pub release: Seq<u16>,
    pub pre: (VersionPrePhase, u16),
    pub post: Option<(Option<Seq<char>>, u16)>,
    pub dev: (VersionDevPhase, u16),
    pub local: Option<Seq<char>>,
}

/// What reading a version text gives.
pub enum VersionReading {
    /// No version can start anywhere in the text.
    NoMatch,
    /// The text holds a version whose phase lacks its number, or a number
    /// that does not fit in 16 bits.
    Malformed,
    /// The version read.
    Read(IdentifierView),
}

pub open spec fn release_fits(rel: Seq<nat>) -> bool {
    forall|k: int| 0 <= k < rel.len() ==> fits(#[trigger] rel[k])
}

/// The reading given by the numbers and parts found.
pub open spec fn reading_of(
    epoch: nat,
    rel: Seq<nat>,
    pre: Option<(VersionPrePhase, Option<nat>)>,
    post: Option<(Option<Seq<char>>, Option<nat>)>,
    dev: Option<Option<nat>>,
    local: Option<Seq<char>>,
) -> VersionReading {
    if !fits(epoch) || !release_fits(rel) || (pre is Some && !number_ok((pre->0).1)) || (
    post is Some && !number_ok((post->0).1)) || (dev is Some && !number_ok(dev->0)) {
        VersionReading::Malformed
    } else {
        VersionReading::Read(
            IdentifierView {
                epoch: epoch as u16,
                release: rel.map_values(|v: nat| v as u16),
                pre: match pre {
                    Some((phase, n)) => (phase, n->0 as u16),
                    None => (VersionPrePhase::Release, 0u16),
                },
                post: match post {
                    Some((name, n)) => Some((name, n->0 as u16)),
                    None => None,
                },
                dev: match dev {
                    Some(n) => (VersionDevPhase::Dev, n->0 as u16),
                    None => (VersionDevPhase::Release, 0u16),
                },
                local,
            },
        )
    }
}

/// Where the release starts, for a match that starts at `p`.
pub open spec fn release_from(s: Seq<char>, p: int) -> int {
    release_start(s, if char_at(s, p, 'v') { p + 1 } else { p })
}

/// The epoch of a match that starts at `p`; 0 when absent.
pub open spec fn epoch_of(s: Seq<char>, p: int) -> nat {
    let q = if char_at(s, p, 'v') { p + 1 } else { p };
    if has_epoch(s, q) { digits_value(s, q, digit_run(s, q)) } else { 0 }
}

/// Reading the version that starts at `p`.
pub open spec fn read_at(s: Seq<char>, p: int) -> VersionReading {
    let r = release_from(s, p);
    let pre = pre_part(s, release_end(s, r));
    let post = post_part(s, pre.1);
    let dev = dev_part(s, post.1);
    reading_of(
        epoch_of(s, p),
        release_values(s, r),
        pre.0,
        post.0,
        dev.0,
        local_part(s, dev.1),
    )
}

/// The pre-release phase that the word `w` spells: `alpha` and `a`,
/// `beta` and `b`, `preview`, `pre`, `c` and `rc`.
pub open spec fn pre_spelling(w: Seq<char>) -> Option<VersionPrePhase> {
    if w == lit_alpha() || w == lit_a() {
        Some(VersionPrePhase::Alpha)
    } else if w == lit_beta() || w == lit_b() {
        Some(VersionPrePhase::Beta)
    } else if w == lit_preview() || w == lit_pre() || w == lit_c() || w == lit_rc() {
        Some(VersionPrePhase::Preview)
    } else {
        None
    }
}

/// The digits of `v`, and those after a separator, read the same in `s1`
/// from `d1` as in `s2` from `d2`, where both hold `v`.
proof fn lemma_tail_shift(s1: Seq<char>, d1: int, s2: Seq<char>, d2: int, v: Seq<char>, k: int)
    requires
        0 <= d1,
        0 <= d2,
        s1.len() == d1 + v.len(),
        s2.len() == d2 + v.len(),
        forall|j: int| 0 <= j < v.len() ==> s1[d1 + j] == #[trigger] v[j] && s2[d2 + j] == v[j],
        0 <= k <= v.len(),
    ensures
        digit_run(s1, d1 + k) - d1 == digit_run(s2, d2 + k) - d2,
    decreases v.len() - k,
{
    if k < v.len() {
        lemma_tail_shift(s1, d1, s2, d2, v, k + 1);
        assert(s1[d1 + k] == v[k] && s2[d2 + k] == v[k]);
    }
}

proof fn lemma_digits_value_shift(s1: Seq<char>, d1: int, s2: Seq<char>, d2: int, v: Seq<char>, a: int, b: int)
    requires
        0 <= d1,
        0 <= d2,
        s1.len() == d1 + v.len(),
        s2.len() == d2 + v.len(),
        forall|j: int| 0 <= j < v.len() ==> s1[d1 + j] == #[trigger] v[j] && s2[d2 + j] == v[j],
        0 <= a <= b <= v.len(),
    ensures
        digits_value(s1, d1 + a, d1 + b) == digits_value(s2, d2 + a, d2 + b),
    decreases b - a,
{
    if a < b {
        lemma_digits_value_shift(s1, d1, s2, d2, v, a, b - 1);
        assert(s1[d1 + b - 1] == v[b - 1] && s2[d2 + b - 1] == v[b - 1]);
    }
}

proof fn lemma_phase_word(u: Seq<char>, w: Seq<char>, v: Seq<char>)
    requires
        pre_spelling(w) is Some,
        v.len() == 0 || !('a' <= v[0] && v[0] <= 'z'),
    ensures
        pre_phase_at(u + w + v, u.len() as int) == Some(
            (pre_spelling(w)->0, (u.len() + w.len()) as int),
        ),
{
    let s = u + w + v;
    let a = u.len() as int;
    assert(s.subrange(a, a + w.len()) =~= w);
    assert forall|j: int| 0 <= j < w.len() implies s[a + j] == w[j] by {}
    if v.len() > 0 {
        assert(s[a + w.len()] == v[0]);
    }
    if w == lit_alpha() {
    } else if w == lit_a() {
        if lit_at(s, a, lit_alpha()) {
            assert(s.subrange(a, a + 5)[1] == s[a + 1]);
        }
    } else if w == lit_beta() {
        if lit_at(s, a, lit_alpha()) { assert(s.subrange(a, a + 5)[0] == s[a]); }
        if lit_at(s, a, lit_a()) { assert(s.subrange(a, a + 1)[0] == s[a]); }
    } else if w == lit_b() {
        if lit_at(s, a, lit_alpha()) { assert(s.subrange(a, a + 5)[0] == s[a]); }
        if lit_at(s, a, lit_a()) { assert(s.subrange(a, a + 1)[0] == s[a]); }
        if lit_at(s, a, lit_beta()) { assert(s.subrange(a, a + 4)[1] == s[a + 1]); }
    } else if w == lit_preview() {
        if lit_at(s, a, lit_alpha()) { assert(s.subrange(a, a + 5)[0] == s[a]); }
        if lit_at(s, a, lit_a()) { assert(s.subrange(a, a + 1)[0] == s[a]); }
        if lit_at(s, a, lit_beta()) { assert(s.subrange(a, a + 4)[0] == s[a]); }
        if lit_at(s, a, lit_b()) { assert(s.subrange(a, a + 1)[0] == s[a]); }
    } else if w == lit_pre() {
        if lit_at(s, a, lit_alpha()) { assert(s.subrange(a, a + 5)[0] == s[a]); }
        if lit_at(s, a, lit_a()) { assert(s.subrange(a, a + 1)[0] == s[a]); }
        if lit_at(s, a, lit_beta()) { assert(s.subrange(a, a + 4)[0] == s[a]); }
        if lit_at(s, a, lit_b()) { assert(s.subrange(a, a + 1)[0] == s[a]); }
        if lit_at(s, a, lit_preview()) { assert(s.subrange(a, a + 7)[3] == s[a + 3]); }
    } else if w == lit_c() {
        if lit_at(s, a, lit_alpha()) { assert(s.subrange(a, a + 5)[0] == s[a]); }
        if lit_at(s, a, lit_a()) { assert(s.subrange(a, a + 1)[0] == s[a]); }
        if lit_at(s, a, lit_beta()) { assert(s.subrange(a, a + 4)[0] == s[a]); }
        if lit_at(s, a, lit_b()) { assert(s.subrange(a, a + 1)[0] == s[a]); }
        if lit_at(s, a, lit_preview()) { assert(s.subrange(a, a + 7)[0] == s[a]); }
        if lit_at(s, a, lit_pre()) { assert(s.subrange(a, a + 3)[0] == s[a]); }
    } else {
        if lit_at(s, a, lit_alpha()) { assert(s.subrange(a, a + 5)[0] == s[a]); }
        if lit_at(s, a, lit_a()) { assert(s.subrange(a, a + 1)[0] == s[a]); }
        if lit_at(s, a, lit_beta()) { assert(s.subrange(a, a + 4)[0] == s[a]); }
        if lit_at(s, a, lit_b()) { assert(s.subrange(a, a + 1)[0] == s[a]); }
        if lit_at(s, a, lit_preview()) { assert(s.subrange(a, a + 7)[0] == s[a]); }
        if lit_at(s, a, lit_pre()) { assert(s.subrange(a, a + 3)[0] == s[a]); }
        if lit_at(s, a, lit_c()) { assert(s.subrange(a, a + 1)[0] == s[a]); }
    }
}

/// Every spelling of a pre-release phase reads the same: after the same
/// text `u`, the words `w1` and `w2` spelling one phase, each followed by
/// the same text `v` that does not go on with a letter, give the same
/// pre-release part, with the same number, ending at the same place of `v`.
pub proof fn lemma_pre_spellings_agree(u: Seq<char>, w1: Seq<char>, w2: Seq<char>, v: Seq<char>)
    requires
        pre_spelling(w1) is Some,
        pre_spelling(w1) == pre_spelling(w2),
        v.len() == 0 || !('a' <= v[0] && v[0] <= 'z'),
    ensures
        pre_part(u + w1 + v, u.len() as int).0 == pre_part(u + w2 + v, u.len() as int).0,
        pre_part(u + w1 + v, u.len() as int).1 - (u.len() + w1.len()) == pre_part(
            u + w2 + v,
            u.len() as int,
        ).1 - (u.len() + w2.len()),
{
    let s1 = u + w1 + v;
    let s2 = u + w2 + v;
    let d1: int = (u.len() + w1.len()) as int;
    let d2: int = (u.len() + w2.len()) as int;
    let a = u.len() as int;
    assert(s1[a] == w1[0] && s2[a] == w2[0]);
    lemma_phase_word(u, w1, v);
    lemma_phase_word(u, w2, v);
    assert forall|j: int| 0 <= j < v.len() implies s1[d1 + j] == #[trigger] v[j] && s2[d2 + j] == v[j] by {}
    lemma_number_tail_shift(s1, d1, s2, d2, v);
}

proof fn lemma_number_tail_shift(s1: Seq<char>, d1: int, s2: Seq<char>, d2: int, v: Seq<char>)
    requires
        0 <= d1,
        0 <= d2,
        s1.len() == d1 + v.len(),
        s2.len() == d2 + v.len(),
        forall|j: int| 0 <= j < v.len() ==> s1[d1 + j] == #[trigger] v[j] && s2[d2 + j] == v[j],
    ensures
        number_tail(s1, d1).0 == number_tail(s2, d2).0,
        number_tail(s1, d1).1 - d1 == number_tail(s2, d2).1 - d2,
{
    let k: int = if v.len() > 0 && sep_at(s1, d1) { 1 } else { 0 };
    if v.len() > 0 {
        assert(s1[d1] == v[0] && s2[d2] == v[0]);
    }
    assert(skip_sep(s1, d1) == d1 + k && skip_sep(s2, d2) == d2 + k);
    lemma_tail_shift(s1, d1, s2, d2, v, k);
    lemma_digit_run(s1, d1 + k);
    if k < v.len() {
        assert(s1[d1 + k] == v[k] && s2[d2 + k] == v[k]);
    }
    lemma_digits_value_shift(s1, d1, s2, d2, v, k, digit_run(s1, d1 + k) - d1);
}

/// Reading a version text.
pub open spec fn read_version(s: Seq<char>) -> VersionReading {
    match match_start(s, 0) {
        None => VersionReading::NoMatch,
        Some(p) => read_at(s, p),
    }
}

pub proof fn lemma_match_start(s: Seq<char>, i: int)
    requires
        0 <= i,
    ensures
        match_start(s, i) matches Some(p) ==> i <= p < s.len() && starts_at(s, p),
    decreases s.len() - i,
{
    if i < s.len() && !starts_at(s, i) {
        lemma_match_start(s, i + 1);
    }
}

// ---------------------------------------------------------------------------
// Types
// ---------------------------------------------------------------------------

#[derive(Debug, Clone, Copy, PartialEq, Eq, Structural, PartialOrd, Ord, Hash)]
pub enum VersionPrePhase {
    Alpha,
    Beta,
    Preview,
    /// Not a pre-release; orders after every pre-release phase.
    Release,
}

#[derive(Debug, Clone, Copy, PartialEq, Eq, Structural, PartialOrd, Ord, Hash)]
pub enum VersionDevPhase {
    Dev,
    /// Not a development release; orders after `Dev`.
    Release,
}

#[derive(Debug, Eq, Hash)]
pub struct VersionIdentifier {
    pub epoch: u16,
    pub release: Vec<u16>,
    pub pre: (VersionPrePhase, u16),
    pub post: Option<(Option<String>, u16)>,
    pub dev: (VersionDevPhase, u16),
    pub local: Option<String>,
}

#[derive(Debug, Clone, Eq, Hash)]
pub struct Version {
    raw: String,
    pub identifier: VersionIdentifier,
}

pub open spec fn opt_string_view(s: Option<String>) -> Option<Seq<char>> {
    match s {
        Some(t) => Some(t@),
        None => None,
    }
}

impl View for VersionIdentifier {
    type V = IdentifierView;

    open spec fn view(&self) -> IdentifierView {
        IdentifierView {
            epoch: self.epoch,
            release: self.release@,
            pre: self.pre,
            post: match self.post {
                Some((name, n)) => Some((opt_string_view(name), n)),
                None => None,
            },
            dev: self.dev,
            local: opt_string_view(self.local),
        }
    }
}

/// A version: the text it was read from and its identifier.
pub struct VersionView {
    pub raw: Seq<char>,
    pub identifier: IdentifierView,
}

impl View for Version {
    type V = VersionView;

    closed spec fn view(&self) -> VersionView {
        VersionView { raw: self.raw@, identifier: self.identifier@ }
    }
}


// ---------------------------------------------------------------------------
// Reading, executably
// ---------------------------------------------------------------------------

fn is_digit_exec(c: char) -> (r: bool)
    ensures
        r == is_digit(c),
{
    '0' <= c && c <= '9'
}

fn digit_at_exec(cs: &Vec<char>, i: usize) -> (r: bool)
    ensures
        r == digit_at(cs@, i as int),
{
    i < cs.len() && is_digit_exec(cs[i])
}

fn char_at_exec(cs: &Vec<char>, i: usize, c: char) -> (r: bool)
    ensures
        r == char_at(cs@, i as int, c),
{
    i < cs.len() && cs[i] == c
}

fn sep_at_exec(cs: &Vec<char>, i: usize) -> (r: bool)
    ensures
        r == sep_at(cs@, i as int),
{
    i < cs.len() && (cs[i] == '-' || cs[i] == '_' || cs[i] == '.')
}

fn local_char_at_exec(cs: &Vec<char>, i: usize) -> (r: bool)
    ensures
        r == local_char_at(cs@, i as int),
{
    i < cs.len() && (('a' <= cs[i] && cs[i] <= 'z') || is_digit_exec(cs[i]))
}

fn skip_sep_exec(cs: &Vec<char>, i: usize) -> (r: usize)
    requires
        i <= cs@.len(),
    ensures
        r == skip_sep(cs@, i as int),
        r <= cs@.len(),
{
    let _n = cs.len();
    if sep_at_exec(cs, i) {
        i + 1
    } else {
        i
    }
}

fn digit_run_exec(cs: &Vec<char>, i: usize) -> (j: usize)
    requires
        i <= cs@.len(),
    ensures
        j == digit_run(cs@, i as int),
        i <= j <= cs@.len(),
        forall|k: int| i <= k < j ==> is_digit(cs@[k]),
{
    let mut j = i;
    while j < cs.len() && is_digit_exec(cs[j])
        invariant
            i <= j <= cs@.len(),
            digit_run(cs@, j as int) == digit_run(cs@, i as int),
            forall|k: int| i <= k < j ==> is_digit(cs@[k]),
        decreases cs.len() - j,
    {
        j = j + 1;
    }
    j
}

fn local_run_exec(cs: &Vec<char>, i: usize) -> (j: usize)
    requires
        i <= cs@.len(),
    ensures
        j == local_run(cs@, i as int),
        i <= j <= cs@.len(),
{
    let mut j = i;
    while local_char_at_exec(cs, j)
        invariant
            i <= j <= cs@.len(),
            local_run(cs@, j as int) == local_run(cs@, i as int),
        decreases cs.len() - j,
    {
        j = j + 1;
    }
    j
}

/// The number written by `cs[i..j]`, when it fits in 16 bits.
pub(crate) fn digits_u16(cs: &Vec<char>, i: usize, j: usize) -> (r: Option<u16>)
    requires
        i <= j <= cs@.len(),
        forall|k: int| i <= k < j ==> is_digit(cs@[k]),
    ensures
        r is Some <==> fits(digits_value(cs@, i as int, j as int)),
        r matches Some(v) ==> v as nat == digits_value(cs@, i as int, j as int),
{
    let mut acc: u32 = 0;
    let mut k = i;
    while k < j
        invariant
            i <= k <= j <= cs@.len(),
            forall|m: int| i <= m < j ==> is_digit(cs@[m]),
            acc as nat == digits_value(cs@, i as int, k as int),
            acc <= 65535,
        decreases j - k,
    {
        let c = cs[k];
        assert(is_digit(c));
        let d: u32 = (c as u32) - ('0' as u32);
        let next: u32 = acc * 10 + d;
        assert(next as nat == digits_value(cs@, i as int, k + 1));
        if next > 65535 {
            proof {
                lemma_digits_value_grows(cs@, i as int, k + 1, j as int);
            }
            return None;
        }
        acc = next;
        k = k + 1;
    }
    Some(acc as u16)
}

fn match_start_exec(cs: &Vec<char>) -> (r: Option<usize>)
    ensures
        match r {
            Some(p) => match_start(cs@, 0) == Some(p as int) && p < cs@.len(),
            None => match_start(cs@, 0) is None,
        },
{
    let mut p: usize = 0;
    while p < cs.len()
        invariant
            p <= cs@.len(),
            match_start(cs@, 0) == match_start(cs@, p as int),
        decreases cs.len() - p,
    {
        if digit_at_exec(cs, p) || (char_at_exec(cs, p, 'v') && digit_at_exec(cs, p + 1)) {
            return Some(p);
        }
        p = p + 1;
    }
    None
}

/// The release that starts at `i`: its numbers when all fit, and its end.
fn read_release(cs: &Vec<char>, i: usize) -> (res: (Option<Vec<u16>>, usize))
    requires
        digit_at(cs@, i as int),
    ensures
        res.1 as int == release_end(cs@, i as int),
        res.1 <= cs@.len(),
        res.0 is Some <==> (forall|k: int|
            0 <= k < release_values(cs@, i as int).len() ==> fits(
                #[trigger] release_values(cs@, i as int)[k],
            )),
        res.0 matches Some(v) ==> v@ == release_values(cs@, i as int).map_values(
            |x: nat| x as u16,
        ),
    decreases cs@.len() - i,
{
    let _n = cs.len();
    let j = digit_run_exec(cs, i);
    let first = digits_u16(cs, i, j);
    let ghost vals = release_values(cs@, i as int);
    if char_at_exec(cs, j, '.') && digit_at_exec(cs, j + 1) {
        let (rest, end) = read_release(cs, j + 1);
        let ghost tail = release_values(cs@, j + 1);
        assert(vals == seq![digits_value(cs@, i as int, j as int)] + tail);
        match (first, rest) {
            (Some(f), Some(r)) => {
                let mut out: Vec<u16> = Vec::new();
                out.push(f);
                let mut k: usize = 0;
                while k < r.len()
                    invariant
                        k <= r@.len(),
                        out@ == seq![f] + r@.subrange(0, k as int),
                    decreases r.len() - k,
                {
                    out.push(r[k]);
                    assert(r@.subrange(0, k + 1) =~= r@.subrange(0, k as int).push(r@[k as int]));
                    k = k + 1;
                }
                assert(r@.subrange(0, r@.len() as int) =~= r@);
                assert(out@ =~= vals.map_values(|x: nat| x as u16));
                (Some(out), end)
            },
            (None, _) => {
                assert(!fits(vals[0]));
                (None, end)
            },
            (_, None) => {
                proof {
                    let k = choose|k: int| 0 <= k < tail.len() && !fits(#[trigger] tail[k]);
                    assert(vals[k + 1] == tail[k]);
                }
                (None, end)
            },
        }
    } else {
        assert(vals == seq![digits_value(cs@, i as int, j as int)]);
        match first {
            Some(f) => {
                let mut out: Vec<u16> = Vec::new();
                out.push(f);
                assert(out@ =~= vals.map_values(|x: nat| x as u16));
                (Some(out), j)
            },
            None => {
                assert(!fits(vals[0]));
                (None, j)
            },
        }
    }
}

/// The optional number after a phase name ending at `k`: `None` when absent,
/// `Some(None)` when it does not fit, and the end of the part.
fn number_tail_exec(cs: &Vec<char>, k: usize) -> (res: (Option<Option<u16>>, usize))
    requires
        k <= cs@.len(),
    ensures
        res.1 as int == number_tail(cs@, k as int).1,
        res.1 <= cs@.len(),
        res.0 is None <==> number_tail(cs@, k as int).0 is None,
        res.0 matches Some(x) ==> (x is Some <==> fits(number_tail(cs@, k as int).0->0)),
        res.0 matches Some(x) ==> (x matches Some(v) ==> v as nat == number_tail(
            cs@,
            k as int,
        ).0->0),
{
    let a = skip_sep_exec(cs, k);
    if digit_at_exec(cs, a) {
        let e = digit_run_exec(cs, a);
        (Some(digits_u16(cs, a, e)), e)
    } else {
        (None, a)
    }
}

fn pre_phase_at_exec(cs: &Vec<char>, a: usize) -> (r: Option<(VersionPrePhase, usize)>)
    requires
        a <= cs@.len(),
    ensures
        match r {
            Some((phase, k)) => pre_phase_at(cs@, a as int) == Some((phase, k as int)) && k
                <= cs@.len(),
            None => pre_phase_at(cs@, a as int) is None,
        },
{
    let _n = cs.len();
    let l_alpha: &[char] = &['a', 'l', 'p', 'h', 'a'];
    let l_a: &[char] = &['a'];
    let l_beta: &[char] = &['b', 'e', 't', 'a'];
    let l_b: &[char] = &['b'];
    let l_preview: &[char] = &['p', 'r', 'e', 'v', 'i', 'e', 'w'];
    let l_pre: &[char] = &['p', 'r', 'e'];
    let l_c: &[char] = &['c'];
    let l_rc: &[char] = &['r', 'c'];
    assert(l_alpha@ =~= lit_alpha());
    assert(l_a@ =~= lit_a());
    assert(l_beta@ =~= lit_beta());
    assert(l_b@ =~= lit_b());
    assert(l_preview@ =~= lit_preview());
    assert(l_pre@ =~= lit_pre());
    assert(l_c@ =~= lit_c());
    assert(l_rc@ =~= lit_rc());
    if lit_at_exec(cs, a, l_alpha) {
        Some((VersionPrePhase::Alpha, a + 5))
    } else if lit_at_exec(cs, a, l_a) {
        Some((VersionPrePhase::Alpha, a + 1))
    } else if lit_at_exec(cs, a, l_beta) {
        Some((VersionPrePhase::Beta, a + 4))
    } else if lit_at_exec(cs, a, l_b) {
        Some((VersionPrePhase::Beta, a + 1))
    } else if lit_at_exec(cs, a, l_preview) {
        Some((VersionPrePhase::Preview, a + 7))
    } else if lit_at_exec(cs, a, l_pre) {
        Some((VersionPrePhase::Preview, a + 3))
    } else if lit_at_exec(cs, a, l_c) {
        Some((VersionPrePhase::Preview, a + 1))
    } else if lit_at_exec(cs, a, l_rc) {
        Some((VersionPrePhase::Preview, a + 2))
    } else {
        None
    }
}

fn post_phase_at_exec(cs: &Vec<char>, a: usize) -> (r: Option<(String, usize)>)
    requires
        a <= cs@.len(),
    ensures
        match r {
            Some((name, k)) => post_phase_at(cs@, a as int) == Some((name@, k as int)) && k
                <= cs@.len(),
            None => post_phase_at(cs@, a as int) is None,
        },
{
    let _n = cs.len();
    let l_post: &[char] = &['p', 'o', 's', 't'];
    let l_rev: &[char] = &['r', 'e', 'v'];
    let l_r: &[char] = &['r'];
    assert(l_post@ =~= lit_post());
    assert(l_rev@ =~= lit_rev());
    assert(l_r@ =~= lit_r());
    let k = if lit_at_exec(cs, a, l_post) {
        a + 4
    } else if lit_at_exec(cs, a, l_rev) {
        a + 3
    } else if lit_at_exec(cs, a, l_r) {
        a + 1
    } else {
        return None;
    };
    let name = string_of_range(cs, a, k);
    assert(name@ =~= cs@.subrange(a as int, k as int));
    Some((name, k))
}

/// The pre-release part at `i`: the phase and number when well formed, a
/// flag for a malformed part, and the end.
fn pre_part_exec(cs: &Vec<char>, i: usize) -> (res: (Option<(VersionPrePhase, u16)>, bool, usize))
    requires
        i <= cs@.len(),
    ensures
        res.2 as int == pre_part(cs@, i as int).1,
        res.2 <= cs@.len(),
        res.1 == (pre_part(cs@, i as int).0 is Some && !number_ok(
            (pre_part(cs@, i as int).0->0).1,
        )),
        !res.1 ==> match pre_part(cs@, i as int).0 {
            Some((phase, n)) => res.0 == Some((phase, (n->0) as u16)),
            None => res.0 is None,
        },
{
    let a = skip_sep_exec(cs, i);
    match pre_phase_at_exec(cs, a) {
        Some((phase, k)) => {
            let (n, e) = number_tail_exec(cs, k);
            match n {
                Some(Some(v)) => (Some((phase, v)), false, e),
                _ => (None, true, e),
            }
        },
        None => (None, false, i),
    }
}

/// The post-release part at `i`, in the manner of `pre_part_exec`.
fn post_part_exec(cs: &Vec<char>, i: usize) -> (res: (Option<(Option<String>, u16)>, bool, usize))
    requires
        i <= cs@.len(),
    ensures
        res.2 as int == post_part(cs@, i as int).1,
        res.2 <= cs@.len(),
        res.1 == (post_part(cs@, i as int).0 is Some && !number_ok(
            (post_part(cs@, i as int).0->0).1,
        )),
        !res.1 ==> match post_part(cs@, i as int).0 {
            Some((name, n)) => res.0 matches Some((rn, rv)) && opt_string_view(rn) == name && rv
                == (n->0) as u16,
            None => res.0 is None,
        },
{
    let _n = cs.len();
    if char_at_exec(cs, i, '-') && digit_at_exec(cs, i + 1) {
        let e = digit_run_exec(cs, i + 1);
        match digits_u16(cs, i + 1, e) {
            Some(v) => (Some((None, v)), false, e),
            None => (None, true, e),
        }
    } else {
        let b = skip_sep_exec(cs, i);
        match post_phase_at_exec(cs, b) {
            Some((name, k)) => {
                let (n, e) = number_tail_exec(cs, k);
                match n {
                    Some(Some(v)) => (Some((Some(name), v)), false, e),
                    _ => (None, true, e),
                }
            },
            None => (None, false, i),
        }
    }
}

/// The development part at `i`, in the manner of `pre_part_exec`.
fn dev_part_exec(cs: &Vec<char>, i: usize) -> (res: (Option<u16>, bool, usize))
    requires
        i <= cs@.len(),
    ensures
        res.2 as int == dev_part(cs@, i as int).1,
        res.2 <= cs@.len(),
        res.1 == (dev_part(cs@, i as int).0 is Some && !number_ok(dev_part(cs@, i as int).0->0)),
        !res.1 ==> match dev_part(cs@, i as int).0 {
            Some(n) => res.0 == Some((n->0) as u16),
            None => res.0 is None,
        },
{
    let _n = cs.len();
    let c = skip_sep_exec(cs, i);
    let l_dev: &[char] = &['d', 'e', 'v'];
    assert(l_dev@ =~= lit_dev());
    if lit_at_exec(cs, c, l_dev) {
        let (n, e) = number_tail_exec(cs, c + 3);
        match n {
            Some(Some(v)) => (Some(v), false, e),
            _ => (None, true, e),
        }
    } else {
        (None, false, i)
    }
}

fn local_end_exec(cs: &Vec<char>, i: usize) -> (r: usize)
    requires
        i <= cs@.len(),
    ensures
        r as int == local_end(cs@, i as int),
        i <= r <= cs@.len(),
    decreases cs@.len() - i,
{
    let _n = cs.len();
    let j = local_run_exec(cs, i);
    if i < j && sep_at_exec(cs, j) && local_char_at_exec(cs, j + 1) {
        local_end_exec(cs, j + 1)
    } else {
        j
    }
}

/// The outcome of reading a version text, executably.
enum Reading {
    NoMatch,
    Malformed,
    Read(VersionIdentifier),
}

fn assemble(
    epoch: Option<u16>,
    release: Option<Vec<u16>>,
    pre: Option<(VersionPrePhase, u16)>,
    pre_bad: bool,
    post: Option<(Option<String>, u16)>,
    post_bad: bool,
    dev: Option<u16>,
    dev_bad: bool,
    local: Option<String>,
    Ghost(epoch_v): Ghost<nat>,
    Ghost(rel_v): Ghost<Seq<nat>>,
    Ghost(pre_v): Ghost<Option<(VersionPrePhase, Option<nat>)>>,
    Ghost(post_v): Ghost<Option<(Option<Seq<char>>, Option<nat>)>>,
    Ghost(dev_v): Ghost<Option<Option<nat>>>,
    Ghost(local_v): Ghost<Option<Seq<char>>>,
) -> (r: Reading)
    requires
        epoch is Some <==> fits(epoch_v),
        epoch matches Some(e) ==> e as nat == epoch_v,
        release is Some <==> release_fits(rel_v),
        release matches Some(v) ==> v@ == rel_v.map_values(|x: nat| x as u16),
        pre_bad == (pre_v is Some && !number_ok((pre_v->0).1)),
        !pre_bad ==> match pre_v {
            Some((phase, n)) => pre == Some((phase, (n->0) as u16)),
            None => pre is None,
        },
        post_bad == (post_v is Some && !number_ok((post_v->0).1)),
        !post_bad ==> match post_v {
            Some((name, n)) => post matches Some((rn, rv)) && opt_string_view(rn) == name && rv
                == (n->0) as u16,
            None => post is None,
        },
        dev_bad == (dev_v is Some && !number_ok(dev_v->0)),
        !dev_bad ==> match dev_v {
            Some(n) => dev == Some((n->0) as u16),
            None => dev is None,
        },
        opt_string_view(local) == local_v,
    ensures
        match reading_of(epoch_v, rel_v, pre_v, post_v, dev_v, local_v) {
            VersionReading::Malformed => r is Malformed,
            VersionReading::Read(id) => r matches Reading::Read(v) && v@ == id,
            VersionReading::NoMatch => false,
        },
{
    if pre_bad || post_bad || dev_bad {
        return Reading::Malformed;
    }
    match (epoch, release) {
        (Some(epoch), Some(release)) => {
            let pre = match pre {
                Some(x) => x,
                None => (VersionPrePhase::Release, 0u16),
            };
            let dev = match dev {
                Some(n) => (VersionDevPhase::Dev, n),
                None => (VersionDevPhase::Release, 0u16),
            };
            let id = VersionIdentifier { epoch, release, pre, post, dev, local };
            proof {
                let v = reading_of(epoch_v, rel_v, pre_v, post_v, dev_v, local_v)->Read_0;
                assert(id@.release =~= v.release);
                assert(id@.post == v.post);
                assert(id@ == v);
            }
            Reading::Read(id)
        },
        _ => Reading::Malformed,
    }
}

fn read_exec(cs: &Vec<char>) -> (r: Reading)
    ensures
        match read_version(cs@) {
            VersionReading::NoMatch => r is NoMatch,
            VersionReading::Malformed => r is Malformed,
            VersionReading::Read(id) => r matches Reading::Read(v) && v@ == id,
        },
{
    let ghost s = cs@;
    let _n = cs.len();
    let p = match match_start_exec(cs) {
        None => return Reading::NoMatch,
        Some(p) => p,
    };
    proof {
        lemma_match_start(s, 0);
    }
    let q = if char_at_exec(cs, p, 'v') {
        p + 1
    } else {
        p
    };
    assert(digit_at(s, q as int));
    let epoch_end = digit_run_exec(cs, q);
    let has_epoch = epoch_end > q && char_at_exec(cs, epoch_end, '!') && digit_at_exec(
        cs,
        epoch_end + 1,
    );
    let epoch: Option<u16> = if has_epoch {
        digits_u16(cs, q, epoch_end)
    } else {
        Some(0)
    };
    let r = if has_epoch {
        epoch_end + 1
    } else {
        q
    };
    assert(r as int == release_from(s, p as int));
    let (release, rend) = read_release(cs, r);
    let (pre, pre_bad, pre_end) = pre_part_exec(cs, rend);
    let (post, post_bad, post_end) = post_part_exec(cs, pre_end);
    let (dev, dev_bad, dev_end) = dev_part_exec(cs, post_end);
    let local = if char_at_exec(cs, dev_end, '+') && local_char_at_exec(cs, dev_end + 1) {
        let e = local_end_exec(cs, dev_end + 1);
        Some(string_of_range(cs, dev_end + 1, e))
    } else {
        None
    };
    assert(opt_string_view(local) == local_part(s, dev_end as int));
    assemble(
        epoch,
        release,
        pre,
        pre_bad,
        post,
        post_bad,
        dev,
        dev_bad,
        local,
        Ghost(epoch_of(s, p as int)),
        Ghost(release_values(s, r as int)),
        Ghost(pre_part(s, rend as int).0),
        Ghost(post_part(s, pre_end as int).0),
        Ghost(dev_part(s, post_end as int).0),
        Ghost(local_part(s, dev_end as int)),
    )
}

/// A version text holds a phase without its number, or a number that does
/// not fit in 16 bits.
#[derive(Debug, Clone, Copy, PartialEq, Eq, Structural)]
pub enum VersionError {
    Malformed,
}

impl Version {
    /// Reads the version in `version`. `Ok(None)` when no version starts
    /// anywhere in the text, `Err` when the version found is malformed.
    pub fn try_new(version: &str) -> (r: Result<Option<Version>, VersionError>)
        ensures
            match read_version(version@) {
                VersionReading::NoMatch => r == Ok::<Option<Version>, VersionError>(None),
                VersionReading::Malformed => r is Err,
                VersionReading::Read(id) => r matches Ok(Some(v)) && v@.identifier == id
                    && v@.raw == version@,
            },
    {
        let cs = chars_of(version);
        match read_exec(&cs) {
            Reading::NoMatch => Ok(None),
            Reading::Malformed => Err(VersionError::Malformed),
            Reading::Read(identifier) => Ok(
                Some(Version { raw: version.to_owned(), identifier }),
            ),
        }
    }

    /// Reads the version in `version`: `None` when no version starts anywhere
    /// in the text.
    pub fn new(version: &str) -> (r: Option<Self>)
        requires
            !(read_version(version@) is Malformed),
        ensures
            match read_version(version@) {
                VersionReading::Read(id) => r matches Some(v) && v@.identifier == id
                    && v@.raw == version@,
                _ => r is None,
            },
    {
        match Self::try_new(version) {
            Ok(v) => v,
            Err(_) => None,
        }
    }

    /// The text the version was read from.
    pub fn as_str(&self) -> (r: &str)
        ensures
            r@ == self@.raw,
    {
        self.raw.as_str()
    }
}

impl VersionIdentifier {
    pub fn is_pre(&self) -> (r: bool)
        ensures
            r == (self.pre.0 != VersionPrePhase::Release),
    {
        self.pre.0 != VersionPrePhase::Release
    }

    pub fn is_dev(&self) -> (r: bool)
        ensures
            r == (self.dev.0 != VersionDevPhase::Release),
    {
        self.dev.0 != VersionDevPhase::Release
    }
}


fn clone_text(s: &Option<String>) -> (r: Option<String>)
    ensures
        opt_string_view(r) == opt_string_view(*s),
{
    match s {
        Some(t) => Some(t.clone()),
        None => None,
    }
}

impl Clone for VersionIdentifier {
    fn clone(&self) -> (r: Self)
        ensures
            r@ == self@,
    {
        let mut release: Vec<u16> = Vec::new();
        let mut i: usize = 0;
        while i < self.release.len()
            invariant
                i <= self.release@.len(),
                release@ == self.release@.subrange(0, i as int),
            decreases self.release.len() - i,
        {
            release.push(self.release[i]);
            assert(self.release@.subrange(0, i + 1) =~= self.release@.subrange(0, i as int).push(
                self.release@[i as int],
            ));
            i = i + 1;
        }
        assert(self.release@.subrange(0, self.release@.len() as int) =~= self.release@);
        let post = match &self.post {
            Some((name, n)) => Some((clone_text(name), *n)),
            None => None,
        };
        VersionIdentifier {
            epoch: self.epoch,
            release,
            pre: (self.pre.0, self.pre.1),
            post,
            dev: (self.dev.0, self.dev.1),
            local: clone_text(&self.local),
        }
    }
}

// ---------------------------------------------------------------------------
// Ordering
// ---------------------------------------------------------------------------

/// -1, 0 or 1 as `a` is below, equal to or above `b`.
pub open spec fn order_of(a: int, b: int) -> int {
    if a < b {
        -1
    } else if a == b {
        0
    } else {
        1
    }
}

/// Lexicographic order of number sequences; a proper prefix comes first.
pub open spec fn order_numbers(a: Seq<u16>, b: Seq<u16>) -> int
    decreases a.len(),
{
    if a.len() == 0 {
        if b.len() == 0 {
            0
        } else {
            -1
        }
    } else if b.len() == 0 {
        1
    } else if a[0] != b[0] {
        order_of(a[0] as int, b[0] as int)
    } else {
        order_numbers(a.drop_first(), b.drop_first())
    }
}

/// Lexicographic order of texts by character code.
pub open spec fn order_text(a: Seq<char>, b: Seq<char>) -> int
    decreases a.len(),
{
    if a.len() == 0 {
        if b.len() == 0 {
            0
        } else {
            -1
        }
    } else if b.len() == 0 {
        1
    } else if a[0] != b[0] {
        order_of(a[0] as int, b[0] as int)
    } else {
        order_text(a.drop_first(), b.drop_first())
    }
}

pub open spec fn pre_rank(p: VersionPrePhase) -> int {
    match p {
        VersionPrePhase::Alpha => 0,
        VersionPrePhase::Beta => 1,
        VersionPrePhase::Preview => 2,
        VersionPrePhase::Release => 3,
    }
}

pub open spec fn dev_rank(p: VersionDevPhase) -> int {
    match p {
        VersionDevPhase::Dev => 0,
        VersionDevPhase::Release => 1,
    }
}

/// A development release of a final release (`1.0.dev1`): it orders before
/// every pre-release of that release.
pub open spec fn is_dev_only(v: IdentifierView) -> bool {
    v.pre.0 == VersionPrePhase::Release && v.post is None && v.dev.0 == VersionDevPhase::Dev
}

pub open spec fn order_pre(a: IdentifierView, b: IdentifierView) -> int {
    let ra = if is_dev_only(a) { -1 } else { pre_rank(a.pre.0) };
    let rb = if is_dev_only(b) { -1 } else { pre_rank(b.pre.0) };
    let na: int = if is_dev_only(a) { 0 } else { a.pre.1 as int };
    let nb: int = if is_dev_only(b) { 0 } else { b.pre.1 as int };
    if ra != rb {
        order_of(ra, rb)
    } else {
        order_of(na, nb)
    }
}

pub open spec fn order_post_name(a: Option<Seq<char>>, b: Option<Seq<char>>) -> int {
    match (a, b) {
        (None, None) => 0,
        (None, Some(_)) => -1,
        (Some(_), None) => 1,
        (Some(x), Some(y)) => order_text(x, y),
    }
}

/// No post-release first; then by phase name (none first), then number.
pub open spec fn order_post(a: Option<(Option<Seq<char>>, u16)>, b: Option<(Option<Seq<char>>, u16)>) -> int {
    match (a, b) {
        (None, None) => 0,
        (None, Some(_)) => -1,
        (Some(_), None) => 1,
        (Some((na, xa)), Some((nb, xb))) => {
            let o = order_post_name(na, nb);
            if o != 0 {
                o
            } else {
                order_of(xa as int, xb as int)
            }
        },
    }
}

pub open spec fn order_dev(a: (VersionDevPhase, u16), b: (VersionDevPhase, u16)) -> int {
    if a.0 != b.0 {
        order_of(dev_rank(a.0), dev_rank(b.0))
    } else {
        order_of(a.1 as int, b.1 as int)
    }
}

/// The order of versions: by epoch, release, pre-release, post-release and
/// development release in turn. The local label does not take part.
pub open spec fn order_versions(a: IdentifierView, b: IdentifierView) -> int {
    if a.epoch != b.epoch {
        order_of(a.epoch as int, b.epoch as int)
    } else if order_numbers(a.release, b.release) != 0 {
        order_numbers(a.release, b.release)
    } else if order_pre(a, b) != 0 {
        order_pre(a, b)
    } else if order_post(a.post, b.post) != 0 {
        order_post(a.post, b.post)
    } else {
        order_dev(a.dev, b.dev)
    }
}

pub open spec fn ordering_from(v: int) -> Ordering {
    if v < 0 {
        Ordering::Less
    } else if v == 0 {
        Ordering::Equal
    } else {
        Ordering::Greater
    }
}

fn order_of_exec(a: u16, b: u16) -> (r: i8)
    ensures
        r as int == order_of(a as int, b as int),
{
    if a < b {
        -1
    } else if a == b {
        0
    } else {
        1
    }
}

fn order_numbers_exec(a: &Vec<u16>, b: &Vec<u16>) -> (r: i8)
    ensures
        r as int == order_numbers(a@, b@),
{
    let mut i: usize = 0;
    assert(a@.skip(0) =~= a@);
    assert(b@.skip(0) =~= b@);
    while i < a.len() && i < b.len()
        invariant
            i <= a@.len(),
            i <= b@.len(),
            order_numbers(a@, b@) == order_numbers(a@.skip(i as int), b@.skip(i as int)),
        decreases a.len() - i,
    {
        if a[i] != b[i] {
            return order_of_exec(a[i], b[i]);
        }
        assert(a@.skip(i as int).drop_first() =~= a@.skip(i + 1));
        assert(b@.skip(i as int).drop_first() =~= b@.skip(i + 1));
        i = i + 1;
    }
    if i < a.len() {
        1
    } else if i < b.len() {
        -1
    } else {
        0
    }
}

fn order_text_exec(a: &Vec<char>, b: &Vec<char>) -> (r: i8)
    ensures
        r as int == order_text(a@, b@),
{
    let mut i: usize = 0;
    assert(a@.skip(0) =~= a@);
    assert(b@.skip(0) =~= b@);
    while i < a.len() && i < b.len()
        invariant
            i <= a@.len(),
            i <= b@.len(),
            order_text(a@, b@) == order_text(a@.skip(i as int), b@.skip(i as int)),
        decreases a.len() - i,
    {
        if a[i] != b[i] {
            return if a[i] < b[i] {
                -1
            } else {
                1
            };
        }
        assert(a@.skip(i as int).drop_first() =~= a@.skip(i + 1));
        assert(b@.skip(i as int).drop_first() =~= b@.skip(i + 1));
        i = i + 1;
    }
    if i < a.len() {
        1
    } else if i < b.len() {
        -1
    } else {
        0
    }
}

fn pre_rank_exec(p: VersionPrePhase) -> (r: i8)
    ensures
        r as int == pre_rank(p),
{
    match p {
        VersionPrePhase::Alpha => 0,
        VersionPrePhase::Beta => 1,
        VersionPrePhase::Preview => 2,
        VersionPrePhase::Release => 3,
    }
}

impl VersionIdentifier {
    fn is_dev_only(&self) -> (r: bool)
        ensures
            r == is_dev_only(self@),
    {
        !self.is_pre() && self.post.is_none() && self.is_dev()
    }

    fn order_pre_exec(&self, other: &Self) -> (r: i8)
        ensures
            r as int == order_pre(self@, other@),
    {
        let (ra, na): (i8, u16) = if self.is_dev_only() {
            (-1, 0)
        } else {
            (pre_rank_exec(self.pre.0), self.pre.1)
        };
        let (rb, nb): (i8, u16) = if other.is_dev_only() {
            (-1, 0)
        } else {
            (pre_rank_exec(other.pre.0), other.pre.1)
        };
        if ra != rb {
            if ra < rb {
                -1
            } else {
                1
            }
        } else {
            order_of_exec(na, nb)
        }
    }

    fn order_post_exec(&self, other: &Self) -> (r: i8)
        ensures
            r as int == order_post(self@.post, other@.post),
    {
        match (&self.post, &other.post) {
            (None, None) => 0,
            (None, Some(_)) => -1,
            (Some(_), None) => 1,
            (Some((na, xa)), Some((nb, xb))) => {
                let o: i8 = match (na, nb) {
                    (None, None) => 0,
                    (None, Some(_)) => -1,
                    (Some(_), None) => 1,
                    (Some(x), Some(y)) => order_text_exec(
                        &chars_of(x.as_str()),
                        &chars_of(y.as_str()),
                    ),
                };
                if o != 0 {
                    o
                } else {
                    order_of_exec(*xa, *xb)
                }
            },
        }
    }

    /// Compares two version identifiers: by epoch, release, pre-release,
    /// post-release and development release in turn. A development release
    /// of a final release comes before its pre-releases; the local label
    /// does not take part.
    pub fn compare(&self, other: &Self) -> (r: Ordering)
        ensures
            r == ordering_from(order_versions(self@, other@)),
    {
        let v: i8 = if self.epoch != other.epoch {
            order_of_exec(self.epoch, other.epoch)
        } else {
            let o = order_numbers_exec(&self.release, &other.release);
            if o != 0 {
                o
            } else {
                let p = self.order_pre_exec(other);
                if p != 0 {
                    p
                } else {
                    let q = self.order_post_exec(other);
                    if q != 0 {
                        q
                    } else if self.dev.0 != other.dev.0 {
                        if self.dev.0 == VersionDevPhase::Dev {
                            -1
                        } else {
                            1
                        }
                    } else {
                        order_of_exec(self.dev.1, other.dev.1)
                    }
                }
            }
        };
        if v < 0 {
            Ordering::Less
        } else if v == 0 {
            Ordering::Equal
        } else {
            Ordering::Greater
        }
    }
}

impl Version {
    /// Compares two versions by their identifiers.
    pub fn compare(&self, other: &Self) -> (r: Ordering)
        ensures
            r == ordering_from(order_versions(self@.identifier, other@.identifier)),
    {
        self.identifier.compare(&other.identifier)
    }
}

// ---------------------------------------------------------------------------
// Equality and std's comparison traits
// ---------------------------------------------------------------------------

fn numbers_equal(a: &Vec<u16>, b: &Vec<u16>) -> (r: bool)
    ensures
        r == (a@ == b@),
{
    if a.len() != b.len() {
        return false;
    }
    let mut i: usize = 0;
    while i < a.len()
        invariant
            a@.len() == b@.len(),
            i <= a@.len(),
            forall|k: int| 0 <= k < i ==> a@[k] == b@[k],
        decreases a.len() - i,
    {
        if a[i] != b[i] {
            return false;
        }
        i = i + 1;
    }
    assert(a@ =~= b@);
    true
}

fn texts_equal(a: &Option<String>, b: &Option<String>) -> (r: bool)
    ensures
        r == (opt_string_view(*a) == opt_string_view(*b)),
{
    match (a, b) {
        (None, None) => true,
        (Some(x), Some(y)) => x.eq(y),
        _ => false,
    }
}

impl PartialEq for VersionIdentifier {
    fn eq(&self, other: &Self) -> (r: bool) {
        let post_equal = match (&self.post, &other.post) {
            (None, None) => true,
            (Some((na, xa)), Some((nb, xb))) => texts_equal(na, nb) && *xa == *xb,
            _ => false,
        };
        self.epoch == other.epoch && numbers_equal(&self.release, &other.release) && self.pre.0
            == other.pre.0 && self.pre.1 == other.pre.1 && post_equal && self.dev.0
            == other.dev.0 && self.dev.1 == other.dev.1 && texts_equal(&self.local, &other.local)
    }
}

impl PartialEqSpecImpl for VersionIdentifier {
    open spec fn obeys_eq_spec() -> bool {
        true
    }

    open spec fn eq_spec(&self, other: &Self) -> bool {
        self@ == other@
    }
}

impl PartialEq for Version {
    fn eq(&self, other: &Self) -> (r: bool) {
        self.identifier == other.identifier
    }
}

impl PartialEqSpecImpl for Version {
    open spec fn obeys_eq_spec() -> bool {
        true
    }

    open spec fn eq_spec(&self, other: &Self) -> bool {
        self@.identifier == other@.identifier
    }
}

impl PartialOrd for VersionIdentifier {
    fn partial_cmp(&self, other: &Self) -> (r: Option<Ordering>) {
        Some(self.compare(other))
    }
}

impl PartialOrdSpecImpl for VersionIdentifier {
    open spec fn obeys_partial_cmp_spec() -> bool {
        true
    }

    open spec fn partial_cmp_spec(&self, other: &Self) -> Option<Ordering> {
        Some(ordering_from(order_versions(self@, other@)))
    }
}

impl PartialOrd for Version {
    fn partial_cmp(&self, other: &Self) -> (r: Option<Ordering>) {
        Some(self.compare(other))
    }
}

impl PartialOrdSpecImpl for Version {
    open spec fn obeys_partial_cmp_spec() -> bool {
        true
    }

    open spec fn partial_cmp_spec(&self, other: &Self) -> Option<Ordering> {
        Some(ordering_from(order_versions(self@.identifier, other@.identifier)))
    }
}


// ---------------------------------------------------------------------------
// Laws of the order
// ---------------------------------------------------------------------------

proof fn lemma_numbers_antisymmetric(a: Seq<u16>, b: Seq<u16>)
    ensures
        order_numbers(a, b) == -order_numbers(b, a),
        order_numbers(a, a) == 0,
    decreases a.len(),
{
    if a.len() > 0 && b.len() > 0 {
        lemma_numbers_antisymmetric(a.drop_first(), b.drop_first());
    }
    if a.len() > 0 {
        lemma_numbers_antisymmetric(a.drop_first(), a.drop_first());
    }
}

proof fn lemma_numbers_transitive(a: Seq<u16>, b: Seq<u16>, c: Seq<u16>)
    requires
        order_numbers(a, b) <= 0,
        order_numbers(b, c) <= 0,
    ensures
        order_numbers(a, c) <= 0,
        order_numbers(a, b) < 0 || order_numbers(b, c) < 0 ==> order_numbers(a, c) < 0,
    decreases a.len(),
{
    if a.len() > 0 && b.len() > 0 && c.len() > 0 && a[0] == b[0] && b[0] == c[0] {
        lemma_numbers_transitive(a.drop_first(), b.drop_first(), c.drop_first());
    }
}

proof fn lemma_text_antisymmetric(a: Seq<char>, b: Seq<char>)
    ensures
        order_text(a, b) == -order_text(b, a),
        order_text(a, a) == 0,
    decreases a.len(),
{
    if a.len() > 0 && b.len() > 0 {
        lemma_text_antisymmetric(a.drop_first(), b.drop_first());
    }
    if a.len() > 0 {
        lemma_text_antisymmetric(a.drop_first(), a.drop_first());
    }
}

proof fn lemma_text_transitive(a: Seq<char>, b: Seq<char>, c: Seq<char>)
    requires
        order_text(a, b) <= 0,
        order_text(b, c) <= 0,
    ensures
        order_text(a, c) <= 0,
        order_text(a, b) < 0 || order_text(b, c) < 0 ==> order_text(a, c) < 0,
    decreases a.len(),
{
    if a.len() > 0 && b.len() > 0 && c.len() > 0 && a[0] == b[0] && b[0] == c[0] {
        lemma_text_transitive(a.drop_first(), b.drop_first(), c.drop_first());
    }
}

proof fn lemma_post_antisymmetric(a: Option<(Option<Seq<char>>, u16)>, b: Option<(Option<Seq<char>>, u16)>)
    ensures
        order_post(a, b) == -order_post(b, a),
        order_post(a, a) == 0,
{
    if let (Some((Some(x), _)), Some((Some(y), _))) = (a, b) {
        lemma_text_antisymmetric(x, y);
    }
    if let Some((Some(x), _)) = a {
        lemma_text_antisymmetric(x, x);
    }
}

proof fn lemma_post_transitive(
    a: Option<(Option<Seq<char>>, u16)>,
    b: Option<(Option<Seq<char>>, u16)>,
    c: Option<(Option<Seq<char>>, u16)>,
)
    requires
        order_post(a, b) <= 0,
        order_post(b, c) <= 0,
    ensures
        order_post(a, c) <= 0,
        order_post(a, b) < 0 || order_post(b, c) < 0 ==> order_post(a, c) < 0,
{
    if let (Some((Some(x), _)), Some((Some(y), _)), Some((Some(z), _))) = (a, b, c) {
        lemma_text_antisymmetric(x, y);
        lemma_text_antisymmetric(y, z);
        lemma_text_antisymmetric(x, z);
        if order_text(x, y) <= 0 && order_text(y, z) <= 0 {
            lemma_text_transitive(x, y, z);
        }
    }
}

/// Development releases of one version come in the order of their numbers:
/// with the same epoch, release, pre-release and post-release, `.devN`
/// orders below `.devM` exactly when `N < M`, and a development release
/// orders below the same version that is not one.
pub proof fn lemma_order_dev_numbers(a: IdentifierView, b: IdentifierView)
    requires
        a.epoch == b.epoch,
        a.release == b.release,
        a.pre == b.pre,
        a.post == b.post,
        a.dev.0 == VersionDevPhase::Dev,
    ensures
        b.dev.0 == VersionDevPhase::Dev ==> (order_versions(a, b) < 0 <==> a.dev.1 < b.dev.1),
        b.dev.0 == VersionDevPhase::Dev ==> (order_versions(a, b) == 0 <==> a.dev.1 == b.dev.1),
        b.dev.0 == VersionDevPhase::Release ==> order_versions(a, b) < 0,
{
    lemma_numbers_antisymmetric(a.release, b.release);
    lemma_post_antisymmetric(a.post, b.post);
}

/// Every version is equivalent to itself.
pub proof fn lemma_order_reflexive(a: IdentifierView)
    ensures
        order_versions(a, a) == 0,
{
    lemma_numbers_antisymmetric(a.release, a.release);
    lemma_post_antisymmetric(a.post, a.post);
}

/// Swapping the operands reverses the order.
pub proof fn lemma_order_antisymmetric(a: IdentifierView, b: IdentifierView)
    ensures
        order_versions(a, b) == -order_versions(b, a),
{
    lemma_numbers_antisymmetric(a.release, b.release);
    lemma_post_antisymmetric(a.post, b.post);
}

/// The order is transitive: `a <= b` and `b <= c` give `a <= c`, strictly
/// when either step is strict.
pub proof fn lemma_order_transitive(a: IdentifierView, b: IdentifierView, c: IdentifierView)
    requires
        order_versions(a, b) <= 0,
        order_versions(b, c) <= 0,
    ensures
        order_versions(a, c) <= 0,
        order_versions(a, b) < 0 || order_versions(b, c) < 0 ==> order_versions(a, c) < 0,
{
    lemma_numbers_antisymmetric(a.release, b.release);
    lemma_numbers_antisymmetric(b.release, c.release);
    lemma_numbers_antisymmetric(a.release, c.release);
    lemma_post_antisymmetric(a.post, b.post);
    lemma_post_antisymmetric(b.post, c.post);
    lemma_post_antisymmetric(a.post, c.post);
    if a.epoch == b.epoch && b.epoch == c.epoch {
        if order_numbers(a.release, b.release) <= 0 && order_numbers(b.release, c.release) <= 0 {
            lemma_numbers_transitive(a.release, b.release, c.release);
        }
        if order_numbers(a.release, b.release) == 0 && order_numbers(b.release, c.release) == 0
            && order_pre(a, b) == 0 && order_pre(b, c) == 0 {
            if order_post(a.post, b.post) <= 0 && order_post(b.post, c.post) <= 0 {
                lemma_post_transitive(a.post, b.post, c.post);
            }
        }
    }
}

} // verus!
