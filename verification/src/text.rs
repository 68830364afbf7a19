//! Character-level helpers shared by the parsers.

use vstd::prelude::*;
use vstd::std_specs::iter::IteratorSpec;

verus! {

/// `String::push` appends one character.
pub assume_specification[ String::push ](s: &mut String, ch: char)
    ensures
        final(s)@ == old(s)@.push(ch),
;

/// The characters of `s`, in order.
pub fn chars_of(s: &str) -> (v: Vec<char>)
    ensures
        v@ == s@,
{
    let mut v: Vec<char> = Vec::new();
    for c in it: s.chars()
        invariant
            v@ == it.seq().take(it.index() as int),
    {
        v.push(c);
    }
    v
}

} // verus!

verus! {

/// `s` holds the character `c` at position `i`.
pub open spec fn char_at(s: Seq<char>, i: int, c: char) -> bool {
    0 <= i < s.len() && s[i] == c
}

/// `s` holds the literal `l` starting at position `i`.
pub open spec fn lit_at(s: Seq<char>, i: int, l: Seq<char>) -> bool {
    0 <= i && i + l.len() <= s.len() && s.subrange(i, i + l.len()) == l
}

pub fn lit_at_exec(cs: &Vec<char>, i: usize, l: &[char]) -> (r: bool)
    ensures
        r == lit_at(cs@, i as int, l@),
{
    if i > cs.len() || l.len() > cs.len() - i {
        return false;
    }
    let mut k: usize = 0;
    while k < l.len()
        invariant
            i + l@.len() <= cs@.len(),
            cs@.len() == cs.len(),
            k <= l@.len(),
            forall|m: int| 0 <= m < k ==> cs@[i + m] == l@[m],
        decreases l.len() - k,
    {
        if cs[i + k] != l[k] {
            assert(cs@.subrange(i as int, i + l@.len())[k as int] != l@[k as int]);
            return false;
        }
        k = k + 1;
    }
    assert(cs@.subrange(i as int, i + l@.len()) =~= l@);
    true
}

/// A `String` holding the characters `cs[from..to]`.
pub fn string_of_range(cs: &Vec<char>, from: usize, to: usize) -> (s: String)
    requires
        from <= to <= cs@.len(),
    ensures
        s@ == cs@.subrange(from as int, to as int),
{
    let mut s = String::new();
    let mut k = from;
    while k < to
        invariant
            from <= k <= to <= cs@.len(),
            s@ == cs@.subrange(from as int, k as int),
        decreases to - k,
    {
        s.push(cs[k]);
        assert(cs@.subrange(from as int, k + 1) =~= cs@.subrange(from as int, k as int).push(cs@[k as int]));
        k = k + 1;
    }
    s
}

/// Appends all of `cs` to `s`.
pub fn push_chars(s: &mut String, cs: &Vec<char>)
    ensures
        final(s)@ == old(s)@ + cs@,
{
    let mut k: usize = 0;
    while k < cs.len()
        invariant
            k <= cs@.len(),
            s@ == old(s)@ + cs@.subrange(0, k as int),
        decreases cs.len() - k,
    {
        s.push(cs[k]);
        assert(cs@.subrange(0, k + 1) =~= cs@.subrange(0, k as int).push(cs@[k as int]));
        k = k + 1;
    }
    assert(cs@.subrange(0, cs@.len() as int) =~= cs@);
}

/// `s` is exactly the characters `l`.
pub fn text_is(s: &str, l: &[char]) -> (r: bool)
    ensures
        r == (s@ == l@),
{
    let cs = chars_of(s);
    if cs.len() != l.len() {
        return false;
    }
    let r = lit_at_exec(&cs, 0, l);
    assert(r ==> cs@.subrange(0, l@.len() as int) =~= cs@);
    assert(cs@ == l@ ==> cs@.subrange(0, l@.len() as int) =~= cs@);
    r
}

/// Whether two texts are equal.
pub fn str_eq(a: &str, b: &str) -> (r: bool)
    ensures
        r == (a@ == b@),
{
    let x = chars_of(a);
    let y = chars_of(b);
    if x.len() != y.len() {
        return false;
    }
    let mut i: usize = 0;
    while i < x.len()
        invariant
            x@ == a@,
            y@ == b@,
            x@.len() == y@.len(),
            i <= x@.len(),
            forall|k: int| 0 <= k < i ==> x@[k] == y@[k],
        decreases x.len() - i,
    {
        if x[i] != y[i] {
            return false;
        }
        i = i + 1;
    }
    assert(x@ =~= y@);
    true
}

/// Appends the characters `l` to `s`.
pub fn push_lit(s: &mut String, l: &[char])
    ensures
        final(s)@ == old(s)@ + l@,
{
    let mut k: usize = 0;
    while k < l.len()
        invariant
            k <= l@.len(),
            s@ == old(s)@ + l@.subrange(0, k as int),
        decreases l.len() - k,
    {
        s.push(l[k]);
        assert(l@.subrange(0, k + 1) =~= l@.subrange(0, k as int).push(l@[k as int]));
        k = k + 1;
    }
    assert(l@.subrange(0, l@.len() as int) =~= l@);
}

/// Appends `t` to `s`.
pub fn push_str(s: &mut String, t: &str)
    ensures
        final(s)@ == old(s)@ + t@,
{
    let cs = chars_of(t);
    push_chars(s, &cs);
}

/// A `String` holding the characters `l`.
pub fn string_from_lit(l: &[char]) -> (s: String)
    ensures
        s@ == l@,
{
    let mut s = String::new();
    push_lit(&mut s, l);
    s
}

/// The decimal digits of `n`.
pub open spec fn decimal(n: nat) -> Seq<char>
    decreases n,
{
    if n < 10 {
        seq![(n + 48) as char]
    } else {
        decimal(n / 10) + seq![((n % 10) + 48) as char]
    }
}

/// `n` written in decimal.
pub fn decimal_text(n: u64) -> (r: String)
    ensures
        r@ == decimal(n as nat),
    decreases n,
{
    if n < 10 {
        let mut r = String::new();
        r.push(((n as u8) + 48) as char);
        assert(r@ =~= decimal(n as nat));
        r
    } else {
        let mut r = decimal_text(n / 10);
        r.push((((n % 10) as u8) + 48) as char);
        assert(r@ =~= decimal(n as nat));
        r
    }
}

} // verus!
