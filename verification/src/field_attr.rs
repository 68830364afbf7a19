//! Records whose fields are read and written under various rules: renamed,
//! aliased, defaulted, flattened, borrowed, bounded, or holding a path of
//! which only the file name is kept.

use crate::text::{chars_of, push_str};
use std::borrow::Cow;
use std::path::PathBuf;
use std::str::FromStr;
use vstd::prelude::*;

verus! {

/// A value that is written `A` or `B`; `B` by default.
#[derive(Clone, Copy, Debug, PartialEq, Eq, Structural)]
pub enum FieldAttrValue {
    A,
    B,
}

impl Default for FieldAttrValue {
    fn default() -> (r: Self)
        ensures
            r == FieldAttrValue::B,
    {
        FieldAttrValue::B
    }
}

/// The text of a value.
pub open spec fn value_text(v: FieldAttrValue) -> Seq<char> {
    match v {
        FieldAttrValue::A => seq!['A'],
        FieldAttrValue::B => seq!['B'],
    }
}

/// The message for text that is not a value.
pub open spec fn invalid_value(s: Seq<char>) -> Seq<char> {
    "invalid value: "@ + s
}

impl FieldAttrValue {
    /// The value a missing field takes: `B`.
    pub fn value() -> (r: Self)
        ensures
            r == FieldAttrValue::B,
    {
        FieldAttrValue::B
    }

    /// The text of the value: `A` or `B`.
    pub fn to_string(&self) -> (r: String)
        ensures
            r@ == value_text(*self),
    {
        let mut r = String::new();
        match self {
            FieldAttrValue::A => r.push('A'),
            FieldAttrValue::B => r.push('B'),
        }
        assert(r@ =~= value_text(*self));
        r
    }

    /// The value written `s`, or the message that it is none.
    pub fn parse(s: &str) -> (r: Result<FieldAttrValue, String>)
        ensures
            match r {
                Ok(v) => value_text(v) == s@,
                Err(m) => s@ != seq!['A'] && s@ != seq!['B'] && m@ == invalid_value(s@),
            },
    {
        if str_eq_chars(s, 'A') {
            Ok(FieldAttrValue::A)
        } else if str_eq_chars(s, 'B') {
            Ok(FieldAttrValue::B)
        } else {
            let mut m = String::new();
            push_str(&mut m, "invalid value: ");
            push_str(&mut m, s);
            assert(m@ =~= invalid_value(s@));
            Err(m)
        }
    }
}

/// What `to_string` writes, `parse` reads back as the same value: the text
/// of a value is `A` or `B`, which `parse` accepts, and no two values share
/// a text.
pub proof fn lemma_written_text_reads_back(v: FieldAttrValue, w: FieldAttrValue)
    ensures
        value_text(v) == seq!['A'] || value_text(v) == seq!['B'],
        value_text(w) == value_text(v) ==> w == v,
{
    if value_text(w) == value_text(v) {
        assert(value_text(w)[0] == value_text(v)[0]);
    }
}

/// `s` is the one character `c`.
fn str_eq_chars(s: &str, c: char) -> (r: bool)
    ensures
        r == (s@ == seq![c]),
{
    let cs = chars_of(s);
    if cs.len() == 1 && cs[0] == c {
        assert(cs@ =~= seq![c]);
        true
    } else {
        false
    }
}

impl FromStr for FieldAttrValue {
    type Err = String;

    /// The value written `s`, or the message that it is none.
    fn from_str(s: &str) -> (r: Result<Self, Self::Err>)
        ensures
            match r {
                Ok(v) => value_text(v) == s@,
                Err(m) => s@ != seq!['A'] && s@ != seq!['B'] && m@ == invalid_value(s@),
            },
    {
        FieldAttrValue::parse(s)
    }
}

/// A record with a renamed field, an aliased field, and a path.
pub struct FieldAttr {
    pub rename: Option<String>,
    pub alias: Option<String>,
    pub path: Option<PathBuf>,
}

/// A record whose value defaults to that of `Default`.
pub struct FieldAttrDefault {
    pub default_: FieldAttrValue,
}

/// A record whose value defaults to `FieldAttrValue::value`.
pub struct FieldAttrDefaultPath {
    pub default_: FieldAttrValue,
}

/// A record whose fields are those of `inner`.
pub struct FieldAttrWrap {
    pub inner: FieldAttr,
}

/// A record whose first value may be borrowed from the text it is read
/// from.
pub struct FieldAttrBorrow<'a> {
    pub borrowed: Cow<'a, FieldAttrValue>,
    pub owned: Cow<'a, FieldAttrValue>,
}

/// A record whose value is read and written as text.
pub struct FieldAttrBound<T> {
    pub inner: T,
}

} // verus!
