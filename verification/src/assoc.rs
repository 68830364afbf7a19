//! Association lists keyed by text, standing for the objects of a JSON
//! document: of two pairs with one key, the later wins.

use crate::text::str_eq;
use vstd::prelude::*;

verus! {

/// The map that `s` stands for: its pairs inserted in turn.
pub open spec fn assoc_view<V: View>(s: Seq<(String, V)>) -> Map<Seq<char>, V::V>
    decreases s.len(),
{
    if s.len() == 0 {
        Map::empty()
    } else {
        assoc_view(s.drop_last()).insert(s.last().0@, s.last().1@)
    }
}

/// Writing over the last pair with key `k` inserts `k` in the map.
proof fn lemma_assoc_update<V: View>(s: Seq<(String, V)>, i: int, k: String, v: V)
    requires
        0 <= i < s.len(),
        s[i].0@ == k@,
        forall|j: int| i < j < s.len() ==> s[j].0@ != k@,
    ensures
        assoc_view(s.update(i, (k, v))) == assoc_view(s).insert(k@, v@),
    decreases s.len(),
{
    let t = s.update(i, (k, v));
    assert(t.last() == (if i == s.len() - 1 { (k, v) } else { s.last() }));
    if i == s.len() - 1 {
        assert(t.drop_last() =~= s.drop_last());
        assert(assoc_view(t) =~= assoc_view(s).insert(k@, v@));
    } else {
        lemma_assoc_update(s.drop_last(), i, k, v);
        assert(t.drop_last() =~= s.drop_last().update(i, (k, v)));
        assert(assoc_view(t) =~= assoc_view(s).insert(k@, v@));
    }
}

/// Sets the value under `k` to `v`, over the last pair with that key, or
/// in a new pair at the end.
pub fn assoc_put<V: View>(m: &mut Vec<(String, V)>, k: String, v: V)
    ensures
        assoc_view(final(m)@) == assoc_view(old(m)@).insert(k@, v@),
{
    let mut i: usize = m.len();
    while i > 0
        invariant
            i <= m@.len(),
            m@ == old(m)@,
            forall|j: int| i <= j < m@.len() ==> m@[j].0@ != k@,
        decreases i,
    {
        if str_eq(m[i - 1].0.as_str(), k.as_str()) {
            proof {
                lemma_assoc_update(m@, i - 1, k, v);
            }
            m[i - 1] = (k, v);
            return;
        }
        i = i - 1;
    }
    let ghost before = m@;
    m.push((k, v));
    assert(m@.drop_last() =~= before);
}

/// The value under a key is that of the last pair with the key.
proof fn lemma_assoc_last<V: View>(s: Seq<(String, V)>, i: int, k: Seq<char>)
    requires
        0 <= i < s.len(),
        s[i].0@ == k,
        forall|j: int| i < j < s.len() ==> s[j].0@ != k,
    ensures
        assoc_view(s).contains_key(k),
        assoc_view(s)[k] == s[i].1@,
    decreases s.len(),
{
    if i < s.len() - 1 {
        lemma_assoc_last(s.drop_last(), i, k);
    }
}

/// A key held by no pair is not in the map.
proof fn lemma_assoc_absent<V: View>(s: Seq<(String, V)>, k: Seq<char>)
    requires
        forall|j: int| 0 <= j < s.len() ==> s[j].0@ != k,
    ensures
        !assoc_view(s).contains_key(k),
    decreases s.len(),
{
    if s.len() > 0 {
        lemma_assoc_absent(s.drop_last(), k);
    }
}

/// Takes out the value under `k`, when there is one.
pub fn assoc_take<V: View>(pairs: Vec<(String, V)>, k: &str) -> (r: Option<V>)
    ensures
        match r {
            Some(v) => assoc_view(pairs@).contains_key(k@) && v@ == assoc_view(pairs@)[k@],
            None => !assoc_view(pairs@).contains_key(k@),
        },
{
    let ghost all = pairs@;
    let mut m = pairs;
    let mut i: usize = m.len();
    while i > 0
        invariant
            i <= m@.len(),
            m@ == all,
            all == pairs@,
            forall|j: int| i <= j < m@.len() ==> m@[j].0@ != k@,
        decreases i,
    {
        if str_eq(m[i - 1].0.as_str(), k) {
            proof {
                lemma_assoc_last(all, i - 1, k@);
            }
            let pair = m.remove(i - 1);
            assert(pair.1@ == all[i - 1].1@);
            return Some(pair.1);
        }
        i = i - 1;
    }
    proof {
        lemma_assoc_absent(all, k@);
    }
    None
}

} // verus!
