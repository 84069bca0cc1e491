//! Stable ordering of records by an integer key.

use vstd::prelude::*;

verus! {

/// A record that is ordered by an integer key.
pub trait Keyed {
    /// The key by which the record is ordered.
    spec fn key(&self) -> int;

    fn sort_key(&self) -> (k: i64)
        ensures
            k == self.key(),
    ;
}

/// Whether the keys of `s` never decrease.
pub open spec fn ascending<T: Keyed>(s: Seq<T>) -> bool {
    forall|i: int, j: int| 0 <= i < j < s.len() ==> s[i].key() <= s[j].key()
}

/// Number of leading records of `s` whose key is at most `k`, for ascending `s`:
/// the place at which a record with key `k` goes behind its equals.
pub open spec fn place_of<T: Keyed>(s: Seq<T>, k: int) -> int
    decreases s.len(),
{
    if s.len() == 0 || s.last().key() <= k {
        s.len() as int
    } else {
        place_of(s.drop_last(), k)
    }
}

/// `s` in ascending order of key; records with equal keys keep their order.
pub open spec fn sorted<T: Keyed>(s: Seq<T>) -> Seq<T>
    decreases s.len(),
{
    if s.len() == 0 {
        s
    } else {
        let head = sorted(s.drop_last());
        head.insert(place_of(head, s.last().key()), s.last())
    }
}

/// In an ascending sequence the place of a key parts the keys up to it from
/// the larger ones.
pub proof fn lemma_place_of<T: Keyed>(s: Seq<T>, k: int)
    requires
        ascending(s),
    ensures
        0 <= place_of(s, k) <= s.len(),
        forall|i: int| 0 <= i < place_of(s, k) ==> (#[trigger] s[i]).key() <= k,
        forall|i: int| place_of(s, k) <= i < s.len() ==> (#[trigger] s[i]).key() > k,
    decreases s.len(),
{
    if s.len() == 0 || s.last().key() <= k {
    } else {
        lemma_place_of(s.drop_last(), k);
        assert forall|i: int| place_of(s, k) <= i < s.len() implies (#[trigger] s[i]).key() > k by {
            if i < s.len() - 1 {
                assert(s.drop_last()[i] == s[i]);
            }
        }
        assert forall|i: int| 0 <= i < place_of(s, k) implies (#[trigger] s[i]).key() <= k by {
            assert(s.drop_last()[i] == s[i]);
        }
    }
}

/// Sorting yields an ascending sequence with the same records.
pub proof fn lemma_sorted<T: Keyed>(s: Seq<T>)
    ensures
        ascending(sorted(s)),
        sorted(s).len() == s.len(),
        sorted(s).to_multiset() == s.to_multiset(),
    decreases s.len(),
{
    broadcast use vstd::seq_lib::group_to_multiset_ensures;

    if s.len() == 0 {
    } else {
        let head = sorted(s.drop_last());
        let x = s.last();
        lemma_sorted(s.drop_last());
        lemma_place_of(head, x.key());
        let p = place_of(head, x.key());
        assert(s == s.drop_last().push(x));
    }
}

/// Puts `items` in ascending order of key, keeping the order of equal keys.
pub fn sort_by_key<T: Keyed>(items: Vec<T>) -> (r: Vec<T>)
    ensures
        r@ == sorted(items@),
        ascending(r@),
        r@.len() == items@.len(),
        r@.to_multiset() == items@.to_multiset(),
{
    let mut out: Vec<T> = Vec::new();
    let ghost all = items@;
    for x in it: items
        invariant
            it.seq() == all,
            out@ == sorted(all.take(it.index() as int)),
    {
        let ghost head = out@;
        proof {
            assert(all.take(it.index() + 1).drop_last() == all.take(it.index() as int));
        }
        let k = x.sort_key();
        let mut p: usize = out.len();
        assert(head.take(p as int) == head);
        while p > 0 && out[p - 1].sort_key() > k
            invariant
                p <= out.len(),
                out@ == head,
                place_of(head, k as int) == place_of(head.take(p as int), k as int),
            decreases p,
        {
            assert(head.take(p as int).drop_last() == head.take(p - 1));
            p -= 1;
        }
        out.insert(p, x);
    }
    proof {
        assert(all.take(all.len() as int) == all);
        lemma_sorted(all);
    }
    out
}

} // verus!
