//! Sequences of records addressed by a string key.
//!
//! Every ledger in this crate is a sequence of records in which a string
//! field acts as the key: club names key the ownership, staking and bonding
//! ledgers, addresses key the escrow ledger and the stake entries inside one
//! club's row. This module gives the common vocabulary: the first index
//! holding a key, uniqueness of keys, upsert, and a verified linear search.

use vstd::prelude::*;

verus! {

/// A record with a distinguished string key.
pub trait Keyed: Sized {
    /// The key under which the record is filed.
    spec fn key(&self) -> Seq<char>;

    /// Does this record's key equal `k`?
    fn key_matches(&self, k: &String) -> (r: bool)
        ensures
            r == (self.key() == k@),
    ;
}

/// Index of the first record keyed by `k`, or `-1` if there is none.
pub open spec fn key_idx<T: Keyed>(s: Seq<T>, k: Seq<char>) -> int
    decreases s.len(),
{
    if s.len() <= 0 {
        -1
    } else if s[0].key() == k {
        0
    } else if key_idx(s.drop_first(), k) == -1 {
        -1
    } else {
        key_idx(s.drop_first(), k) + 1
    }
}

/// No two records share a key.
pub open spec fn unique_keys<T: Keyed>(s: Seq<T>) -> bool {
    forall|i: int, j: int| 0 <= i < j < s.len() ==> (#[trigger] s[i]).key() != (#[trigger] s[j]).key()
}

/// Replace the record sharing `rec`'s key, or append `rec` if none does.
pub open spec fn upsert_by_key<T: Keyed>(s: Seq<T>, rec: T) -> Seq<T> {
    let i = key_idx(s, rec.key());
    if i == -1 {
        s.push(rec)
    } else {
        s.update(i, rec)
    }
}

/// What `key_idx` returns: a miss means the key is absent, a hit points at
/// the first record holding the key.
pub proof fn lemma_key_idx<T: Keyed>(s: Seq<T>, k: Seq<char>)
    ensures
        key_idx(s, k) == -1 ==> forall|i: int| 0 <= i < s.len() ==> (#[trigger] s[i]).key() != k,
        key_idx(s, k) != -1 ==> 0 <= key_idx(s, k) < s.len() && s[key_idx(s, k)].key() == k,
        key_idx(s, k) != -1 ==> forall|i: int| 0 <= i < key_idx(s, k) ==> (#[trigger] s[i]).key() != k,
    decreases s.len(),
{
    if s.len() > 0 && s[0].key() != k {
        lemma_key_idx(s.drop_first(), k);
        let d = s.drop_first();
        assert(forall|i: int| 0 <= i < d.len() ==> d[i] == s[i + 1]);
        if key_idx(d, k) == -1 {
            assert forall|i: int| 0 <= i < s.len() implies (#[trigger] s[i]).key() != k by {
                if i > 0 {
                    assert(s[i] == d[i - 1]);
                    assert(d[i - 1].key() != k);
                }
            }
        } else {
            let r = key_idx(d, k) + 1;
            assert(s[r] == d[r - 1]);
            assert forall|i: int| 0 <= i < r implies (#[trigger] s[i]).key() != k by {
                if i > 0 {
                    assert(s[i] == d[i - 1]);
                    assert(d[i - 1].key() != k);
                }
            }
        }
    }
}

/// `key_idx` finds exactly the first match.
pub proof fn lemma_key_idx_of_first_match<T: Keyed>(s: Seq<T>, k: Seq<char>, j: int)
    requires
        0 <= j < s.len(),
        s[j].key() == k,
        forall|i: int| 0 <= i < j ==> (#[trigger] s[i]).key() != k,
    ensures
        key_idx(s, k) == j,
    decreases s.len(),
{
    if j == 0 {
    } else {
        assert(s[0].key() != k);
        assert(forall|i: int| 0 <= i < s.drop_first().len() ==> s.drop_first()[i] == s[i + 1]);
        lemma_key_idx_of_first_match(s.drop_first(), k, j - 1);
    }
}

/// An upsert keeps keys unique.
pub proof fn lemma_upsert_keeps_unique_keys<T: Keyed>(s: Seq<T>, rec: T)
    requires
        unique_keys(s),
    ensures
        unique_keys(upsert_by_key(s, rec)),
{
    lemma_key_idx(s, rec.key());
}

/// Replacing a record with one of the same key keeps keys unique.
pub proof fn lemma_update_same_key_unique<T: Keyed>(s: Seq<T>, i: int, rec: T)
    requires
        unique_keys(s),
        0 <= i < s.len(),
        rec.key() == s[i].key(),
    ensures
        unique_keys(s.update(i, rec)),
{
}

/// Removing a record keeps keys unique.
pub proof fn lemma_remove_keeps_unique_keys<T: Keyed>(s: Seq<T>, i: int)
    requires
        unique_keys(s),
        0 <= i < s.len(),
    ensures
        unique_keys(s.remove(i)),
{
    let t = s.remove(i);
    assert forall|a: int, b: int| 0 <= a < b < t.len() implies (#[trigger] t[a]).key() != (
    #[trigger] t[b]).key() by {
        let a0 = if a < i {
            a
        } else {
            a + 1
        };
        let b0 = if b < i {
            b
        } else {
            b + 1
        };
        assert(t[a] == s[a0]);
        assert(t[b] == s[b0]);
    }
}

/// First index in `list` whose record is keyed by `k`, or `None`.
pub fn find_by_key<T: Keyed>(list: &Vec<T>, k: &String) -> (r: Option<usize>)
    ensures
        r matches Some(j) ==> key_idx(list@, k@) == j as int && (j as int) < list@.len()
            && list@[j as int].key() == k@,
        r is None ==> key_idx(list@, k@) == -1,
{
    let mut n: usize = 0;
    while n < list.len()
        invariant
            n <= list@.len(),
            forall|i: int| 0 <= i < n ==> (#[trigger] list@[i]).key() != k@,
        decreases list@.len() - n,
    {
        if list[n].key_matches(k) {
            proof {
                lemma_key_idx_of_first_match(list@, k@, n as int);
            }
            return Some(n);
        }
        n = n + 1;
    }
    proof {
        lemma_key_idx(list@, k@);
        if key_idx(list@, k@) != -1 {
            assert(list@[key_idx(list@, k@)].key() == k@);
        }
    }
    None
}

} // verus!
