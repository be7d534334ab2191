//! Association lists keyed by text: the first entry with a key wins.

use vstd::prelude::*;

verus! {

/// The value of the first entry whose key is `k`.
pub open spec fn assoc_lookup<V>(s: Seq<(Seq<char>, V)>, k: Seq<char>) -> Option<V>
    decreases s.len(),
{
    if s.len() == 0 {
        None
    } else if s[0].0 == k {
        Some(s[0].1)
    } else {
        assoc_lookup(s.drop_first(), k)
    }
}

/// The index of the first entry whose key is `k`.
pub open spec fn assoc_index<V>(s: Seq<(Seq<char>, V)>, k: Seq<char>) -> Option<int>
    decreases s.len(),
{
    if s.len() == 0 {
        None
    } else if s[0].0 == k {
        Some(0)
    } else {
        match assoc_index(s.drop_first(), k) {
            Some(i) => Some(i + 1),
            None => None,
        }
    }
}

pub proof fn lemma_assoc_index<V>(s: Seq<(Seq<char>, V)>, k: Seq<char>)
    ensures
        assoc_index(s, k) matches Some(i) ==> 0 <= i < s.len() && s[i].0 == k
            && assoc_lookup(s, k) == Some(s[i].1)
            && forall|j: int| 0 <= j < i ==> #[trigger] s[j].0 != k,
        assoc_index(s, k) is None ==> assoc_lookup(s, k) is None
            && forall|j: int| 0 <= j < s.len() ==> #[trigger] s[j].0 != k,
    decreases s.len(),
{
    if s.len() > 0 {
        lemma_assoc_index(s.drop_first(), k);
        if s[0].0 != k {
            assert forall|j: int| 1 <= j < s.len() implies #[trigger] s[j] == s.drop_first()[j - 1] by {}
        }
    }
}

/// An index with key `k`, before which no key is `k`, is the first.
pub proof fn lemma_assoc_first<V>(s: Seq<(Seq<char>, V)>, k: Seq<char>, i: int)
    requires
        0 <= i < s.len(),
        s[i].0 == k,
        forall|j: int| 0 <= j < i ==> #[trigger] s[j].0 != k,
    ensures
        assoc_index(s, k) == Some(i),
        assoc_lookup(s, k) == Some(s[i].1),
    decreases s.len(),
{
    if i > 0 {
        let t = s.drop_first();
        assert forall|j: int| 0 <= j < i - 1 implies #[trigger] t[j].0 != k by {
            assert(t[j] == s[j + 1]);
        }
        lemma_assoc_first(t, k, i - 1);
    }
}

/// A sequence none of whose keys is `k` has no entry for it.
pub proof fn lemma_assoc_absent<V>(s: Seq<(Seq<char>, V)>, k: Seq<char>)
    requires
        forall|j: int| 0 <= j < s.len() ==> #[trigger] s[j].0 != k,
    ensures
        assoc_index(s, k) is None,
        assoc_lookup(s, k) is None,
    decreases s.len(),
{
    if s.len() > 0 {
        let t = s.drop_first();
        assert forall|j: int| 0 <= j < t.len() implies #[trigger] t[j].0 != k by {
            assert(t[j] == s[j + 1]);
        }
        lemma_assoc_absent(t, k);
    }
}

/// Appending an entry keeps every earlier answer and answers for its key when nothing did.
pub proof fn lemma_assoc_push<V>(s: Seq<(Seq<char>, V)>, e: (Seq<char>, V), k: Seq<char>)
    ensures
        assoc_lookup(s.push(e), k) == (match assoc_lookup(s, k) {
            Some(v) => Some(v),
            None => if e.0 == k { Some(e.1) } else { None },
        }),
    decreases s.len(),
{
    if s.len() == 0 {
        assert(s.push(e).drop_first() =~= Seq::<(Seq<char>, V)>::empty());
        assert(assoc_lookup(Seq::<(Seq<char>, V)>::empty(), k) is None);
        assert(s.push(e)[0] == e);
    } else {
        assert(s.push(e).drop_first() =~= s.drop_first().push(e));
        assert(s.push(e)[0] == s[0]);
        lemma_assoc_push(s.drop_first(), e, k);
    }
}

/// Replacing the value of entry `i` changes only the answer for its key.
pub proof fn lemma_assoc_update<V>(s: Seq<(Seq<char>, V)>, i: int, v: V, k: Seq<char>)
    requires
        0 <= i < s.len(),
        forall|j: int| 0 <= j < i ==> #[trigger] s[j].0 != s[i].0,
    ensures
        assoc_lookup(s.update(i, (s[i].0, v)), k) == (if k == s[i].0 { Some(v) } else { assoc_lookup(s, k) }),
    decreases s.len(),
{
    let u = s.update(i, (s[i].0, v));
    if k == s[i].0 {
        assert forall|j: int| 0 <= j < i implies #[trigger] u[j].0 != k by {}
        lemma_assoc_first(u, k, i);
    } else if i == 0 {
        assert(u.drop_first() =~= s.drop_first());
    } else {
        if s[0].0 != k {
            assert(u.drop_first() =~= s.drop_first().update(i - 1, (s[i].0, v)));
            let t = s.drop_first();
            assert forall|j: int| 0 <= j < i - 1 implies #[trigger] t[j].0 != t[i - 1].0 by {
                assert(t[j] == s[j + 1]);
            }
            lemma_assoc_update(t, i - 1, v, k);
        }
    }
}

/// The list with `k` set to `v`: its first entry for `k` replaced, or a new
/// entry appended.
pub open spec fn assoc_set<V>(s: Seq<(Seq<char>, V)>, k: Seq<char>, v: V) -> Seq<(Seq<char>, V)> {
    match assoc_index(s, k) {
        Some(i) => s.update(i, (k, v)),
        None => s.push((k, v)),
    }
}

/// After setting `k` to `v`, `k` gives `v` and every other key what it gave before.
pub proof fn lemma_assoc_set<V>(s: Seq<(Seq<char>, V)>, k: Seq<char>, v: V, q: Seq<char>)
    ensures
        assoc_lookup(assoc_set(s, k, v), q) == (if q == k { Some(v) } else { assoc_lookup(s, q) }),
{
    lemma_assoc_index(s, k);
    match assoc_index(s, k) {
        Some(i) => {
            assert(s.update(i, (s[i].0, v)) == s.update(i, (k, v)));
            lemma_assoc_update(s, i, v, q);
        },
        None => {
            lemma_assoc_push(s, (k, v), q);
        },
    }
}

} // verus!
