//! A string-keyed map kept as a vector of entries in strictly increasing key
//! order. Canonical order makes rendering and serialization deterministic,
//! and two well-formed maps that agree on every lookup are equal.

use vstd::prelude::*;

use crate::order::{lex_lt, lex_lt_irreflexive, lex_lt_total, lex_lt_transitive,
    str_eq, str_lex_lt};

verus! {

/// First value bound to `k` in the entry sequence, if any.
pub open spec fn lookup<T>(m: Seq<(Seq<char>, T)>, k: Seq<char>) -> Option<T>
    decreases m.len(),
{
    if m.len() == 0 {
        None
    } else if m[0].0 == k {
        Some(m[0].1)
    } else {
        lookup(m.skip(1), k)
    }
}

/// Keys strictly increase, so they are also pairwise distinct.
pub open spec fn entries_sorted<T>(m: Seq<(Seq<char>, T)>) -> bool {
    forall|i: int, j: int| 0 <= i < j < m.len() ==> lex_lt(m[i].0, m[j].0)
}

pub proof fn lemma_sorted_tail<T>(m: Seq<(Seq<char>, T)>)
    requires
        entries_sorted(m),
        m.len() > 0,
    ensures
        entries_sorted(m.skip(1)),
{
    assert forall|i: int, j: int| 0 <= i < j < m.skip(1).len() implies lex_lt(
        m.skip(1)[i].0,
        m.skip(1)[j].0,
    ) by {
        assert(m.skip(1)[i] == m[i + 1]);
        assert(m.skip(1)[j] == m[j + 1]);
    }
}

/// In a sorted entry sequence, the entry at any index is what lookup finds.
pub proof fn lemma_lookup_present<T>(m: Seq<(Seq<char>, T)>, i: int)
    requires
        entries_sorted(m),
        0 <= i < m.len(),
    ensures
        lookup(m, m[i].0) == Some(m[i].1),
    decreases i,
{
    if i > 0 {
        lex_lt_irreflexive(m[0].0);
        assert(m[0].0 != m[i].0);
        lemma_sorted_tail(m);
        assert(m.skip(1)[i - 1] == m[i]);
        lemma_lookup_present(m.skip(1), i - 1);
    }
}

pub proof fn lemma_lookup_absent<T>(m: Seq<(Seq<char>, T)>, k: Seq<char>)
    requires
        forall|i: int| 0 <= i < m.len() ==> m[i].0 != k,
    ensures
        lookup(m, k) == None::<T>,
    decreases m.len(),
{
    if m.len() > 0 {
        assert forall|i: int| 0 <= i < m.skip(1).len() implies m.skip(1)[i].0 != k by {
            assert(m.skip(1)[i] == m[i + 1]);
        }
        lemma_lookup_absent(m.skip(1), k);
    }
}

/// A successful lookup comes from some entry.
pub proof fn lemma_lookup_some_has_index<T>(m: Seq<(Seq<char>, T)>, k: Seq<char>)
    requires
        lookup(m, k) is Some,
    ensures
        exists|i: int| 0 <= i < m.len() && #[trigger] m[i].0 == k,
    decreases m.len(),
{
    if m.len() > 0 && m[0].0 != k {
        lemma_lookup_some_has_index(m.skip(1), k);
        let i = choose|i: int| 0 <= i < m.skip(1).len() && #[trigger] m.skip(1)[i].0 == k;
        assert(m[i + 1] == m.skip(1)[i]);
    }
}

/// Appending an entry only adds a binding for its key, and only where the key
/// was absent.
pub proof fn lemma_lookup_push<T>(m: Seq<(Seq<char>, T)>, e: (Seq<char>, T), k: Seq<char>)
    ensures
        lookup(m.push(e), k) == (if lookup(m, k) is Some {
            lookup(m, k)
        } else if e.0 == k {
            Some(e.1)
        } else {
            None::<T>
        }),
    decreases m.len(),
{
    if m.len() == 0 {
        assert(m.push(e)[0] == e);
        assert(m.push(e).skip(1) =~= Seq::<(Seq<char>, T)>::empty());
        assert(lookup(Seq::<(Seq<char>, T)>::empty(), k) is None);
        assert(lookup(m, k) is None);
    } else {
        assert(m.push(e)[0] == m[0]);
        assert(m.push(e).skip(1) =~= m.skip(1).push(e));
        lemma_lookup_push(m.skip(1), e, k);
        if m[0].0 == k {
            assert(lookup(m.push(e), k) == Some(m[0].1));
            assert(lookup(m, k) == Some(m[0].1));
        } else {
            assert(lookup(m.push(e), k) == lookup(m.skip(1).push(e), k));
            assert(lookup(m, k) == lookup(m.skip(1), k));
        }
    }
}

/// Two sorted entry sequences that agree on every lookup are the same sequence:
/// sorted order is a canonical form.
pub proof fn lemma_sorted_lookup_canonical<T>(m1: Seq<(Seq<char>, T)>, m2: Seq<(Seq<char>, T)>)
    requires
        entries_sorted(m1),
        entries_sorted(m2),
        forall|k: Seq<char>| #[trigger] lookup(m1, k) == lookup(m2, k),
    ensures
        m1 =~= m2,
    decreases m1.len() + m2.len(),
{
    if m1.len() == 0 && m2.len() == 0 {
        assert(m1 =~= m2);
    } else if m1.len() == 0 {
        lemma_lookup_present(m2, 0);
        assert(lookup(m1, m2[0].0) == None::<T>);
    } else if m2.len() == 0 {
        lemma_lookup_present(m1, 0);
        assert(lookup(m2, m1[0].0) == None::<T>);
    } else {
        let k1 = m1[0].0;
        let k2 = m2[0].0;
        lemma_lookup_present(m1, 0);
        lemma_lookup_present(m2, 0);
        if lex_lt(k1, k2) {
            assert forall|i: int| 0 <= i < m2.len() implies m2[i].0 != k1 by {
                if i > 0 {
                    lex_lt_transitive(k1, k2, m2[i].0);
                }
                lex_lt_irreflexive(m2[i].0);
            }
            lemma_lookup_absent(m2, k1);
            assert(lookup(m1, k1) == lookup(m2, k1));
            assert(false);
        }
        if lex_lt(k2, k1) {
            assert forall|i: int| 0 <= i < m1.len() implies m1[i].0 != k2 by {
                if i > 0 {
                    lex_lt_transitive(k2, k1, m1[i].0);
                }
                lex_lt_irreflexive(m1[i].0);
            }
            lemma_lookup_absent(m1, k2);
            assert(false);
        }
        lex_lt_total(k1, k2);
        assert(k1 == k2);
        assert(m1[0].1 == m2[0].1);
        lemma_sorted_tail(m1);
        lemma_sorted_tail(m2);
        assert forall|k: Seq<char>| #[trigger] lookup(m1.skip(1), k) == lookup(m2.skip(1), k) by {
            if k == k1 {
                assert forall|i: int| 0 <= i < m1.skip(1).len() implies m1.skip(1)[i].0 != k by {
                    assert(m1.skip(1)[i] == m1[i + 1]);
                    lex_lt_irreflexive(m1[i + 1].0);
                }
                assert forall|i: int| 0 <= i < m2.skip(1).len() implies m2.skip(1)[i].0 != k by {
                    assert(m2.skip(1)[i] == m2[i + 1]);
                    lex_lt_irreflexive(m2[i + 1].0);
                }
                lemma_lookup_absent(m1.skip(1), k);
                lemma_lookup_absent(m2.skip(1), k);
            } else {
                assert(lookup(m1, k) == lookup(m1.skip(1), k));
                assert(lookup(m2, k) == lookup(m2.skip(1), k));
                assert(lookup(m1, k) == lookup(m2, k));
            }
        }
        lemma_sorted_lookup_canonical(m1.skip(1), m2.skip(1));
        assert forall|i: int| 0 <= i < m1.len() implies m1[i] == m2[i] by {
            if i > 0 {
                assert(m1.skip(1)[i - 1] == m1[i]);
                assert(m2.skip(1)[i - 1] == m2[i]);
                assert(m1.skip(1)[i - 1] == m2.skip(1)[i - 1]);
            } else {
                assert(m1[0] == (k1, m1[0].1));
                assert(m2[0] == (k2, m2[0].1));
            }
        }
        assert(m1 =~= m2);
    }
}

/// A map from strings to values of `V`, stored sorted by key.
#[derive(Clone, Debug)]
pub struct KvMap<V> {
    entries: Vec<(String, V)>,
}

impl<V: View> View for KvMap<V> {
    type V = Seq<(Seq<char>, V::V)>;

    closed spec fn view(&self) -> Seq<(Seq<char>, V::V)> {
        Seq::new(self.entries@.len(), |i: int| (self.entries@[i].0@, self.entries@[i].1@))
    }
}

impl<V: View> KvMap<V> {
    /// Well-formed: entries in strictly increasing key order.
    pub open spec fn wf(&self) -> bool {
        entries_sorted(self@)
    }

    pub fn new() -> (r: Self)
        ensures
            r@ =~= Seq::<(Seq<char>, V::V)>::empty(),
            r.wf(),
    {
        let r = KvMap { entries: Vec::new() };
        proof {
            assert(r@.len() == 0);
        }
        r
    }

    pub fn len(&self) -> (r: usize)
        ensures
            r == self@.len(),
    {
        self.entries.len()
    }

    pub fn is_empty(&self) -> (r: bool)
        ensures
            r == (self@.len() == 0),
    {
        self.entries.len() == 0
    }

    pub fn key_at(&self, i: usize) -> (r: &String)
        requires
            i < self@.len(),
        ensures
            r@ == self@[i as int].0,
    {
        &self.entries[i].0
    }

    pub fn value_at(&self, i: usize) -> (r: &V)
        requires
            i < self@.len(),
        ensures
            r@ == self@[i as int].1,
    {
        &self.entries[i].1
    }

    pub fn get(&self, k: &str) -> (r: Option<&V>)
        requires
            self.wf(),
        ensures
            match r {
                Some(v) => lookup(self@, k@) == Some(v@),
                None => lookup(self@, k@) == None::<V::V>,
            },
    {
        let n = self.entries.len();
        let mut i: usize = 0;
        while i < n
            invariant
                self.wf(),
                i <= n,
                n == self@.len(),
                forall|j: int| 0 <= j < i ==> self@[j].0 != k@,
            decreases n - i,
        {
            if str_eq(self.entries[i].0.as_str(), k) {
                proof {
                    lemma_lookup_present(self@, i as int);
                }
                return Some(&self.entries[i].1);
            }
            i = i + 1;
        }
        proof {
            lemma_lookup_absent(self@, k@);
        }
        None
    }

    /// Insert `v` under `k`, replacing any existing binding and keeping the
    /// entries sorted.
    pub fn insert(&mut self, k: String, v: V)
        requires
            old(self).wf(),
        ensures
            final(self).wf(),
            lookup(final(self)@, k@) == Some(v@),
            forall|k2: Seq<char>| k2 != k@ ==> #[trigger] lookup(final(self)@, k2) == lookup(
                old(self)@,
                k2,
            ),
            old(self)@.len() <= final(self)@.len() <= old(self)@.len() + 1,
    {
        let ghost m0 = self@;
        let n = self.entries.len();
        let mut i: usize = 0;
        while i < n && str_lex_lt(self.entries[i].0.as_str(), k.as_str())
            invariant
                self@ == m0,
                entries_sorted(m0),
                i <= n,
                n == m0.len(),
                forall|j: int| 0 <= j < i ==> lex_lt(m0[j].0, k@),
            decreases n - i,
        {
            i = i + 1;
        }
        let replacing = i < n && str_eq(self.entries[i].0.as_str(), k.as_str());
        if replacing {
            self.entries.remove(i);
            self.entries.insert(i, (k, v));
            proof {
                let m1 = self@;
                assert(m1.len() == m0.len());
                assert forall|j: int| 0 <= j < m1.len() && j != i implies m1[j] == m0[j] by {}
                assert(m1[i as int] == (k@, v@));
                assert forall|p: int, q: int| 0 <= p < q < m1.len() implies lex_lt(
                    m1[p].0,
                    m1[q].0,
                ) by {
                    assert(m0[i as int].0 == k@);
                    assert(lex_lt(m0[p].0, m0[q].0));
                }
                lemma_lookup_present(m1, i as int);
                assert forall|k2: Seq<char>| k2 != k@ implies #[trigger] lookup(m1, k2) == lookup(
                    m0,
                    k2,
                ) by {
                    lemma_lookup_stable(m0, m1, k2);
                }
            }
        } else {
            proof {
                // every key at or after position i exceeds k
                assert forall|j: int| i <= j < m0.len() implies lex_lt(k@, m0[j].0) by {
                    lex_lt_total(k@, m0[i as int].0);
                    if m0[i as int].0 == k@ {
                        assert(false);
                    }
                    if j > i {
                        lex_lt_transitive(k@, m0[i as int].0, m0[j].0);
                    }
                }
            }
            self.entries.insert(i, (k, v));
            proof {
                let m1 = self@;
                assert(m1.len() == m0.len() + 1);
                assert forall|j: int| 0 <= j < i implies m1[j] == m0[j] by {}
                assert(m1[i as int] == (k@, v@));
                assert forall|j: int| i < j < m1.len() implies m1[j] == m0[j - 1] by {}
                assert forall|p: int, q: int| 0 <= p < q < m1.len() implies lex_lt(
                    m1[p].0,
                    m1[q].0,
                ) by {
                    if p < i && q == i {
                    } else if p == i && q > i {
                    } else if p < i && q > i {
                        assert(lex_lt(m0[p].0, m0[q - 1].0));
                    } else if q < i {
                        assert(lex_lt(m0[p].0, m0[q].0));
                    } else if p > i {
                        assert(lex_lt(m0[p - 1].0, m0[q - 1].0));
                    }
                }
                lemma_lookup_present(m1, i as int);
                assert forall|k2: Seq<char>| k2 != k@ implies #[trigger] lookup(m1, k2) == lookup(
                    m0,
                    k2,
                ) by {
                    assert forall|j: int| 0 <= j < m0.len() && m0[j].0 == k2 implies exists|j2: int|
                        0 <= j2 < m1.len() && m1[j2] == m0[j] by {
                        if j < i {
                            assert(m1[j] == m0[j]);
                        } else {
                            assert(m1[j + 1] == m0[j]);
                        }
                    }
                    assert forall|j: int| 0 <= j < m1.len() && m1[j].0 == k2 implies exists|j2: int|
                        0 <= j2 < m0.len() && m0[j2] == m1[j] by {
                        if j < i {
                            assert(m0[j] == m1[j]);
                        } else {
                            assert(j != i);
                            assert(m0[j - 1] == m1[j]);
                        }
                    }
                    lemma_lookup_stable(m0, m1, k2);
                }
            }
        }
    }
}

impl PartialEq for KvMap<String> {
    fn eq(&self, other: &Self) -> (r: bool) {
        let n = self.entries.len();
        if n != other.entries.len() {
            proof {
                assert(self@.len() != other@.len());
            }
            return false;
        }
        let mut i: usize = 0;
        while i < n
            invariant
                i <= n,
                n == self@.len(),
                n == other@.len(),
                forall|j: int| 0 <= j < i ==> self@[j] == other@[j],
            decreases n - i,
        {
            if !str_eq(self.entries[i].0.as_str(), other.entries[i].0.as_str()) {
                proof {
                    assert(self@[i as int].0 != other@[i as int].0);
                }
                return false;
            }
            if !str_eq(self.entries[i].1.as_str(), other.entries[i].1.as_str()) {
                proof {
                    assert(self@[i as int].1 != other@[i as int].1);
                }
                return false;
            }
            i = i + 1;
        }
        proof {
            assert(self@ =~= other@);
        }
        true
    }
}

impl vstd::std_specs::cmp::PartialEqSpecImpl for KvMap<String> {
    open spec fn obeys_eq_spec() -> bool {
        true
    }

    open spec fn eq_spec(&self, other: &Self) -> bool {
        self@ == other@
    }
}

/// If every binding of `k2` is the same in two sorted sequences, lookups agree.
/// Used with: m1 holds the same entries as m0 except at one position whose key
/// is not `k2`.
proof fn lemma_lookup_stable<T>(m0: Seq<(Seq<char>, T)>, m1: Seq<(Seq<char>, T)>, k2: Seq<char>)
    requires
        entries_sorted(m0),
        entries_sorted(m1),
        forall|j: int|
            0 <= j < m0.len() && m0[j].0 == k2 ==> exists|j2: int|
                0 <= j2 < m1.len() && m1[j2] == m0[j],
        forall|j: int|
            0 <= j < m1.len() && m1[j].0 == k2 ==> exists|j2: int|
                0 <= j2 < m0.len() && m0[j2] == m1[j],
    ensures
        lookup(m0, k2) == lookup(m1, k2),
{
    if exists|j: int| 0 <= j < m0.len() && m0[j].0 == k2 {
        let j = choose|j: int| 0 <= j < m0.len() && m0[j].0 == k2;
        lemma_lookup_present(m0, j);
        let j2 = choose|j2: int| 0 <= j2 < m1.len() && m1[j2] == m0[j];
        lemma_lookup_present(m1, j2);
    } else {
        assert forall|j: int| 0 <= j < m0.len() implies m0[j].0 != k2 by {}
        lemma_lookup_absent(m0, k2);
        if exists|j: int| 0 <= j < m1.len() && m1[j].0 == k2 {
            let j = choose|j: int| 0 <= j < m1.len() && m1[j].0 == k2;
            let j2 = choose|j2: int| 0 <= j2 < m0.len() && m0[j2] == m1[j];
            assert(false);
        }
        lemma_lookup_absent(m1, k2);
    }
}

} // verus!
