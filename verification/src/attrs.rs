//! The generic attribute-set form of a reference: a map from attribute names
//! to loosely typed values. A value is either a genuine string, or any other
//! JSON-like value carried as its canonical (unquoted) text. Demoting a value
//! to the flat string held by an indirect reference copies a string verbatim
//! and uses the canonical text for everything else.

use vstd::prelude::*;

use crate::kvmap::{entries_sorted, lemma_lookup_push, lemma_lookup_some_has_index, lookup, KvMap};
use crate::order::{lex_lt, lex_lt_irreflexive};

verus! {

/// One attribute value of an attribute set.
#[derive(Clone, Debug, PartialEq, Eq)]
pub enum AttrValue {
    /// A string value; demotion copies it verbatim, without quoting.
    Str(String),
    /// Any non-string value, as its canonical textual form.
    Other(String),
}

/// The mathematical shape of an `AttrValue`.
pub enum AttrValueView {
    Str(Seq<char>),
    Other(Seq<char>),
}

impl View for AttrValue {
    type V = AttrValueView;

    open spec fn view(&self) -> AttrValueView {
        match self {
            AttrValue::Str(s) => AttrValueView::Str(s@),
            AttrValue::Other(t) => AttrValueView::Other(t@),
        }
    }
}

/// The flat string an attribute value narrows to: strings verbatim, anything
/// else by its canonical text.
pub open spec fn demoted(v: AttrValueView) -> Seq<char> {
    match v {
        AttrValueView::Str(s) => s,
        AttrValueView::Other(t) => t,
    }
}

impl AttrValue {
    /// The flat string form of this value, per `demoted`.
    pub fn demoted_string(&self) -> (r: String)
        ensures
            r@ == demoted(self@),
    {
        match self {
            AttrValue::Str(s) => s.clone(),
            AttrValue::Other(t) => t.clone(),
        }
    }

    /// A copy with the same view.
    pub fn duplicate(&self) -> (r: AttrValue)
        ensures
            r@ == self@,
    {
        match self {
            AttrValue::Str(s) => AttrValue::Str(s.clone()),
            AttrValue::Other(t) => AttrValue::Other(t.clone()),
        }
    }
}

/// The views of a vector of loosely typed entries.
pub open spec fn avpairs_view(v: Seq<(String, AttrValue)>) -> Seq<(Seq<char>, AttrValueView)> {
    Seq::new(v.len(), |i: int| (v[i].0@, v[i].1@))
}

/// Build an attribute set from entries already in canonical order.
pub fn attrs_from_entries(entries: &Vec<(String, AttrValue)>) -> (r: Attrs)
    requires
        entries_sorted(avpairs_view(entries@)),
    ensures
        r.wf(),
        forall|k: Seq<char>| #[trigger] lookup(r@, k) == lookup(avpairs_view(entries@), k),
{
    let ghost es = avpairs_view(entries@);
    let n = entries.len();
    let mut out: Attrs = KvMap::new();
    let mut i: usize = 0;
    while i < n
        invariant
            i <= n,
            n == entries@.len(),
            es == avpairs_view(entries@),
            entries_sorted(es),
            out.wf(),
            forall|k: Seq<char>| #[trigger] lookup(out@, k) == lookup(es.take(i as int), k),
        decreases n - i,
    {
        let key = entries[i].0.clone();
        let val = entries[i].1.duplicate();
        out.insert(key, val);
        proof {
            assert(es.take(i + 1) =~= es.take(i as int).push(es[i as int]));
            assert forall|k: Seq<char>| #[trigger] lookup(out@, k) == lookup(
                es.take(i + 1),
                k,
            ) by {
                lemma_lookup_push(es.take(i as int), es[i as int], k);
                if k == es[i as int].0 {
                    if lookup(es.take(i as int), k) is Some {
                        lemma_lookup_some_has_index(es.take(i as int), k);
                        let j = choose|j: int|
                            0 <= j < es.take(i as int).len() && #[trigger] es.take(i as int)[j].0
                                == k;
                        assert(es.take(i as int)[j] == es[j]);
                        assert(lex_lt(es[j].0, es[i as int].0));
                        lex_lt_irreflexive(k);
                        assert(false);
                    }
                }
            }
        }
        i = i + 1;
    }
    proof {
        assert(es.take(n as int) =~= es);
    }
    out
}

/// An attribute set: attribute names mapped to loosely typed values.
pub type Attrs = KvMap<AttrValue>;

/// What looking up `k` among the demoted, non-reserved attributes of `m`
/// yields: `id` and `type` are hoisted to dedicated fields and never appear.
pub open spec fn demote_lookup(
    m: Seq<(Seq<char>, AttrValueView)>,
    k: Seq<char>,
) -> Option<Seq<char>> {
    if k == "id"@ || k == "type"@ {
        None
    } else {
        match lookup(m, k) {
            Some(v) => Some(demoted(v)),
            None => None,
        }
    }
}

} // verus!
