//! The typed indirect reference: a symbolic id to be looked up in a registry,
//! together with auxiliary string attributes.

use vstd::prelude::*;

use crate::attrs::{demote_lookup, AttrValue, AttrValueView, Attrs};
use crate::kvmap::{lemma_lookup_push, lookup, KvMap};
use crate::order::str_eq;

verus! {

/// The fixed discriminant an indirect reference carries, so the value can
/// live inside a larger tagged union of reference kinds sharing a `type`
/// field. Its textual form is always `indirect`.
#[derive(Clone, Copy, Debug, PartialEq, Eq, Structural)]
pub enum Tag {
    Indirect,
}

impl Default for Tag {
    fn default() -> (r: Self)
        ensures
            r == Tag::Indirect,
    {
        Tag::Indirect
    }
}

/// Failure to build an indirect reference from an attribute set: the named
/// attribute is absent (or is present but not a string).
#[derive(Clone, Copy, Debug, PartialEq, Eq)]
pub enum ConstructError {
    MissingAttribute(&'static str),
}

/// An indirect flake reference: `flake:<id>[?<attributes>]`.
#[derive(Clone, Debug)]
pub struct IndirectRef {
    /// The registry entry name: the part immediately after `flake:`.
    pub id: String,
    /// Always the fixed `indirect` tag.
    pub _type: Tag,
    /// Auxiliary qualifiers (a pinned revision, a ref, ...) carried alongside
    /// the id, in canonical (sorted) key order.
    pub attributes: KvMap<String>,
}

impl IndirectRef {
    /// Well-formed: the id is non-empty, and the attributes are in canonical
    /// order and never shadow the hoisted `id` and `type` fields.
    pub open spec fn wf(&self) -> bool {
        &&& self.id@.len() > 0
        &&& self.attributes.wf()
        &&& lookup(self.attributes@, "id"@) is None
        &&& lookup(self.attributes@, "type"@) is None
    }

    /// View equality: same id and the same attribute entries.
    pub open spec fn eqv(&self, other: &Self) -> bool {
        self.id@ == other.id@ && self.attributes@ == other.attributes@
    }

    pub fn new(id: String, attributes: KvMap<String>) -> (r: Self)
        requires
            id@.len() > 0,
            attributes.wf(),
            lookup(attributes@, "id"@) is None,
            lookup(attributes@, "type"@) is None,
        ensures
            r.wf(),
            r.id@ == id@,
            r._type == Tag::Indirect,
            r.attributes@ == attributes@,
    {
        IndirectRef { id, _type: Tag::Indirect, attributes }
    }

    /// Build an indirect reference from an attribute set: hoist `id` (which
    /// must be present as a string and non-empty; an empty id is treated as
    /// absent) and `type`, and demote every other value to its flat string.
    pub fn try_from_attrs(attrs: Attrs) -> (r: Result<IndirectRef, ConstructError>)
        requires
            attrs.wf(),
        ensures
            match r {
                Ok(ir) => {
                    &&& ir.wf()
                    &&& ir._type == Tag::Indirect
                    &&& lookup(attrs@, "id"@) == Some(AttrValueView::Str(ir.id@))
                    &&& forall|k: Seq<char>| #[trigger]
                        lookup(ir.attributes@, k) == demote_lookup(attrs@, k)
                },
                Err(e) => {
                    &&& e matches ConstructError::MissingAttribute(a) && a@ == "id"@
                    &&& forall|s: Seq<char>|
                        lookup(attrs@, "id"@) == Some(AttrValueView::Str(s)) ==> s.len() == 0
                },
            },
    {
        let id: String = match attrs.get("id") {
            Some(AttrValue::Str(s)) => s.clone(),
            _ => {
                return Err(ConstructError::MissingAttribute("id"));
            },
        };
        if id.as_str().is_empty() {
            return Err(ConstructError::MissingAttribute("id"));
        }
        let n = attrs.len();
        let mut attributes: KvMap<String> = KvMap::new();
        let mut i: usize = 0;
        while i < n
            invariant
                attrs.wf(),
                i <= n,
                n == attrs@.len(),
                attributes.wf(),
                forall|k: Seq<char>| #[trigger] lookup(attributes@, k) == demote_lookup(
                    attrs@.take(i as int),
                    k,
                ),
            decreases n - i,
        {
            let ghost m_pre = attributes@;
            let key = attrs.key_at(i);
            let reserved = str_eq(key.as_str(), "id") || str_eq(key.as_str(), "type");
            if !reserved {
                let key_c = key.clone();
                let val = attrs.value_at(i).demoted_string();
                attributes.insert(key_c, val);
            }
            proof {
                assert(attrs@.take(i + 1) =~= attrs@.take(i as int).push(attrs@[i as int]));
                assert forall|k: Seq<char>| #[trigger] lookup(attributes@, k) == demote_lookup(
                    attrs@.take(i + 1),
                    k,
                ) by {
                    lemma_lookup_push(attrs@.take(i as int), attrs@[i as int], k);
                    if reserved {
                    } else {
                        if k == attrs@[i as int].0 {
                            // the key cannot already be bound in the prefix:
                            // keys strictly increase
                            if lookup(attrs@.take(i as int), k) is Some {
                                crate::kvmap::lemma_lookup_some_has_index(
                                    attrs@.take(i as int),
                                    k,
                                );
                                let j = choose|j: int|
                                    0 <= j < attrs@.take(i as int).len() && #[trigger] attrs@.take(
                                        i as int,
                                    )[j].0 == k;
                                assert(attrs@.take(i as int)[j] == attrs@[j]);
                                assert(crate::order::lex_lt(attrs@[j].0, attrs@[i as int].0));
                                crate::order::lex_lt_irreflexive(k);
                                assert(false);
                            }
                        }
                    }
                }
            }
            i = i + 1;
        }
        proof {
            assert(attrs@.take(n as int) =~= attrs@);
        }
        Ok(IndirectRef { id, _type: Tag::Indirect, attributes })
    }
}

impl PartialEq for IndirectRef {
    fn eq(&self, other: &Self) -> (r: bool) {
        str_eq(self.id.as_str(), other.id.as_str()) && self._type == other._type
            && self.attributes == other.attributes
    }
}

impl vstd::std_specs::cmp::PartialEqSpecImpl for IndirectRef {
    open spec fn obeys_eq_spec() -> bool {
        true
    }

    open spec fn eq_spec(&self, other: &Self) -> bool {
        self.id@ == other.id@ && self._type == other._type && self.attributes@ == other.attributes@
    }
}

} // verus!
