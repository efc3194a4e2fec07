//! The resolution protocol: serialize an indirect reference to its canonical
//! JSON, hand the text to an outside resolution helper, and validate and
//! decode what comes back into a generic reference description. The helper is
//! an untrusted collaborator: nothing is assumed of its answers, and every
//! response is re-validated here.

use vstd::prelude::*;

use crate::attrs::{attrs_from_entries, avpairs_view, AttrValue, AttrValueView, Attrs};
use crate::indirect::IndirectRef;
use crate::json::{json_object_of, parse_json_object};
use crate::kvmap::{lemma_sorted_lookup_canonical, lookup};

verus! {

/// The transport that carries one serialized request to the resolution
/// helper — a subprocess around the helper program, or a stub — and hands
/// back the helper's textual response, or an account of why it could not run.
/// The helper is outside this crate's control, so the method promises
/// nothing; `resolve` validates whatever comes back.
pub trait ResolveHelper {
    fn run(&self, request: &str) -> Result<String, String>;
}

/// Failure to resolve an indirect reference.
#[derive(Debug)]
pub enum ResolveError {
    /// The helper could not be invoked or did not finish: the transport's
    /// own account of the failure.
    Helper(String),
    /// The helper's response is not a JSON object.
    MalformedResponse,
    /// The response carries no `resolved_ref` member that describes a
    /// reference.
    Reconstruct,
}

/// The exact outcome of decoding a helper response: the `resolved_ref`
/// member must be a JSON object, and its members become the attribute set
/// from which the reference family reconstructs the resolved reference.
pub open spec fn resolution_outcome(text: Seq<char>, r: &Result<Attrs, ResolveError>) -> bool {
    match json_object_of(text) {
        None => r matches Err(ResolveError::MalformedResponse),
        Some(e) => match lookup(e, "resolved_ref"@) {
            Some(AttrValueView::Other(t)) => match json_object_of(t) {
                Some(e2) => r matches Ok(a) && a.wf() && forall|k: Seq<char>| #[trigger]
                    lookup(a@, k) == lookup(e2, k),
                None => r matches Err(ResolveError::Reconstruct),
            },
            _ => r matches Err(ResolveError::Reconstruct),
        },
    }
}

impl IndirectRef {
    /// Validate and decode one helper response, whatever the helper sent.
    pub fn decode_resolution_response(text: &str) -> (r: Result<Attrs, ResolveError>)
        ensures
            resolution_outcome(text@, &r),
    {
        let entries = match parse_json_object(text) {
            None => {
                return Err(ResolveError::MalformedResponse);
            },
            Some(v) => v,
        };
        let top = attrs_from_entries(&entries);
        proof {
            lemma_sorted_lookup_canonical(top@, avpairs_view(entries@));
        }
        match top.get("resolved_ref") {
            Some(AttrValue::Other(t)) => match parse_json_object(t.as_str()) {
                None => Err(ResolveError::Reconstruct),
                Some(inner) => {
                    let resolved = attrs_from_entries(&inner);
                    proof {
                        lemma_sorted_lookup_canonical(resolved@, avpairs_view(inner@));
                    }
                    Ok(resolved)
                },
            },
            _ => Err(ResolveError::Reconstruct),
        }
    }

    /// Resolve this reference against a registry: serialize to the canonical
    /// JSON request, let the helper consult its registry configuration, and
    /// decode the response. Resolution never touches `self`; a well-formed
    /// result is owed whenever the helper's response carries a usable
    /// `resolved_ref`, per `resolution_outcome`.
    pub fn resolve<H: ResolveHelper>(&self, helper: &H) -> (r: Result<Attrs, ResolveError>)
        ensures
            r matches Ok(a) ==> a.wf(),
    {
        let request = self.to_json();
        match helper.run(request.as_str()) {
            Err(e) => Err(ResolveError::Helper(e)),
            Ok(response) => Self::decode_resolution_response(response.as_str()),
        }
    }
}

} // verus!
