//! Indirect flake references: symbolic `flake:<id>` names that a registry
//! resolves to concrete references.
//!
//! The crate models the attribute-set form of a reference, the textual
//! `flake:<id>?<attrs>` surface syntax, the canonical JSON shape, and the
//! protocol that hands a reference to an outside resolution helper and
//! validates what comes back.

pub mod attrs;
pub mod codec;
pub mod indirect;
pub mod json;
pub mod kvmap;
pub mod order;
pub mod resolve;
