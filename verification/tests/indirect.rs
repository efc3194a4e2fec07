//! Tests for the indirect reference surface syntax, the attribute-set
//! construction, the canonical JSON codec, and the resolution protocol.

use runix_indirect::attrs::{Attrs, AttrValue};
use runix_indirect::codec::ParseIndirectError;
use runix_indirect::indirect::{ConstructError, IndirectRef, Tag};
use runix_indirect::json::JsonDecodeError;
use runix_indirect::kvmap::KvMap;
use runix_indirect::resolve::{ResolveError, ResolveHelper};

/// Ensure that an indirect flake ref renders and re-parses without
/// information loss.
#[test]
fn indirect_to_from_url() {
    let original = "flake:nixpkgs-flox".to_string();
    let expect = IndirectRef::new("nixpkgs-flox".to_string(), KvMap::new());

    assert_eq!(original.parse::<IndirectRef>().unwrap(), expect);
    assert_eq!(expect.render(), original);
}

#[test]
fn parses_indirect_ref() {
    let expected = IndirectRef::new("nixpkgs".to_string(), KvMap::new());
    let actual = IndirectRef::from_str("flake:nixpkgs").unwrap();

    assert_eq!(actual, expected);
}

#[test]
fn does_not_parse_other() {
    IndirectRef::from_str("github:nixpkgs").unwrap_err();
}

#[test]
fn tag_json() {
    let flakeref = IndirectRef::new("test".to_string(), KvMap::new());

    let text = flakeref.to_json();
    let actual: serde_json::Value = serde_json::from_str(&text).unwrap();
    let mut obj = serde_json::Map::new();
    obj.insert(
        "type".to_string(),
        serde_json::Value::String("indirect".to_string()),
    );
    obj.insert(
        "id".to_string(),
        serde_json::Value::String("test".to_string()),
    );
    let expected = serde_json::Value::Object(obj);
    assert_eq!(actual, expected);

    let decoded = IndirectRef::from_json("{\"type\":\"indirect\",\"id\":\"test\"}").unwrap();
    assert_eq!(decoded, flakeref);
}

#[test]
fn parses_and_renders_flake_ref_exactly() {
    let parsed = IndirectRef::from_str("flake:nixpkgs-flox").unwrap();
    assert_eq!(parsed.id, "nixpkgs-flox");
    assert_eq!(parsed._type, Tag::Indirect);
    assert_eq!(parsed.attributes.len(), 0);
    assert_eq!(parsed.render(), "flake:nixpkgs-flox");
}

#[test]
fn scheme_mismatch_names_both_schemes() {
    match IndirectRef::from_str("github:nixpkgs") {
        Err(ParseIndirectError::InvalidScheme(found, expected)) => {
            assert_eq!(found, "github");
            assert_eq!(expected, "flake");
        },
        other => panic!("expected a scheme mismatch, got {:?}", other),
    }
}

#[test]
fn not_a_uri_is_a_url_error() {
    match IndirectRef::from_str("nixpkgs") {
        Err(ParseIndirectError::Url(_)) => {},
        other => panic!("expected a URI syntax error, got {:?}", other),
    }
}

#[test]
fn empty_id_is_rejected() {
    match IndirectRef::from_str("flake:") {
        Err(ParseIndirectError::EmptyId) => {},
        other => panic!("expected an empty-id error, got {:?}", other),
    }
}

#[test]
fn reserved_query_key_is_rejected() {
    match IndirectRef::from_str("flake:nixpkgs?id=other") {
        Err(ParseIndirectError::ReservedAttribute(k)) => assert_eq!(k, "id"),
        other => panic!("expected a reserved-attribute error, got {:?}", other),
    }
}

#[test]
fn query_becomes_attributes_and_renders_canonically() {
    let parsed = IndirectRef::from_str("flake:nixpkgs?rev=1234&ref=release-23.05").unwrap();
    assert_eq!(parsed.attributes.get("ref"), Some(&"release-23.05".to_string()));
    assert_eq!(parsed.attributes.get("rev"), Some(&"1234".to_string()));
    // canonical order: sorted keys, whatever the input order
    assert_eq!(parsed.render(), "flake:nixpkgs?ref=release-23.05&rev=1234");
}

#[test]
fn query_escapes_round_trip() {
    let parsed = IndirectRef::from_str("flake:x?a=1+2").unwrap();
    assert_eq!(parsed.attributes.get("a"), Some(&"1 2".to_string()));
    assert_eq!(parsed.render(), "flake:x?a=1+2");
}

#[test]
fn render_sorts_attributes() {
    let mut attributes: KvMap<String> = KvMap::new();
    attributes.insert("b".to_string(), "2".to_string());
    attributes.insert("a".to_string(), "1".to_string());
    let r = IndirectRef::new("x".to_string(), attributes);
    assert_eq!(r.render(), "flake:x?a=1&b=2");
}

#[test]
fn attrs_construction_hoists_id_and_demotes_values() {
    let mut attrs: Attrs = KvMap::new();
    attrs.insert("id".to_string(), AttrValue::Str("nixpkgs".to_string()));
    attrs.insert("ref".to_string(), AttrValue::Str("main".to_string()));
    attrs.insert("shallow".to_string(), AttrValue::Other("true".to_string()));
    let r = IndirectRef::try_from_attrs(attrs).unwrap();
    assert_eq!(r.id, "nixpkgs");
    assert_eq!(r._type, Tag::Indirect);
    assert_eq!(r.attributes.get("ref"), Some(&"main".to_string()));
    assert_eq!(r.attributes.get("shallow"), Some(&"true".to_string()));
    assert_eq!(r.attributes.get("id"), None);
    assert_eq!(r.attributes.get("type"), None);
}

#[test]
fn attrs_without_id_fail_construction() {
    let mut attrs: Attrs = KvMap::new();
    attrs.insert("ref".to_string(), AttrValue::Str("main".to_string()));
    assert_eq!(
        IndirectRef::try_from_attrs(attrs).unwrap_err(),
        ConstructError::MissingAttribute("id")
    );
}

#[test]
fn attrs_with_non_string_id_fail_construction() {
    let mut attrs: Attrs = KvMap::new();
    attrs.insert("id".to_string(), AttrValue::Other("5".to_string()));
    assert_eq!(
        IndirectRef::try_from_attrs(attrs).unwrap_err(),
        ConstructError::MissingAttribute("id")
    );
}

#[test]
fn json_round_trip_preserves_attributes() {
    let mut attributes: KvMap<String> = KvMap::new();
    attributes.insert("ref".to_string(), "release 23.05".to_string());
    attributes.insert("dir".to_string(), "sub/dir".to_string());
    let r = IndirectRef::new("nixpkgs".to_string(), attributes);
    let text = r.to_json();
    assert_eq!(
        text,
        "{\"id\":\"nixpkgs\",\"type\":\"indirect\",\"dir\":\"sub/dir\",\"ref\":\"release 23.05\"}"
    );
    let back = IndirectRef::from_json(&text).unwrap();
    assert_eq!(back, r);
    assert_eq!(r.json_roundtrip(), r);
}

#[test]
fn json_escapes_are_emitted_and_read_back() {
    let mut attributes: KvMap<String> = KvMap::new();
    attributes.insert("note".to_string(), "a\"b\\c\nd".to_string());
    let r = IndirectRef::new("x".to_string(), attributes);
    let text = r.to_json();
    assert_eq!(
        text,
        "{\"id\":\"x\",\"type\":\"indirect\",\"note\":\"a\\\"b\\\\c\\nd\"}"
    );
    // the emitted text is what the reference JSON parser reads
    let v: serde_json::Value = serde_json::from_str(&text).unwrap();
    assert_eq!(v.get("note").and_then(|x| x.as_str()), Some("a\"b\\c\nd"));
    let back = IndirectRef::from_json(&text).unwrap();
    assert_eq!(back, r);
}

#[test]
fn json_decode_rejects_bad_shapes() {
    assert_eq!(
        IndirectRef::from_json("not json").unwrap_err(),
        JsonDecodeError::Syntax
    );
    assert_eq!(
        IndirectRef::from_json("[1,2]").unwrap_err(),
        JsonDecodeError::Syntax
    );
    assert_eq!(
        IndirectRef::from_json("{\"type\":\"git\",\"id\":\"x\"}").unwrap_err(),
        JsonDecodeError::WrongTag
    );
    assert_eq!(
        IndirectRef::from_json("{\"id\":\"x\"}").unwrap_err(),
        JsonDecodeError::WrongTag
    );
    assert_eq!(
        IndirectRef::from_json("{\"type\":\"indirect\"}").unwrap_err(),
        JsonDecodeError::MissingId
    );
    assert_eq!(
        IndirectRef::from_json("{\"type\":\"indirect\",\"id\":\"\"}").unwrap_err(),
        JsonDecodeError::MissingId
    );
    assert_eq!(
        IndirectRef::from_json("{\"type\":\"indirect\",\"id\":\"x\",\"n\":5}").unwrap_err(),
        JsonDecodeError::NonStringAttribute
    );
}

/// An in-memory registry standing in for the outside resolution helper.
struct StubRegistry {
    entries: Vec<(String, String)>,
}

impl ResolveHelper for StubRegistry {
    fn run(&self, request: &str) -> Result<String, String> {
        let v: serde_json::Value = serde_json::from_str(request).map_err(|e| e.to_string())?;
        let id = v
            .get("id")
            .and_then(|x| x.as_str())
            .ok_or_else(|| "request carries no id".to_string())?;
        for (name, resolved) in &self.entries {
            if name == id {
                return Ok(format!("{{\"resolved_ref\":{}}}", resolved));
            }
        }
        Err(format!("no registry entry for {}", id))
    }
}

#[test]
fn resolves_indirect_ref_through_helper() {
    let registry = StubRegistry {
        entries: vec![(
            "testref".to_string(),
            "{\"type\":\"github\",\"owner\":\"flox\",\"repo\":\"runix\"}".to_string(),
        )],
    };
    let r = IndirectRef::from_str("flake:testref").unwrap();
    let resolved = r.resolve(&registry).unwrap();
    assert_eq!(
        resolved.get("type"),
        Some(&AttrValue::Str("github".to_string()))
    );
    assert_eq!(
        resolved.get("owner"),
        Some(&AttrValue::Str("flox".to_string()))
    );
    assert_eq!(
        resolved.get("repo"),
        Some(&AttrValue::Str("runix".to_string()))
    );
    // resolving the same reference twice against the same registry agrees
    let again = r.resolve(&registry).unwrap();
    assert_eq!(again.get("owner"), resolved.get("owner"));
}

#[test]
fn unresolvable_ref_is_a_protocol_error() {
    let registry = StubRegistry { entries: vec![] };
    let r = IndirectRef::from_str("flake:testref").unwrap();
    match r.resolve(&registry) {
        Err(ResolveError::Helper(msg)) => assert!(msg.contains("testref")),
        other => panic!("expected a helper failure, got {:?}", other),
    }
}

/// A helper that answers, but not with anything usable.
struct FixedResponse(&'static str);

impl ResolveHelper for FixedResponse {
    fn run(&self, _request: &str) -> Result<String, String> {
        Ok(self.0.to_string())
    }
}

#[test]
fn bad_helper_responses_are_decode_errors() {
    let r = IndirectRef::from_str("flake:testref").unwrap();
    match r.resolve(&FixedResponse("garbage")) {
        Err(ResolveError::MalformedResponse) => {},
        other => panic!("expected a malformed response error, got {:?}", other),
    }
    match r.resolve(&FixedResponse("{\"unrelated\":1}")) {
        Err(ResolveError::Reconstruct) => {},
        other => panic!("expected a reconstruction error, got {:?}", other),
    }
    match r.resolve(&FixedResponse("{\"resolved_ref\":\"just-a-string\"}")) {
        Err(ResolveError::Reconstruct) => {},
        other => panic!("expected a reconstruction error, got {:?}", other),
    }
}

#[test]
fn repeated_query_key_keeps_last_value() {
    let parsed = IndirectRef::from_str("flake:x?a=1&a=2").unwrap();
    assert_eq!(parsed.attributes.get("a"), Some(&"2".to_string()));
    assert_eq!(parsed.attributes.len(), 1);
    assert_eq!(parsed.render(), "flake:x?a=2");
}

#[test]
fn render_parse_value_round_trip() {
    let mut attributes: KvMap<String> = KvMap::new();
    attributes.insert("ref".to_string(), "release 23.05".to_string());
    let r = IndirectRef::new("nixpkgs".to_string(), attributes);
    assert_eq!(r.render_parse_roundtrip(), Some(r));
}
