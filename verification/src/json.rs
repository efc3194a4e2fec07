//! The canonical JSON shape of an indirect reference:
//!
//! ```text
//! {"id":"<id>","type":"indirect",<attr-key>:"<attr-value>",...}
//! ```
//!
//! `id` first, the fixed tag second, then the attributes in their canonical
//! (sorted) order. The emitter is verified down to the character escapes; the
//! decoder reads through the `serde_json` parser.

use vstd::prelude::*;

use crate::attrs::{attrs_from_entries, avpairs_view, AttrValue, AttrValueView};
use crate::codec::reserved_key;
use crate::indirect::{IndirectRef, Tag};
use crate::kvmap::{entries_sorted, lemma_lookup_present, lemma_lookup_push,
    lemma_lookup_some_has_index, lemma_sorted_lookup_canonical, lookup, KvMap};
use crate::order::{lex_lt, lex_lt_irreflexive, str_eq};

verus! {

/// The lowercase hexadecimal digit for `d`.
pub open spec fn hex_digit(d: u32) -> char {
    if d < 10 {
        ((48 + d) as u8) as char
    } else {
        ((87 + d) as u8) as char
    }
}

/// How one character is written inside a JSON string: quote and backslash
/// escaped, control characters by their short escape or `\u00XX`, everything
/// else verbatim.
pub open spec fn esc_char(c: char) -> Seq<char> {
    if c == '"' {
        seq!['\\', '"']
    } else if c == '\\' {
        seq!['\\', '\\']
    } else if (c as u32) == 8 {
        seq!['\\', 'b']
    } else if (c as u32) == 9 {
        seq!['\\', 't']
    } else if (c as u32) == 10 {
        seq!['\\', 'n']
    } else if (c as u32) == 12 {
        seq!['\\', 'f']
    } else if (c as u32) == 13 {
        seq!['\\', 'r']
    } else if (c as u32) < 32 {
        seq!['\\', 'u', '0', '0', hex_digit((c as u32) / 16), hex_digit((c as u32) % 16)]
    } else {
        seq![c]
    }
}

/// A string body, character by character.
pub open spec fn esc_str(s: Seq<char>) -> Seq<char>
    decreases s.len(),
{
    if s.len() == 0 {
        Seq::empty()
    } else {
        esc_str(s.drop_last()) + esc_char(s.last())
    }
}

/// A JSON string: the escaped body between quotes.
pub open spec fn quoted(s: Seq<char>) -> Seq<char> {
    seq!['"'] + esc_str(s) + seq!['"']
}

/// The attribute entries as `,"key":"value"` segments, in entry order.
pub open spec fn entries_json(m: Seq<(Seq<char>, Seq<char>)>) -> Seq<char>
    decreases m.len(),
{
    if m.len() == 0 {
        Seq::empty()
    } else {
        entries_json(m.drop_last()) + seq![','] + quoted(m.last().0) + seq![':'] + quoted(
            m.last().1,
        )
    }
}

/// The canonical JSON text for id and attribute entries.
pub open spec fn json_text_of(id: Seq<char>, m: Seq<(Seq<char>, Seq<char>)>) -> Seq<char> {
    seq!['{'] + quoted("id"@) + seq![':'] + quoted(id) + seq![','] + quoted("type"@) + seq![':']
        + quoted("indirect"@) + entries_json(m) + seq!['}']
}

/// Relies on `String::push`: appends exactly the one character.
#[verifier::external_body]
fn push_char(out: &mut String, c: char)
    ensures
        final(out)@ == old(out)@ + seq![c],
{
    out.push(c);
}

/// Append the escaped, quoted form of `s`.
fn push_quoted(out: &mut String, s: &str)
    ensures
        final(out)@ == old(out)@ + quoted(s@),
{
    push_char(out, '"');
    let n = s.unicode_len();
    let mut i: usize = 0;
    proof {
        assert(s@.take(0) =~= Seq::<char>::empty());
        assert(out@ =~= old(out)@ + seq!['"'] + esc_str(s@.take(0)));
    }
    while i < n
        invariant
            i <= n,
            n == s@.len(),
            out@ == old(out)@ + seq!['"'] + esc_str(s@.take(i as int)),
        decreases n - i,
    {
        let c = s.get_char(i);
        let v = c as u32;
        if c == '"' {
            push_char(out, '\\');
            push_char(out, '"');
        } else if c == '\\' {
            push_char(out, '\\');
            push_char(out, '\\');
        } else if v == 8 {
            push_char(out, '\\');
            push_char(out, 'b');
        } else if v == 9 {
            push_char(out, '\\');
            push_char(out, 't');
        } else if v == 10 {
            push_char(out, '\\');
            push_char(out, 'n');
        } else if v == 12 {
            push_char(out, '\\');
            push_char(out, 'f');
        } else if v == 13 {
            push_char(out, '\\');
            push_char(out, 'r');
        } else if v < 32 {
            push_char(out, '\\');
            push_char(out, 'u');
            push_char(out, '0');
            push_char(out, '0');
            let hi = v / 16;
            let lo = v % 16;
            push_char(out, if hi < 10 {
                ((48 + hi) as u8) as char
            } else {
                ((87 + hi) as u8) as char
            });
            push_char(out, if lo < 10 {
                ((48 + lo) as u8) as char
            } else {
                ((87 + lo) as u8) as char
            });
        } else {
            push_char(out, c);
        }
        proof {
            assert(s@.take(i + 1).drop_last() =~= s@.take(i as int));
            assert(s@.take(i + 1).last() == s@[i as int]);
            assert(out@ =~= old(out)@ + seq!['"'] + esc_str(s@.take(i + 1)));
        }
        i = i + 1;
    }
    push_char(out, '"');
    proof {
        assert(s@.take(n as int) =~= s@);
        assert(out@ =~= old(out)@ + quoted(s@));
    }
}

/// What the JSON parser returns for `s`: the members of the object, keys in
/// sorted order, or nothing where `s` is not a JSON object.
pub uninterp spec fn json_object_of(s: Seq<char>) -> Option<Seq<(Seq<char>, AttrValueView)>>;

/// Id and entries that serialize without key collisions: sorted attribute
/// entries that do not shadow the hoisted members.
pub open spec fn json_shape(id: Seq<char>, m: Seq<(Seq<char>, Seq<char>)>) -> bool {
    &&& entries_sorted(m)
    &&& lookup(m, "id"@) is None
    &&& lookup(m, "type"@) is None
}

/// The member a parsed canonical text `json_text_of(id, m)` holds under `k`:
/// the hoisted members, then the entries of `m` as strings.
pub open spec fn merged_member(
    id: Seq<char>,
    m: Seq<(Seq<char>, Seq<char>)>,
    k: Seq<char>,
) -> Option<AttrValueView> {
    if k == "id"@ {
        Some(AttrValueView::Str(id))
    } else if k == "type"@ {
        Some(AttrValueView::Str("indirect"@))
    } else {
        match lookup(m, k) {
            Some(t) => Some(AttrValueView::Str(t)),
            None => None,
        }
    }
}

/// Relies on `serde_json::from_str` and `serde_json::Value`: a document the
/// parser accepts as one object yields its members, keys in sorted order and
/// a repeated key keeping its last value; a string member is kept verbatim,
/// any other member as its canonical compact text. A flat canonical text
/// `json_text_of(id, m)` is always accepted and parses back to exactly the
/// hoisted members and the entries of `m`.
#[verifier::external_body]
pub(crate) fn parse_json_object(s: &str) -> (r: Option<Vec<(String, AttrValue)>>)
    ensures
        (match r {
            Some(v) => json_object_of(s@) == Some(avpairs_view(v@)) && entries_sorted(
                avpairs_view(v@),
            ),
            None => json_object_of(s@) is None,
        }),
        forall|id: Seq<char>, m: Seq<(Seq<char>, Seq<char>)>|
            s@ == json_text_of(id, m) && #[trigger] json_shape(id, m) ==> (match r {
                Some(v) => forall|k: Seq<char>| #[trigger] lookup(avpairs_view(v@), k)
                    == merged_member(id, m, k),
                None => false,
            }),
{
    match serde_json::from_str::<serde_json::Value>(s) {
        Ok(serde_json::Value::Object(map)) => Some(
            map.into_iter().map(|(k, v)| match v {
                serde_json::Value::String(t) => (k, AttrValue::Str(t)),
                other => (k, AttrValue::Other(other.to_string())),
            }).collect(),
        ),
        _ => None,
    }
}

/// Failure to read a reference out of JSON text.
#[derive(Clone, Copy, Debug, PartialEq, Eq)]
pub enum JsonDecodeError {
    /// The text is not a JSON object.
    Syntax,
    /// The `id` member is absent, not a string, or empty.
    MissingId,
    /// The `type` member is absent or is not the string `indirect`.
    WrongTag,
    /// An attribute member is not a string.
    NonStringAttribute,
}

/// Whether some non-reserved member carries a non-string value.
pub open spec fn has_non_string_attr(e: Seq<(Seq<char>, AttrValueView)>) -> bool {
    exists|i: int| 0 <= i < e.len() && !reserved_key((#[trigger] e[i]).0) && e[i].1 is Other
}

/// The string value a non-reserved member contributes to the attributes.
pub open spec fn str_member_lookup(
    e: Seq<(Seq<char>, AttrValueView)>,
    k: Seq<char>,
) -> Option<Seq<char>> {
    if reserved_key(k) {
        None
    } else {
        match lookup(e, k) {
            Some(AttrValueView::Str(t)) => Some(t),
            _ => None,
        }
    }
}

/// The exact outcome of decoding JSON text into a reference.
pub open spec fn from_json_outcome(
    s: Seq<char>,
    r: &Result<IndirectRef, JsonDecodeError>,
) -> bool {
    match json_object_of(s) {
        None => r matches Err(JsonDecodeError::Syntax),
        Some(e) => if lookup(e, "type"@) != Some(AttrValueView::Str("indirect"@)) {
            r matches Err(JsonDecodeError::WrongTag)
        } else {
            match lookup(e, "id"@) {
                Some(AttrValueView::Str(id)) => if id.len() == 0 {
                    r matches Err(JsonDecodeError::MissingId)
                } else if has_non_string_attr(e) {
                    r matches Err(JsonDecodeError::NonStringAttribute)
                } else {
                    r matches Ok(ir) && ir.wf() && ir.id@ == id && ir._type == Tag::Indirect
                        && forall|k: Seq<char>| #[trigger]
                        lookup(ir.attributes@, k) == str_member_lookup(e, k)
                },
                _ => r matches Err(JsonDecodeError::MissingId),
            }
        },
    }
}

impl IndirectRef {
    /// The canonical JSON text of this reference, exactly `json_text_of`.
    pub fn to_json(&self) -> (r: String)
        ensures
            r@ == json_text_of(self.id@, self.attributes@),
    {
        let mut out = String::new();
        push_char(&mut out, '{');
        push_quoted(&mut out, "id");
        push_char(&mut out, ':');
        push_quoted(&mut out, self.id.as_str());
        push_char(&mut out, ',');
        push_quoted(&mut out, "type");
        push_char(&mut out, ':');
        push_quoted(&mut out, "indirect");
        let ghost header = out@;
        proof {
            assert(header =~= seq!['{'] + quoted("id"@) + seq![':'] + quoted(self.id@) + seq![',']
                + quoted("type"@) + seq![':'] + quoted("indirect"@));
            assert(out@ =~= header + entries_json(self.attributes@.take(0)));
        }
        let n = self.attributes.len();
        let mut i: usize = 0;
        while i < n
            invariant
                i <= n,
                n == self.attributes@.len(),
                out@ == header + entries_json(self.attributes@.take(i as int)),
                header == seq!['{'] + quoted("id"@) + seq![':'] + quoted(self.id@) + seq![',']
                    + quoted("type"@) + seq![':'] + quoted("indirect"@),
            decreases n - i,
        {
            push_char(&mut out, ',');
            push_quoted(&mut out, self.attributes.key_at(i).as_str());
            push_char(&mut out, ':');
            push_quoted(&mut out, self.attributes.value_at(i).as_str());
            proof {
                assert(self.attributes@.take(i + 1).drop_last() =~= self.attributes@.take(i as int));
                assert(self.attributes@.take(i + 1).last() == self.attributes@[i as int]);
                assert(out@ =~= header + entries_json(self.attributes@.take(i + 1)));
            }
            i = i + 1;
        }
        push_char(&mut out, '}');
        proof {
            assert(self.attributes@.take(n as int) =~= self.attributes@);
            assert(out@ =~= json_text_of(self.id@, self.attributes@));
        }
        out
    }

    /// Decode the canonical JSON text of a reference: the object must carry
    /// the `indirect` tag, a non-empty string id, and string attributes only.
    pub fn from_json(s: &str) -> (r: Result<IndirectRef, JsonDecodeError>)
        ensures
            from_json_outcome(s@, &r),
            forall|id: Seq<char>, m: Seq<(Seq<char>, Seq<char>)>|
                s@ == json_text_of(id, m) && #[trigger] json_shape(id, m) && id.len() > 0 ==> (
                match r {
                    Ok(ir) => ir.wf() && ir.id@ == id && (forall|k: Seq<char>| #[trigger]
                    lookup(ir.attributes@, k) == lookup(m, k)),
                    Err(_) => false,
                }),
    {
        let entries = match parse_json_object(s) {
            None => {
                return Err(JsonDecodeError::Syntax);
            },
            Some(v) => v,
        };
        let attrs = attrs_from_entries(&entries);
        let ghost e = avpairs_view(entries@);
        proof {
            reveal_strlit("id");
            reveal_strlit("type");
            reveal_strlit("indirect");
            lemma_sorted_lookup_canonical(attrs@, e);
        }
        match attrs.get("type") {
            Some(AttrValue::Str(t)) => {
                if !str_eq(t.as_str(), "indirect") {
                    proof {
                        assert forall|id2: Seq<char>, m: Seq<(Seq<char>, Seq<char>)>|
                            s@ == json_text_of(id2, m) && #[trigger] json_shape(id2, m) implies
                            false by {
                            assert(t@ != "indirect"@);
                            assert(attrs@ == e);
                            assert(e == avpairs_view(entries@));
                            assert(lookup(attrs@, "type"@) == Some(AttrValueView::Str(t@)));
                            assert(lookup(avpairs_view(entries@), "type"@) == merged_member(
                                id2,
                                m,
                                "type"@,
                            ));
                            assert(merged_member(id2, m, "type"@) == Some(
                                AttrValueView::Str("indirect"@),
                            ));
                        }
                    }
                    return Err(JsonDecodeError::WrongTag);
                }
            },
            _ => {
                proof {
                    assert forall|id2: Seq<char>, m: Seq<(Seq<char>, Seq<char>)>|
                        s@ == json_text_of(id2, m) && #[trigger] json_shape(id2, m) implies
                        false by {
                        assert(lookup(avpairs_view(entries@), "type"@) == merged_member(
                            id2,
                            m,
                            "type"@,
                        ));
                    }
                }
                return Err(JsonDecodeError::WrongTag);
            },
        }
        let id: String = match attrs.get("id") {
            Some(AttrValue::Str(sid)) => sid.clone(),
            _ => {
                proof {
                    assert forall|id2: Seq<char>, m: Seq<(Seq<char>, Seq<char>)>|
                        s@ == json_text_of(id2, m) && #[trigger] json_shape(id2, m) implies
                        false by {
                        assert(lookup(avpairs_view(entries@), "id"@) == merged_member(
                            id2,
                            m,
                            "id"@,
                        ));
                    }
                }
                return Err(JsonDecodeError::MissingId);
            },
        };
        if id.as_str().is_empty() {
            proof {
                assert forall|id2: Seq<char>, m: Seq<(Seq<char>, Seq<char>)>|
                    s@ == json_text_of(id2, m) && #[trigger] json_shape(id2, m) && id2.len() > 0
                        implies false by {
                    assert(lookup(avpairs_view(entries@), "id"@) == merged_member(
                        id2,
                        m,
                        "id"@,
                    ));
                }
            }
            return Err(JsonDecodeError::MissingId);
        }
        let n = attrs.len();
        let mut attributes: KvMap<String> = KvMap::new();
        let mut i: usize = 0;
        while i < n
            invariant
                attrs.wf(),
                attrs@ == e,
                json_object_of(s@) == Some(e),
                entries_sorted(e),
                forall|id2: Seq<char>, m: Seq<(Seq<char>, Seq<char>)>|
                    s@ == json_text_of(id2, m) && #[trigger] json_shape(id2, m) ==> (forall|
                        k: Seq<char>,
                    | #[trigger] lookup(e, k) == merged_member(id2, m, k)),
                lookup(e, "type"@) == Some(AttrValueView::Str("indirect"@)),
                lookup(e, "id"@) == Some(AttrValueView::Str(id@)),
                id@.len() > 0,
                i <= n,
                n == attrs@.len(),
                attributes.wf(),
                forall|j: int| 0 <= j < i ==> (reserved_key((#[trigger] e[j]).0) || e[j].1 is Str),
                forall|k: Seq<char>| #[trigger] lookup(attributes@, k) == str_member_lookup(
                    e.take(i as int),
                    k,
                ),
            decreases n - i,
        {
            let key = attrs.key_at(i);
            let reserved = str_eq(key.as_str(), "id") || str_eq(key.as_str(), "type");
            if !reserved {
                match attrs.value_at(i) {
                    AttrValue::Str(v) => {
                        let key_c = key.clone();
                        let val_c = v.clone();
                        attributes.insert(key_c, val_c);
                    },
                    AttrValue::Other(_) => {
                        proof {
                            assert(!reserved_key(e[i as int].0) && e[i as int].1 is Other);
                            assert(has_non_string_attr(e));
                            assert forall|id2: Seq<char>, m: Seq<(Seq<char>, Seq<char>)>|
                                s@ == json_text_of(id2, m) && #[trigger] json_shape(id2, m)
                                    && id2.len() > 0 implies false by {
                                lemma_lookup_present(e, i as int);
                                assert(lookup(e, e[i as int].0) == merged_member(
                                    id2,
                                    m,
                                    e[i as int].0,
                                ));
                            }
                        }
                        return Err(JsonDecodeError::NonStringAttribute);
                    },
                }
            }
            proof {
                assert(e.take(i + 1) =~= e.take(i as int).push(e[i as int]));
                assert forall|k: Seq<char>| #[trigger] lookup(attributes@, k)
                    == str_member_lookup(e.take(i + 1), k) by {
                    lemma_lookup_push(e.take(i as int), e[i as int], k);
                    if !reserved_key(e[i as int].0) && k == e[i as int].0 {
                        if lookup(e.take(i as int), k) is Some {
                            lemma_lookup_some_has_index(e.take(i as int), k);
                            let j = choose|j: int|
                                0 <= j < e.take(i as int).len() && #[trigger] e.take(
                                    i as int,
                                )[j].0 == k;
                            assert(e.take(i as int)[j] == e[j]);
                            assert(lex_lt(e[j].0, e[i as int].0));
                            lex_lt_irreflexive(k);
                            assert(false);
                        }
                    }
                }
            }
            i = i + 1;
        }
        proof {
            assert(e.take(n as int) =~= e);
            if has_non_string_attr(e) {
                let j = choose|j: int|
                    0 <= j < e.len() && !reserved_key((#[trigger] e[j]).0) && e[j].1 is Other;
                assert(false);
            }
            assert forall|id2: Seq<char>, m: Seq<(Seq<char>, Seq<char>)>|
                s@ == json_text_of(id2, m) && #[trigger] json_shape(id2, m) && id2.len() > 0
                    implies (id@ == id2 && forall|k: Seq<char>| #[trigger]
                lookup(attributes@, k) == lookup(m, k)) by {
                assert(lookup(e, "id"@) == merged_member(id2, m, "id"@));
                assert forall|k: Seq<char>| #[trigger] lookup(attributes@, k) == lookup(
                    m,
                    k,
                ) by {
                    assert(lookup(e, k) == merged_member(id2, m, k));
                    assert(lookup(attributes@, k) == str_member_lookup(e, k));
                }
            }
        }
        Ok(IndirectRef { id, _type: Tag::Indirect, attributes })
    }

    /// Serializing a well-formed reference to its canonical JSON text and
    /// decoding that text yields an equal reference: the serialize then
    /// deserialize round trip is the identity.
    pub fn json_roundtrip(&self) -> (r: IndirectRef)
        requires
            self.wf(),
        ensures
            r.wf(),
            r.eqv(self),
    {
        let text = self.to_json();
        proof {
            assert(json_shape(self.id@, self.attributes@));
        }
        let decoded = Self::from_json(text.as_str());
        proof {
            if let Ok(ir) = &decoded {
                assert forall|k: Seq<char>| #[trigger] lookup(ir.attributes@, k) == lookup(
                    self.attributes@,
                    k,
                ) by {}
                lemma_sorted_lookup_canonical(ir.attributes@, self.attributes@);
            }
        }
        match decoded {
            Ok(ir) => ir,
            Err(_) => vstd::pervasive::unreached(),
        }
    }
}

} // verus!
