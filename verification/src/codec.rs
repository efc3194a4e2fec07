//! The surface syntax `flake:<id>[?<query>]`: parsing through the `url`
//! crate's URI parser and the `serde_urlencoded` query codec, and the inverse
//! rendering in canonical (sorted) key order.

use vstd::prelude::*;

use crate::indirect::IndirectRef;
use crate::indirect::Tag;
use crate::kvmap::{entries_sorted, lemma_lookup_absent, lemma_lookup_present, lemma_lookup_some_has_index,
    lemma_sorted_lookup_canonical, lookup, KvMap};
use crate::order::str_eq;

verus! {

/// Characters that every URI component keeps verbatim (RFC 3986 unreserved).
pub open spec fn unreserved_char(c: char) -> bool {
    ('a' <= c && c <= 'z') || ('A' <= c && c <= 'Z') || ('0' <= c && c <= '9') || c == '-' || c
        == '.' || c == '_' || c == '~'
}

/// A usable id: non-empty and made of unreserved characters only.
pub open spec fn plain_id(s: Seq<char>) -> bool {
    s.len() > 0 && forall|i: int| 0 <= i < s.len() ==> unreserved_char(#[trigger] s[i])
}

/// Characters the form-urlencoded encoder emits: unchanged bytes, the pair
/// separators, percent escapes and the `+` that stands for a space.
pub open spec fn query_safe_char(c: char) -> bool {
    ('a' <= c && c <= 'z') || ('A' <= c && c <= 'Z') || ('0' <= c && c <= '9') || c == '*' || c
        == '-' || c == '.' || c == '_' || c == '+' || c == '%' || c == '&' || c == '='
}

pub open spec fn query_safe(s: Seq<char>) -> bool {
    forall|i: int| 0 <= i < s.len() ==> query_safe_char(#[trigger] s[i])
}

/// What the URI parser returns for `s`: scheme, path and raw query, or
/// nothing where `s` is not a well-formed URI. The parser's full behaviour is
/// the `url` crate's; only named facts about it are assumed below.
pub uninterp spec fn url_parts_of(s: Seq<char>) -> Option<(Seq<char>, Seq<char>, Option<Seq<char>>)>;

/// What the form-urlencoded decoder returns for a raw query `q`: the decoded
/// key/value pairs in textual order, or nothing where decoding fails.
pub uninterp spec fn form_decoded_of(q: Seq<char>) -> Option<Seq<(Seq<char>, Seq<char>)>>;

/// What the form-urlencoded encoder returns for a pair list.
pub uninterp spec fn form_encoded_of(pairs: Seq<(Seq<char>, Seq<char>)>) -> Seq<char>;

/// The character views of a vector of string pairs.
pub open spec fn pairs_view(v: Seq<(String, String)>) -> Seq<(Seq<char>, Seq<char>)> {
    Seq::new(v.len(), |i: int| (v[i].0@, v[i].1@))
}

/// The character view of an optional string.
pub open spec fn opt_view(o: &Option<String>) -> Option<Seq<char>> {
    match o {
        Some(s) => Some(s@),
        None => None,
    }
}

/// Relies on `url::Url::parse` and on `Url::scheme`, `Url::path` and
/// `Url::query`: a well-formed URI splits into those three parts, and for a
/// non-special scheme an opaque path of unreserved characters and a query of
/// form-encoded characters are kept verbatim, the path ending at `?`. The
/// parser refuses a URL whose serialization passes the 32-bit byte limit, so
/// the success clauses hold only below that length.
#[verifier::external_body]
fn parse_url_parts(s: &str) -> (r: Result<(String, String, Option<String>), url::ParseError>)
    ensures
        (match r {
            Ok(p) => url_parts_of(s@) == Some((p.0@, p.1@, opt_view(&p.2))),
            Err(_) => url_parts_of(s@) is None,
        }),
        (r is Err) == (url_parts_of(s@) is None),
        forall|p: Seq<char>|
            s@.len() < 0x1_0000_0000 && s@ == "flake:"@ + p && #[trigger] plain_id(p) ==> (match r {
                Ok(t) => t.0@ == "flake"@ && t.1@ == p && t.2 is None,
                Err(_) => false,
            }),
        forall|p: Seq<char>, q: Seq<char>|
            s@.len() < 0x1_0000_0000 && s@ == "flake:"@ + p + "?"@ + q && #[trigger] plain_id(p)
                && #[trigger] query_safe(q) ==> (match r {
                Ok(t) => t.0@ == "flake"@ && t.1@ == p && opt_view(&t.2) == Some(q),
                Err(_) => false,
            }),
{
    match url::Url::parse(s) {
        Ok(u) => Ok(
            (u.scheme().to_string(), u.path().to_string(), u.query().map(|q| q.to_string())),
        ),
        Err(e) => Err(e),
    }
}

/// Relies on `serde_urlencoded::from_str` decoding a raw query into its
/// key/value pairs in order, with an empty input decoding to no pairs.
#[verifier::external_body]
fn form_decode_pairs(q: &str) -> (r: Result<Vec<(String, String)>, serde_urlencoded::de::Error>)
    ensures
        (match r {
            Ok(v) => form_decoded_of(q@) == Some(pairs_view(v@)),
            Err(_) => form_decoded_of(q@) is None,
        }),
        (r is Err) == (form_decoded_of(q@) is None),
        q@.len() == 0 ==> (match r {
            Ok(v) => v@.len() == 0,
            Err(_) => false,
        }),
{
    serde_urlencoded::from_str(q)
}

/// Relies on `serde_urlencoded::to_string`: encoding a list of string pairs
/// never fails, emits only form-encoded characters, is empty exactly for an
/// empty list, and decodes back to the same pairs.
#[verifier::external_body]
fn form_encode_pairs(pairs: &Vec<(String, String)>) -> (r: String)
    ensures
        r@ == form_encoded_of(pairs_view(pairs@)),
        query_safe(r@),
        (r@.len() == 0) == (pairs@.len() == 0),
        form_decoded_of(r@) == Some(pairs_view(pairs@)),
{
    serde_urlencoded::to_string(pairs).unwrap_or_default()
}

#[verifier::external_type_specification]
#[verifier::external_body]
pub struct ExUrlParseError(url::ParseError);

#[verifier::external_type_specification]
#[verifier::external_body]
pub struct ExFormDecodeError(serde_urlencoded::de::Error);

/// Failure to read an indirect reference out of text.
#[derive(Debug)]
pub enum ParseIndirectError {
    /// The text is not a well-formed URI.
    Url(url::ParseError),
    /// The scheme found, then the scheme expected.
    InvalidScheme(String, String),
    /// The query string did not decode.
    Query(serde_urlencoded::de::Error),
    /// The URI has no id after the scheme.
    EmptyId,
    /// A query key that is hoisted to a dedicated field may not appear as an
    /// attribute.
    ReservedAttribute(String),
}

/// Last-wins lookup over a decoded pair list: the binding a map built from
/// the pairs in order ends up with.
pub open spec fn pairs_lookup(ps: Seq<(Seq<char>, Seq<char>)>, k: Seq<char>) -> Option<Seq<char>>
    decreases ps.len(),
{
    if ps.len() == 0 {
        None
    } else if ps.last().0 == k {
        Some(ps.last().1)
    } else {
        pairs_lookup(ps.drop_last(), k)
    }
}

/// A key that is hoisted to a dedicated field.
pub open spec fn reserved_key(k: Seq<char>) -> bool {
    k == "id"@ || k == "type"@
}

/// Whether some pair uses a reserved key.
pub open spec fn has_reserved_key(ps: Seq<(Seq<char>, Seq<char>)>) -> bool {
    exists|i: int| 0 <= i < ps.len() && reserved_key(#[trigger] ps[i].0)
}

proof fn lemma_pairs_lookup_absent(ps: Seq<(Seq<char>, Seq<char>)>, k: Seq<char>)
    requires
        forall|i: int| 0 <= i < ps.len() ==> (#[trigger] ps[i].0) != k,
    ensures
        pairs_lookup(ps, k) is None,
    decreases ps.len(),
{
    if ps.len() > 0 {
        lemma_pairs_lookup_absent(ps.drop_last(), k);
    }
}

/// What rendering produces: the scheme, the id, and the attributes as a
/// canonical query when there are any.
pub open spec fn render_spec(v: &IndirectRef) -> Seq<char> {
    if v.attributes@.len() == 0 {
        "flake:"@ + v.id@
    } else {
        "flake:"@ + v.id@ + "?"@ + form_encoded_of(v.attributes@)
    }
}

impl IndirectRef {
    /// The URI scheme this reference family owns.
    pub fn scheme() -> (r: &'static str)
        ensures
            r@ == "flake"@,
    {
        "flake"
    }

    /// Build a reference from the URI parts the parser found: the path is the
    /// id, the raw query decodes to the attributes.
    pub fn from_url_parts(path: &str, query: Option<&str>) -> (r: Result<
        IndirectRef,
        ParseIndirectError,
    >)
        ensures
            parts_outcome(path@, if query is Some { Some(query->0@) } else { None }, &r),
            path@.len() > 0 && query is None ==> (r matches Ok(ir) && ir.attributes@ =~= Seq::<
                (Seq<char>, Seq<char>),
            >::empty()),
    {
        if path.is_empty() {
            return Err(ParseIndirectError::EmptyId);
        }
        match query {
            None => {
                let pairs: Vec<(String, String)> = Vec::new();
                proof {
                    assert(pairs_view(pairs@) =~= Seq::<(Seq<char>, Seq<char>)>::empty());
                }
                let r = Self::build_from_pairs(path, &pairs);
                proof {
                    if let Ok(ir) = &r {
                        if ir.attributes@.len() > 0 {
                            lemma_lookup_present(ir.attributes@, 0);
                        }
                        assert(ir.attributes@ =~= Seq::<(Seq<char>, Seq<char>)>::empty());
                    }
                }
                r
            },
            Some(q) => match form_decode_pairs(q) {
                Err(e) => Err(ParseIndirectError::Query(e)),
                Ok(v) => Self::build_from_pairs(path, &v),
            },
        }
    }

    /// Turn decoded query pairs into the attribute map, inserting in order so
    /// a repeated key keeps its last value, and refusing the reserved keys.
    fn build_from_pairs(path: &str, pairs: &Vec<(String, String)>) -> (r: Result<
        IndirectRef,
        ParseIndirectError,
    >)
        requires
            path@.len() > 0,
        ensures
            !has_reserved_key(pairs_view(pairs@)) ==> (r matches Ok(ir) && ir.wf() && ir.id@
                == path@ && ir._type == Tag::Indirect && forall|k: Seq<char>| #[trigger]
                lookup(ir.attributes@, k) == pairs_lookup(pairs_view(pairs@), k)),
            has_reserved_key(pairs_view(pairs@)) ==> (r matches Err(
                ParseIndirectError::ReservedAttribute(_),
            )),
    {
        let ghost ps = pairs_view(pairs@);
        let n = pairs.len();
        let mut attributes: KvMap<String> = KvMap::new();
        let mut i: usize = 0;
        while i < n
            invariant
                i <= n,
                n == pairs@.len(),
                ps == pairs_view(pairs@),
                attributes.wf(),
                forall|j: int| 0 <= j < i ==> !reserved_key(#[trigger] ps.take(i as int)[j].0),
                forall|k: Seq<char>| #[trigger] lookup(attributes@, k) == pairs_lookup(
                    ps.take(i as int),
                    k,
                ),
            decreases n - i,
        {
            let key = &pairs[i].0;
            if str_eq(key.as_str(), "id") || str_eq(key.as_str(), "type") {
                proof {
                    assert(reserved_key(ps[i as int].0));
                    assert(has_reserved_key(ps));
                }
                return Err(ParseIndirectError::ReservedAttribute(key.clone()));
            }
            let key_c = key.clone();
            let val_c = pairs[i].1.clone();
            attributes.insert(key_c, val_c);
            proof {
                assert(ps.take(i + 1).drop_last() =~= ps.take(i as int));
                assert(ps.take(i + 1).last() == ps[i as int]);
                assert forall|j: int| 0 <= j < i + 1 implies !reserved_key(
                    #[trigger] ps.take(i + 1)[j].0,
                ) by {
                    assert(ps.take(i + 1)[j] == ps[j]);
                    if j < i {
                        assert(ps.take(i as int)[j] == ps[j]);
                    }
                }
            }
            i = i + 1;
        }
        proof {
            assert(ps.take(n as int) =~= ps);
            assert forall|j: int| 0 <= j < ps.len() implies !reserved_key(#[trigger] ps[j].0) by {
                assert(ps.take(n as int)[j] == ps[j]);
            }
            assert forall|i: int| 0 <= i < ps.len() implies (#[trigger] ps[i].0) != "id"@ by {}
            lemma_pairs_lookup_absent(ps, "id"@);
            assert forall|i: int| 0 <= i < ps.len() implies (#[trigger] ps[i].0) != "type"@ by {}
            lemma_pairs_lookup_absent(ps, "type"@);
        }
        Ok(IndirectRef { id: path.to_owned(), _type: Tag::Indirect, attributes })
    }

    /// Parse `flake:<id>[?<query>]`. Success and each failure are pinned by
    /// `parse_outcome`: a scheme other than `flake` fails naming the found
    /// and the expected scheme, and a text that is no URI fails with the URI
    /// error.
    pub fn from_str(s: &str) -> (r: Result<IndirectRef, ParseIndirectError>)
        ensures
            parse_outcome(s@, &r),
            forall|p: Seq<char>|
                s@.len() < 0x1_0000_0000 && s@ == "flake:"@ + p && #[trigger] plain_id(p) ==> (
                r matches Ok(ir) && ir.wf() && ir.id@ == p && ir.attributes@ =~= Seq::<
                    (Seq<char>, Seq<char>),
                >::empty()),
            forall|p: Seq<char>, q: Seq<char>|
                s@.len() < 0x1_0000_0000 && s@ == "flake:"@ + p + "?"@ + q && #[trigger] plain_id(
                    p,
                ) && #[trigger] query_safe(q) ==> parts_outcome(p, Some(q), &r),
    {
        let parts = match parse_url_parts(s) {
            Ok(p) => p,
            Err(e) => {
                return Err(ParseIndirectError::Url(e));
            },
        };
        if !str_eq(parts.0.as_str(), "flake") {
            return Err(ParseIndirectError::InvalidScheme(parts.0, "flake".to_owned()));
        }
        let r = match parts.2 {
            None => Self::from_url_parts(parts.1.as_str(), None),
            Some(q) => Self::from_url_parts(parts.1.as_str(), Some(q.as_str())),
        };
        r
    }
}

/// Sorted entries never bind a reserved key when `id` and `type` look up to
/// nothing.
proof fn lemma_wf_has_no_reserved_key(m: Seq<(Seq<char>, Seq<char>)>)
    requires
        entries_sorted(m),
        lookup(m, "id"@) is None,
        lookup(m, "type"@) is None,
    ensures
        !has_reserved_key(m),
{
    if has_reserved_key(m) {
        let i = choose|i: int| 0 <= i < m.len() && reserved_key(#[trigger] m[i].0);
        lemma_lookup_present(m, i);
    }
}

/// On entries with strictly increasing keys, last-wins lookup and first-match
/// lookup agree.
proof fn lemma_pairs_lookup_sorted(m: Seq<(Seq<char>, Seq<char>)>, k: Seq<char>)
    requires
        entries_sorted(m),
    ensures
        pairs_lookup(m, k) == lookup(m, k),
    decreases m.len(),
{
    if m.len() == 0 {
    } else if m.last().0 == k {
        lemma_lookup_present(m, m.len() - 1);
    } else {
        assert forall|i: int, j: int| 0 <= i < j < m.drop_last().len() implies crate::order::lex_lt(
            m.drop_last()[i].0,
            m.drop_last()[j].0,
        ) by {
            assert(m.drop_last()[i] == m[i]);
            assert(m.drop_last()[j] == m[j]);
        }
        lemma_pairs_lookup_sorted(m.drop_last(), k);
        if lookup(m.drop_last(), k) is Some {
            lemma_lookup_some_has_index(m.drop_last(), k);
            let i = choose|i: int|
                0 <= i < m.drop_last().len() && #[trigger] m.drop_last()[i].0 == k;
            lemma_lookup_present(m.drop_last(), i);
            assert(m.drop_last()[i] == m[i]);
            lemma_lookup_present(m, i);
        } else {
            assert forall|i: int| 0 <= i < m.len() implies (#[trigger] m[i]).0 != k by {
                if i < m.len() - 1 {
                    if m[i].0 == k {
                        assert(m.drop_last()[i] == m[i]);
                        lemma_lookup_present(m.drop_last(), i);
                    }
                }
            }
            lemma_lookup_absent(m, k);
        }
    }
}

impl IndirectRef {
    /// Render `flake:<id>`, with the attributes as a canonical query string
    /// when there are any.
    pub fn render(&self) -> (r: String)
        ensures
            r@ == render_spec(self),
            self.attributes@.len() > 0 ==> (query_safe(
                form_encoded_of(self.attributes@),
            ) && form_decoded_of(form_encoded_of(self.attributes@)) == Some(self.attributes@)),
    {
        let mut out: String = "flake:".to_owned();
        out.append(self.id.as_str());
        if !self.attributes.is_empty() {
            out.append("?");
            let n = self.attributes.len();
            let mut pairs: Vec<(String, String)> = Vec::new();
            let mut i: usize = 0;
            while i < n
                invariant
                    i <= n,
                    n == self.attributes@.len(),
                    pairs@.len() == i,
                    forall|j: int|
                        0 <= j < i ==> ((#[trigger] pairs@[j].0)@ == self.attributes@[j].0
                            && pairs@[j].1@ == self.attributes@[j].1),
                decreases n - i,
            {
                let k = self.attributes.key_at(i).clone();
                let v = self.attributes.value_at(i).clone();
                pairs.push((k, v));
                i = i + 1;
            }
            proof {
                assert(pairs_view(pairs@) =~= self.attributes@);
            }
            let enc = form_encode_pairs(&pairs);
            out.append(enc.as_str());
        }
        out
    }

    /// Round trip, text first: parsing a plain `flake:<id>` text and rendering
    /// the result reproduces the text exactly. The length bound is the URI
    /// parser's own limit on what it accepts.
    pub fn parse_render_roundtrip(s: &str) -> (r: String)
        requires
            s@.len() > 6,
            s@.len() < 0x1_0000_0000,
            s@.take(6) == "flake:"@,
            plain_id(s@.skip(6)),
        ensures
            r@ == s@,
    {
        proof {
            assert(s@ == "flake:"@ + s@.skip(6));
        }
        match Self::from_str(s) {
            Ok(ir) => {
                let out = ir.render();
                proof {
                    assert(out@ =~= s@);
                }
                out
            },
            Err(_) => vstd::pervasive::unreached(),
        }
    }

    /// Round trip, value first: a well-formed reference with a plain id,
    /// rendered and parsed back, comes back equal. The one reference this
    /// cannot hold of is one whose rendering passes the URI parser's length
    /// limit; exactly there nothing is returned.
    pub fn render_parse_roundtrip(&self) -> (r: Option<IndirectRef>)
        requires
            self.wf(),
            plain_id(self.id@),
        ensures
            (r is None) == (render_spec(self).len() >= 0x1_0000_0000),
            r matches Some(p) ==> (p.wf() && p.eqv(self)),
    {
        let text = self.render();
        if text.as_str().unicode_len() as u64 >= 0x1_0000_0000u64 {
            return None;
        }
        let parsed = Self::from_str(text.as_str());
        proof {
            lemma_wf_has_no_reserved_key(self.attributes@);
            if self.attributes@.len() == 0 {
                assert(text@ == "flake:"@ + self.id@);
                let ir = parsed->Ok_0;
                assert(ir.attributes@ =~= Seq::<(Seq<char>, Seq<char>)>::empty());
                assert(self.attributes@ =~= Seq::<(Seq<char>, Seq<char>)>::empty());
            } else {
                let enc = form_encoded_of(self.attributes@);
                assert(text@ == "flake:"@ + self.id@ + "?"@ + enc);
                assert(parts_outcome(self.id@, Some(enc), &parsed));
                let ir = parsed->Ok_0;
                assert forall|k: Seq<char>| #[trigger] lookup(ir.attributes@, k) == lookup(
                    self.attributes@,
                    k,
                ) by {
                    lemma_pairs_lookup_sorted(self.attributes@, k);
                }
                lemma_sorted_lookup_canonical(ir.attributes@, self.attributes@);
            }
        }
        match parsed {
            Ok(ir) => Some(ir),
            Err(_) => vstd::pervasive::unreached(),
        }
    }
}

impl core::str::FromStr for IndirectRef {
    type Err = ParseIndirectError;

    fn from_str(s: &str) -> Result<IndirectRef, ParseIndirectError> {
        IndirectRef::from_str(s)
    }
}

/// The exact outcome of building a reference from URI parts.
pub open spec fn parts_outcome(
    path: Seq<char>,
    query: Option<Seq<char>>,
    r: &Result<IndirectRef, ParseIndirectError>,
) -> bool {
    if path.len() == 0 {
        r matches Err(ParseIndirectError::EmptyId)
    } else {
        let decoded = match query {
            None => Some(Seq::<(Seq<char>, Seq<char>)>::empty()),
            Some(q) => form_decoded_of(q),
        };
        match decoded {
            None => r matches Err(ParseIndirectError::Query(_)),
            Some(ps) => if has_reserved_key(ps) {
                r matches Err(ParseIndirectError::ReservedAttribute(_))
            } else {
                r matches Ok(ir) && ir.wf() && ir.id@ == path && ir._type == Tag::Indirect
                    && forall|k: Seq<char>| #[trigger]
                    lookup(ir.attributes@, k) == pairs_lookup(ps, k)
            },
        }
    }
}

/// The exact outcome of parsing text.
pub open spec fn parse_outcome(s: Seq<char>, r: &Result<IndirectRef, ParseIndirectError>) -> bool {
    match url_parts_of(s) {
        None => r matches Err(ParseIndirectError::Url(_)),
        Some((scheme, path, query)) => if scheme != "flake"@ {
            r matches Err(ParseIndirectError::InvalidScheme(found, expected)) && found@ == scheme
                && expected@ == "flake"@
        } else {
            parts_outcome(path, query, r)
        },
    }
}

} // verus!
