//! Parsed package-URL identifiers.
//!
//! A raw package-URL string is parsed by the `packageurl` crate; the result
//! is carried here as plain string fields. What the parser returns is a pure
//! function of the input text, so its outcome is given names (`purl_parse`,
//! `purl_canon`) that the aggregation contracts are stated over.

use vstd::prelude::*;
use std::str::FromStr;

use crate::order::opt_view;

verus! {

/// The fields a successful parse yields, as plain values. The qualifiers
/// form a mapping from qualifier name to qualifier value.
#[verifier::ext_equal]
pub struct PurlFields {
    pub ty: Seq<char>,
    pub namespace: Option<Seq<char>>,
    pub name: Seq<char>,
    pub version: Option<Seq<char>>,
    pub subpath: Option<Seq<char>>,
    pub qualifiers: Map<Seq<char>, Seq<char>>,
}

/// What `packageurl::PackageUrl::from_str` yields on a given input:
/// `None` where parsing fails, otherwise the parsed fields.
pub uninterp spec fn purl_parse(s: Seq<char>) -> Option<PurlFields>;

/// The canonical text of a successfully parsed package URL, as
/// `packageurl`'s display form renders it.
pub uninterp spec fn purl_canon(s: Seq<char>) -> Seq<char>;

/// A parsed package-URL identifier held as plain values: the structured
/// fields, the qualifier pairs, and the canonical purl text.
pub struct PackageIdentifier {
    pub ty: String,
    pub namespace: Option<String>,
    pub name: String,
    pub version: Option<String>,
    pub subpath: Option<String>,
    pub qualifiers: Vec<(String, String)>,
    pub purl: String,
}

/// The pair sequence `qs` lists exactly the entries of the qualifier map
/// `m`, each name once, in some order.
pub open spec fn qualifier_pairs_match(qs: Seq<(String, String)>, m: Map<Seq<char>, Seq<char>>) -> bool {
    &&& forall|j: int| 0 <= j < qs.len() ==> m.contains_pair((#[trigger] qs[j]).0@, qs[j].1@)
    &&& forall|n: Seq<char>| #[trigger] m.dom().contains(n) ==> exists|j: int|
        0 <= j < qs.len() && (#[trigger] qs[j]).0@ == n
    &&& forall|j1: int, j2: int| 0 <= j1 < j2 < qs.len() ==> (#[trigger] qs[j1]).0@ != (
    #[trigger] qs[j2]).0@
}

/// The identifier `id` carries the parse result of the input text `s`.
pub open spec fn identifier_matches(id: PackageIdentifier, s: Seq<char>) -> bool {
    &&& purl_parse(s) is Some
    &&& id.ty@ == purl_parse(s)->0.ty
    &&& opt_view(id.namespace) == purl_parse(s)->0.namespace
    &&& id.name@ == purl_parse(s)->0.name
    &&& opt_view(id.version) == purl_parse(s)->0.version
    &&& opt_view(id.subpath) == purl_parse(s)->0.subpath
    &&& qualifier_pairs_match(id.qualifiers@, purl_parse(s)->0.qualifiers)
    &&& id.purl@ == purl_canon(s)
}

/// Relies on `packageurl::PackageUrl::from_str` to parse the raw text, on
/// its field accessors to read the parsed parts, and on its display form
/// for the canonical purl text. Parsing depends on the characters alone;
/// only the order of the qualifier pairs is left open, since the crate
/// stores qualifiers in a hash map.
#[verifier::external_body]
pub(crate) fn parse_purl(raw: &str) -> (r: Option<PackageIdentifier>)
    ensures
        r is Some <==> purl_parse(raw@) is Some,
        r matches Some(id) ==> id.purl@ == purl_canon(raw@),
        r matches Some(id) ==> identifier_matches(id, raw@),
{
    match packageurl::PackageUrl::from_str(raw) {
        Err(_) => None,
        Ok(p) => Some(PackageIdentifier {
            ty: p.ty().to_string(),
            namespace: p.namespace().map(|s| s.to_string()),
            name: p.name().to_string(),
            version: p.version().map(|s| s.to_string()),
            subpath: p.subpath().map(|s| s.to_string()),
            qualifiers: p.qualifiers().iter().map(|(k, v)| (k.to_string(), v.to_string())).collect(),
            purl: p.to_string(),
        }),
    }
}

} // verus!
