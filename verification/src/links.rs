//! Link targets the presentation layer renders.
//!
//! For each aggregated package the catalog links to the vulnerabilities
//! affecting its purl, and for each related SBOM identifier it links to
//! a download location; both targets are built here as plain text.

use vstd::prelude::*;
use vstd::string::StringExecFns;

verus! {

/// What `urlencoding::encode` yields on a given input: percent-encoding
/// depends on the characters alone.
pub uninterp spec fn urlencoded(s: Seq<char>) -> Seq<char>;

/// Relies on `urlencoding::encode`: percent-encodes every byte outside
/// the unreserved set, and keeps an empty input empty.
#[verifier::external_body]
fn urlencode(s: &str) -> (r: String)
    ensures
        r@ == urlencoded(s@),
        s@.len() == 0 ==> r@.len() == 0,
{
    urlencoding::encode(s).into_owned()
}

/// The query that lists the vulnerabilities affecting a package:
/// `affected:"<purl>"`.
pub fn vulnerabilities_query(purl: &str) -> (r: String)
    ensures
        r@ == "affected:\""@ + purl@ + "\""@,
{
    let mut r: String = "affected:\"".to_owned();
    r.append(purl);
    r.append("\"");
    proof {
        assert(r@ =~= "affected:\""@ + purl@ + "\""@);
    }
    r
}

/// The query string that addresses one SBOM by identifier:
/// `?id=<encoded identifier>`.
pub fn sbom_download_query(id: &str) -> (r: String)
    ensures
        r@ == "?id="@ + urlencoded(id@),
{
    let encoded = urlencode(id);
    let mut r: String = "?id=".to_owned();
    r.append(encoded.as_str());
    proof {
        assert(r@ =~= "?id="@ + urlencoded(id@));
    }
    r
}

} // verus!
