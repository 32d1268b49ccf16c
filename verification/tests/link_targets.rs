use spog_ui::links::sbom_download_query;
use spog_ui::links::vulnerabilities_query;

#[test]
fn vulnerabilities_query_quotes_the_purl() {
    assert_eq!(
        vulnerabilities_query("pkg:npm/left-pad@1.0.0"),
        "affected:\"pkg:npm/left-pad@1.0.0\""
    );
}

#[test]
fn vulnerabilities_query_of_empty_purl() {
    assert_eq!(vulnerabilities_query(""), "affected:\"\"");
}

#[test]
fn sbom_download_query_percent_encodes() {
    assert_eq!(sbom_download_query("a b/c"), "?id=a%20b%2Fc");
    assert_eq!(sbom_download_query("plain-id_1.0~x"), "?id=plain-id_1.0~x");
    assert_eq!(sbom_download_query(""), "?id=");
}
