use std::rc::Rc;

use spog_ui::aggregate::PackageValue;
use spog_ui::aggregate::build_packages;
use spog_ui::backtrace::BacktraceIndex;
use spog_ui::key::PackageKey;
use spog_ui::purl::PackageIdentifier;

fn strings(items: &[&str]) -> Vec<String> {
    items.iter().map(|s| s.to_string()).collect()
}

fn empty_index() -> Rc<BacktraceIndex> {
    Rc::new(BacktraceIndex::new())
}

#[test]
fn malformed_entry_is_skipped() {
    // one malformed entry, one valid entry: exactly one group, no failure
    let purls = strings(&["not-a-purl", "pkg:npm/left-pad@1.0.0"]);
    let bt = empty_index();
    let groups = build_packages(&purls, &bt);
    assert_eq!(groups.len(), 1);
    assert_eq!(groups[0].0.ty, "npm");
    assert_eq!(groups[0].0.name, "left-pad");
    assert_eq!(groups[0].0.version.as_deref(), Some("1.0.0"));
    assert_eq!(groups[0].0.namespace, None);
    assert_eq!(groups[0].0.purl, "pkg:npm/left-pad@1.0.0");
}

#[test]
fn all_malformed_yields_empty() {
    let purls = strings(&["not-a-purl", "also bad", ""]);
    let bt = empty_index();
    let groups = build_packages(&purls, &bt);
    assert_eq!(groups.len(), 0);
}

#[test]
fn aggregation_run_twice_is_value_equal() {
    let purls = strings(&[
        "pkg:npm/left-pad@1.0.0",
        "pkg:maven/org.apache/log4j@2.14.0",
        "not-a-purl",
        "pkg:npm/left-pad@1.0.0",
    ]);
    let bt = empty_index();
    let first = build_packages(&purls, &bt);
    let second = build_packages(&purls, &bt);
    assert_eq!(first.len(), second.len());
    for (a, b) in first.iter().zip(second.iter()) {
        assert_eq!(a.0.ty, b.0.ty);
        assert_eq!(a.0.namespace, b.0.namespace);
        assert_eq!(a.0.name, b.0.name);
        assert_eq!(a.0.version, b.0.version);
        assert_eq!(a.0.subpath, b.0.subpath);
        assert_eq!(a.0.purl, b.0.purl);
        assert_eq!(a.1.qualifiers, b.1.qualifiers);
    }
}

#[test]
fn groups_are_sorted_by_key() {
    let purls = strings(&[
        "pkg:npm/zeta@2.0.0",
        "pkg:maven/org.apache/log4j@2.14.0",
        "pkg:npm/alpha@1.0.0",
        "pkg:npm/alpha@0.9.0",
    ]);
    let bt = empty_index();
    let groups = build_packages(&purls, &bt);
    assert_eq!(groups.len(), 4);
    // lexicographic over (type, namespace, name, version, subpath, purl)
    assert_eq!(groups[0].0.ty, "maven");
    assert_eq!(groups[1].0.name, "alpha");
    assert_eq!(groups[1].0.version.as_deref(), Some("0.9.0"));
    assert_eq!(groups[2].0.name, "alpha");
    assert_eq!(groups[2].0.version.as_deref(), Some("1.0.0"));
    assert_eq!(groups[3].0.name, "zeta");
}

#[test]
fn duplicate_occurrences_collapse_to_one_group() {
    // the same logical package written with qualifiers in either order
    let purls = strings(&[
        "pkg:generic/archive@1.0?arch=arm64&os=linux",
        "pkg:generic/archive@1.0?os=linux&arch=arm64",
    ]);
    let bt = empty_index();
    let groups = build_packages(&purls, &bt);
    assert_eq!(groups.len(), 1);
    let quals = &groups[0].1.qualifiers;
    assert_eq!(quals.len(), 2);
    assert_eq!(quals[0].0, "arch");
    assert_eq!(quals[0].1, vec!["arm64".to_string()]);
    assert_eq!(quals[1].0, "os");
    assert_eq!(quals[1].1, vec!["linux".to_string()]);
}

#[test]
fn qualifier_values_union_under_one_name() {
    let bt = empty_index();
    let mut value = PackageValue::empty(&bt);
    value.add_qualifier(&"version".to_string(), &"1.0".to_string());
    value.add_qualifier(&"version".to_string(), &"2.0".to_string());
    value.add_qualifier(&"version".to_string(), &"1.0".to_string());
    assert_eq!(value.qualifiers.len(), 1);
    assert_eq!(value.qualifiers[0].0, "version");
    assert_eq!(value.qualifiers[0].1, vec!["1.0".to_string(), "2.0".to_string()]);
}

#[test]
fn backtrace_absence_is_empty_not_error() {
    let mut index = BacktraceIndex::new();
    index.insert(
        "pkg:npm/left-pad@1.0.0".to_string(),
        strings(&["pkg:npm/app@1.0.0", "pkg:npm/left-pad@1.0.0"]),
    );
    let bt = Rc::new(index);
    let purls = strings(&["pkg:npm/left-pad@1.0.0", "pkg:npm/alpha@1.0.0"]);
    let groups = build_packages(&purls, &bt);
    assert_eq!(groups.len(), 2);
    // alpha has no entry in the index: an empty set, only a direct dependency
    let alpha = &groups[0];
    assert_eq!(alpha.0.name, "alpha");
    assert_eq!(alpha.1.backtraces_for(&alpha.0), Vec::<Vec<String>>::new());
    // left-pad has one chain
    let left_pad = &groups[1];
    assert_eq!(left_pad.0.name, "left-pad");
    assert_eq!(
        left_pad.1.backtraces_for(&left_pad.0),
        vec![strings(&["pkg:npm/app@1.0.0", "pkg:npm/left-pad@1.0.0"])]
    );
}

#[test]
fn backtrace_chains_form_a_set() {
    let mut index = BacktraceIndex::new();
    let chain = strings(&["pkg:npm/app@1.0.0", "pkg:npm/left-pad@1.0.0"]);
    index.insert("pkg:npm/left-pad@1.0.0".to_string(), chain.clone());
    index.insert("pkg:npm/left-pad@1.0.0".to_string(), chain.clone());
    let other = strings(&["pkg:npm/other@2.0.0", "pkg:npm/left-pad@1.0.0"]);
    index.insert("pkg:npm/left-pad@1.0.0".to_string(), other.clone());
    assert_eq!(index.lookup("pkg:npm/left-pad@1.0.0"), vec![chain, other]);
}

#[test]
fn key_of_identifier_copies_the_fields() {
    let id = PackageIdentifier {
        ty: "maven".to_string(),
        namespace: Some("org.apache".to_string()),
        name: "log4j".to_string(),
        version: Some("2.14.0".to_string()),
        subpath: None,
        qualifiers: vec![("type".to_string(), "jar".to_string())],
        purl: "pkg:maven/org.apache/log4j@2.14.0?type=jar".to_string(),
    };
    let key = PackageKey::new(&id);
    assert_eq!(key.ty, "maven");
    assert_eq!(key.namespace.as_deref(), Some("org.apache"));
    assert_eq!(key.name, "log4j");
    assert_eq!(key.version.as_deref(), Some("2.14.0"));
    assert_eq!(key.subpath, None);
    assert_eq!(key.purl, "pkg:maven/org.apache/log4j@2.14.0?type=jar");
}

#[test]
fn qualifiers_flow_into_the_group() {
    let purls = strings(&["pkg:maven/org.apache/log4j@2.14.0?classifier=sources&type=jar"]);
    let bt = empty_index();
    let groups = build_packages(&purls, &bt);
    assert_eq!(groups.len(), 1);
    let quals = &groups[0].1.qualifiers;
    assert_eq!(quals.len(), 2);
    assert_eq!(quals[0].0, "classifier");
    assert_eq!(quals[0].1, vec!["sources".to_string()]);
    assert_eq!(quals[1].0, "type");
    assert_eq!(quals[1].1, vec!["jar".to_string()]);
}
