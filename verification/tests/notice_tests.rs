use license_notice::license_file::{entry_source, EntrySource, Package};
use license_notice::render::{build_notice, BundledLicense};
use license_notice::resolve::{
    resolve_record, DependencyRecord, ManualDependency, NoticeError, ResolvedLicense,
};

fn rule() -> String {
    format!("{}\n", "-".repeat(57))
}

fn header() -> String {
    String::from(
        "THIRD-PARTY SOFTWARE NOTICES AND INFORMATION\n\nThis software includes the following third-party components.\nThe license terms for each of these components are provided later in this notice.\n\n\n",
    )
}

fn record(name: &str, version: &str, license: Option<&str>, full: bool) -> DependencyRecord {
    DependencyRecord {
        name: String::from(name),
        version: String::from(version),
        repository: None,
        license: license.map(String::from),
        has_full_license_text: full,
    }
}

fn file_entry(name: &str, content: &str) -> Package {
    Package {
        name: String::from(name),
        license_file_content: Some(String::from(content)),
        license: None,
    }
}

fn bundled(name: &str, content: &str) -> BundledLicense {
    BundledLicense {
        name: String::from(name),
        content: String::from(content),
    }
}

#[test]
fn full_text_and_bundled_filtering() {
    let records = vec![
        record("libA", "1.0", Some("MIT"), false),
        record("libB", "2.0", None, true),
    ];
    let overrides: Vec<Package> = Vec::new();
    let files = vec![file_entry("libB", "<BSD text>")];
    let manual: Vec<ManualDependency> = Vec::new();
    let bundle = vec![bundled("MIT", "mit body"), bundled("BSD", "bsd body")];
    let doc = build_notice(&records, &overrides, &files, &manual, &bundle).unwrap();
    let expected = format!(
        "{}{}\nlibA 1.0 (MIT)\n{}\nlibB 2.0\n\n---\n\n<BSD text>\n\n{}\nMIT\n\n---\n\nmit body{}",
        header(),
        rule(),
        rule(),
        rule(),
        rule()
    );
    assert_eq!(doc, expected);
    assert!(doc.contains("(MIT)"));
    assert!(doc.contains("<BSD text>"));
    assert!(!doc.contains("bsd body"));
}

#[test]
fn override_wins_over_record_license() {
    let records = vec![record("libA", "1.0", Some("MIT"), false)];
    let overrides = vec![Package {
        name: String::from("libA"),
        license_file_content: None,
        license: Some(String::from("Apache-2.0")),
    }];
    let files: Vec<Package> = Vec::new();
    let manual: Vec<ManualDependency> = Vec::new();
    let bundle = vec![bundled("Apache-2.0", "apache body"), bundled("MIT", "mit body")];
    let doc = build_notice(&records, &overrides, &files, &manual, &bundle).unwrap();
    assert!(doc.contains("libA 1.0 (Apache-2.0)\n"));
    assert!(!doc.contains("(MIT)"));
    assert!(doc.contains("apache body"));
    assert!(!doc.contains("mit body"));
}

#[test]
fn every_dependency_listed_once_in_order() {
    let records = vec![
        record("alpha", "0.1", Some("MIT"), false),
        record("beta", "0.2", Some("Apache-2.0"), false),
        record("gamma", "0.3", Some("BSD-3-Clause"), false),
    ];
    let overrides: Vec<Package> = Vec::new();
    let files: Vec<Package> = Vec::new();
    let manual: Vec<ManualDependency> = Vec::new();
    let bundle: Vec<BundledLicense> = Vec::new();
    let doc = build_notice(&records, &overrides, &files, &manual, &bundle).unwrap();
    assert_eq!(doc.matches("alpha").count(), 1);
    assert_eq!(doc.matches("beta").count(), 1);
    assert_eq!(doc.matches("gamma").count(), 1);
    let a = doc.find("alpha").unwrap();
    let b = doc.find("beta").unwrap();
    let g = doc.find("gamma").unwrap();
    assert!(a < b && b < g);
}

#[test]
fn rendering_is_deterministic() {
    let records = vec![
        record("libA", "1.0", Some("MIT"), false),
        record("libB", "2.0", None, true),
    ];
    let overrides: Vec<Package> = Vec::new();
    let files = vec![file_entry("libB", "text")];
    let manual = vec![ManualDependency {
        license: String::from("Zlib"),
        notice: String::from("manual notice body"),
    }];
    let bundle = vec![bundled("Zlib", "zlib body"), bundled("MIT", "mit body")];
    let first = build_notice(&records, &overrides, &files, &manual, &bundle).unwrap();
    let second = build_notice(&records, &overrides, &files, &manual, &bundle).unwrap();
    assert_eq!(first, second);
}

#[test]
fn manual_additions_rendered_and_counted_in_use() {
    let records: Vec<DependencyRecord> = Vec::new();
    let overrides: Vec<Package> = Vec::new();
    let files: Vec<Package> = Vec::new();
    let manual = vec![ManualDependency {
        license: String::from("ISC"),
        notice: String::from("isc manual text"),
    }];
    let bundle = vec![bundled("ISC", "isc body"), bundled("MIT", "mit body")];
    let doc = build_notice(&records, &overrides, &files, &manual, &bundle).unwrap();
    let expected = format!(
        "{}{}\nisc manual text\n\n{}\nISC\n\n---\n\nisc body{}",
        header(),
        rule(),
        rule(),
        rule()
    );
    assert_eq!(doc, expected);
}

#[test]
fn missing_license_is_fatal() {
    let records = vec![
        record("fine", "1.0", Some("MIT"), false),
        record("bad", "2.0", None, false),
    ];
    let overrides: Vec<Package> = Vec::new();
    let files: Vec<Package> = Vec::new();
    let manual: Vec<ManualDependency> = Vec::new();
    let bundle: Vec<BundledLicense> = Vec::new();
    let err = build_notice(&records, &overrides, &files, &manual, &bundle).unwrap_err();
    match &err {
        NoticeError::NoLicense(name) => assert_eq!(name, "bad"),
        _ => panic!("expected a missing-license error"),
    }
    assert_eq!(err.message(), "no license found for bad");
}

#[test]
fn missing_license_file_entry_is_fatal() {
    let records = vec![record("needsfile", "1.0", None, true)];
    let overrides: Vec<Package> = Vec::new();
    let files: Vec<Package> = Vec::new();
    let manual: Vec<ManualDependency> = Vec::new();
    let bundle: Vec<BundledLicense> = Vec::new();
    let err = build_notice(&records, &overrides, &files, &manual, &bundle).unwrap_err();
    match &err {
        NoticeError::LicenseFileNotFound(name) => assert_eq!(name, "needsfile"),
        _ => panic!("expected a missing-license-file error"),
    }
    assert_eq!(err.message(), "license file not found for needsfile");
}

#[test]
fn malformed_override_is_fatal() {
    let records = vec![record("libA", "1.0", Some("MIT"), false)];
    let overrides = vec![Package {
        name: String::from("libA"),
        license_file_content: Some(String::from("text")),
        license: Some(String::from("MIT")),
    }];
    let files: Vec<Package> = Vec::new();
    let manual: Vec<ManualDependency> = Vec::new();
    let bundle: Vec<BundledLicense> = Vec::new();
    let err = build_notice(&records, &overrides, &files, &manual, &bundle).unwrap_err();
    match &err {
        NoticeError::MalformedOverride(name) => assert_eq!(name, "libA"),
        _ => panic!("expected a malformed-override error"),
    }
}

#[test]
fn override_with_full_text_inlines_it() {
    let records = vec![record("libA", "1.0", Some("MIT"), false)];
    let overrides = vec![Package {
        name: String::from("libA"),
        license_file_content: Some(String::from("override full text")),
        license: None,
    }];
    let files: Vec<Package> = Vec::new();
    let manual: Vec<ManualDependency> = Vec::new();
    let bundle = vec![bundled("MIT", "mit body")];
    let doc = build_notice(&records, &overrides, &files, &manual, &bundle).unwrap();
    assert!(doc.contains("libA 1.0\n"));
    assert!(!doc.contains("(MIT)"));
    assert!(doc.contains("override full text"));
    assert!(!doc.contains("mit body"));
}

#[test]
fn composite_identifier_matches_both_bundled_entries() {
    let records = vec![record("dual", "1.0", Some("MIT OR Apache-2.0"), false)];
    let overrides: Vec<Package> = Vec::new();
    let files: Vec<Package> = Vec::new();
    let manual: Vec<ManualDependency> = Vec::new();
    let bundle = vec![
        bundled("Apache-2.0", "apache body"),
        bundled("BSD", "bsd body"),
        bundled("MIT", "mit body"),
    ];
    let doc = build_notice(&records, &overrides, &files, &manual, &bundle).unwrap();
    assert!(doc.contains("apache body"));
    assert!(doc.contains("mit body"));
    assert!(!doc.contains("bsd body"));
}

#[test]
fn repository_line_rendered_when_present() {
    let records = vec![DependencyRecord {
        name: String::from("withrepo"),
        version: String::from("3.1"),
        repository: Some(String::from("https://example.com/withrepo")),
        license: Some(String::from("MIT")),
        has_full_license_text: false,
    }];
    let overrides: Vec<Package> = Vec::new();
    let files: Vec<Package> = Vec::new();
    let manual: Vec<ManualDependency> = Vec::new();
    let bundle: Vec<BundledLicense> = Vec::new();
    let doc = build_notice(&records, &overrides, &files, &manual, &bundle).unwrap();
    assert!(doc.contains("withrepo 3.1 (MIT)\nhttps://example.com/withrepo\n"));
}

#[test]
fn entry_source_demands_exactly_one_of_url_and_identifier() {
    let name = String::from("entry");
    let url = Some(String::from("https://example.com/license"));
    let license = Some(String::from("MIT"));
    let none: Option<String> = None;
    match entry_source(&name, &url, &none).unwrap() {
        EntrySource::Fetch(u) => assert_eq!(u, "https://example.com/license"),
        EntrySource::Identifier(_) => panic!("expected the fetch source"),
    }
    match entry_source(&name, &none, &license).unwrap() {
        EntrySource::Identifier(l) => assert_eq!(l, "MIT"),
        EntrySource::Fetch(_) => panic!("expected the identifier source"),
    }
    let both = entry_source(&name, &url, &license);
    assert!(matches!(both, Err(NoticeError::MalformedOverride(n)) if n == "entry"));
    let neither = entry_source(&name, &none, &none);
    assert!(matches!(neither, Err(NoticeError::MalformedOverride(n)) if n == "entry"));
}

#[test]
fn resolve_record_prefers_record_identifier_over_full_text() {
    let rec = record("both", "1.0", Some("MIT"), true);
    let overrides: Vec<Package> = Vec::new();
    let files = vec![file_entry("both", "full text")];
    match resolve_record(&rec, &overrides, &files).unwrap() {
        ResolvedLicense::Identifier(id) => assert_eq!(id, "MIT"),
        ResolvedLicense::FullText(_) => panic!("expected the identifier resolution"),
    }
}
