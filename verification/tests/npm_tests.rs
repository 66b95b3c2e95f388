use license_notice::license_file::Package;
use license_notice::npm::{
    build_npm_notice, collect_node_dependencies, dev_package_names, normalize_repository,
    LockPackage, NodePackage, RepositoryField,
};
use license_notice::render::BundledLicense;
use license_notice::resolve::NoticeError;

fn rule() -> String {
    format!("{}\n", "-".repeat(57))
}

fn header() -> String {
    String::from(
        "THIRD-PARTY SOFTWARE NOTICES AND INFORMATION\n\nThis software includes the following third-party components.\nThe license terms for each of these components are provided later in this notice.\n\n\n",
    )
}

fn package(name: &str, version: &str, repository: RepositoryField, license: &str) -> NodePackage {
    NodePackage {
        name: String::from(name),
        version: String::from(version),
        repository,
        license: String::from(license),
    }
}

#[test]
fn dev_names_are_stripped_of_module_path_components() {
    let lock = vec![
        LockPackage {
            name: String::from("node_modules/foo"),
            dev: true,
        },
        LockPackage {
            name: String::from("node_modules/a/node_modules/b"),
            dev: true,
        },
        LockPackage {
            name: String::from("node_modules/kept"),
            dev: false,
        },
    ];
    let names = dev_package_names(&lock);
    assert_eq!(names, vec![String::from("foo"), String::from("a/b")]);
}

#[test]
fn repository_normalization() {
    let plain = normalize_repository(&RepositoryField::Text(String::from("https://x"))).unwrap();
    assert_eq!(plain, "https://x");
    let url = normalize_repository(&RepositoryField::UrlObject(Some(String::from("https://y"))))
        .unwrap();
    assert_eq!(url, "https://y");
    let no_url = normalize_repository(&RepositoryField::UrlObject(None));
    assert!(matches!(no_url, Err(NoticeError::InvalidRepository)));
    let other = normalize_repository(&RepositoryField::OtherShape);
    assert!(matches!(other, Err(NoticeError::InvalidRepository)));
    assert_eq!(
        NoticeError::InvalidRepository.message(),
        "invalid repository type"
    );
}

#[test]
fn development_packages_are_excluded() {
    let pkgs = vec![
        package("keep", "1.0.0", RepositoryField::Text(String::from("r1")), "MIT"),
        package("devonly", "2.0.0", RepositoryField::Text(String::from("r2")), "MIT"),
        package(
            "obj",
            "3.0.0",
            RepositoryField::UrlObject(Some(String::from("r3"))),
            "ISC",
        ),
    ];
    let dev = vec![String::from("devonly")];
    let details = collect_node_dependencies(&pkgs, &dev).unwrap();
    assert_eq!(details.len(), 2);
    assert_eq!(details[0].name, "keep");
    assert_eq!(details[0].repository, "r1");
    assert_eq!(details[1].name, "obj");
    assert_eq!(details[1].repository, "r3");
}

#[test]
fn bad_repository_in_tree_is_fatal() {
    let pkgs = vec![
        package("fine", "1.0.0", RepositoryField::Text(String::from("r")), "MIT"),
        package("broken", "1.0.1", RepositoryField::OtherShape, "MIT"),
    ];
    let dev: Vec<String> = Vec::new();
    let r = collect_node_dependencies(&pkgs, &dev);
    assert!(matches!(r, Err(NoticeError::InvalidRepository)));
}

#[test]
fn bad_repository_of_excluded_package_is_ignored() {
    let pkgs = vec![
        package("fine", "1.0.0", RepositoryField::Text(String::from("r")), "MIT"),
        package("broken", "1.0.1", RepositoryField::OtherShape, "MIT"),
    ];
    let dev = vec![String::from("broken")];
    let details = collect_node_dependencies(&pkgs, &dev).unwrap();
    assert_eq!(details.len(), 1);
    assert_eq!(details[0].name, "fine");
}

#[test]
fn npm_notice_document_shape() {
    let pkgs = vec![package(
        "pkg",
        "1.0.0",
        RepositoryField::Text(String::from("https://example.com/pkg")),
        "MIT",
    )];
    let dev: Vec<String> = Vec::new();
    let details = collect_node_dependencies(&pkgs, &dev).unwrap();
    let overrides: Vec<Package> = Vec::new();
    let bundle = vec![
        BundledLicense {
            name: String::from("BSD"),
            content: String::from("bsd body"),
        },
        BundledLicense {
            name: String::from("MIT"),
            content: String::from("mit body"),
        },
    ];
    let doc = build_npm_notice(&details, &overrides, &bundle).unwrap();
    let expected = format!(
        "{}{}\npkg 1.0.0 (MIT)\nhttps://example.com/pkg\n\n{}\nMIT\n\n---\n\nmit body{}",
        header(),
        rule(),
        rule(),
        rule()
    );
    assert_eq!(doc, expected);
}

#[test]
fn npm_override_replaces_detected_license() {
    let pkgs = vec![package(
        "pkg",
        "1.0.0",
        RepositoryField::Text(String::from("https://example.com/pkg")),
        "MIT",
    )];
    let dev: Vec<String> = Vec::new();
    let details = collect_node_dependencies(&pkgs, &dev).unwrap();
    let overrides = vec![Package {
        name: String::from("pkg"),
        license_file_content: None,
        license: Some(String::from("Apache-2.0")),
    }];
    let bundle = vec![
        BundledLicense {
            name: String::from("Apache-2.0"),
            content: String::from("apache body"),
        },
        BundledLicense {
            name: String::from("MIT"),
            content: String::from("mit body"),
        },
    ];
    let doc = build_npm_notice(&details, &overrides, &bundle).unwrap();
    assert!(doc.contains("pkg 1.0.0 (Apache-2.0)\n"));
    assert!(!doc.contains("(MIT)"));
    assert!(doc.contains("apache body"));
    assert!(!doc.contains("mit body"));
}

#[test]
fn npm_notice_is_deterministic() {
    let details = collect_node_dependencies(
        &vec![package(
            "p",
            "0.1.0",
            RepositoryField::Text(String::from("r")),
            "ISC",
        )],
        &Vec::new(),
    )
    .unwrap();
    let overrides: Vec<Package> = Vec::new();
    let bundle = vec![BundledLicense {
        name: String::from("ISC"),
        content: String::from("isc body"),
    }];
    assert_eq!(
        build_npm_notice(&details, &overrides, &bundle).unwrap(),
        build_npm_notice(&details, &overrides, &bundle).unwrap()
    );
}
