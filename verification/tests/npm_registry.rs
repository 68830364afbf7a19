use samples::assoc::assoc_put;
use samples::npmjs::package::{
    is_metadata, is_pkg, parse_tarball_name, PackageJson, PackageJsonPeople,
    PackageJsonPeopleObject, PackageJsonRepository, Packages, TarballEntry, TarballNameError,
};
use samples::npmjs::registry::{get_header_value, model_version};
use samples::time::Timestamp;
use std::path::PathBuf;

fn metadata(name: &str, version: &str) -> PackageJson {
    PackageJson {
        name: name.to_string(),
        version: version.to_string(),
        description: Some(format!("{} {}", name, version)),
        keywords: None,
        homepage: None,
        license: None,
        author: Some(PackageJsonPeople::Line(format!("author of {}", version))),
        contributors: None,
        repository: Some(PackageJsonRepository::Line("https://example.org/repo".to_string())),
        dependencies: Some(vec![("dep".to_string(), "^1.0.0".to_string())]),
        dev_dependencies: None,
    }
}

fn entry(filename: &str, json: Option<PackageJson>, secs: i64) -> TarballEntry {
    TarballEntry {
        path: PathBuf::from(format!("/srv/npm/{}", filename)),
        filename: filename.to_string(),
        is_file: true,
        metadata: json,
        created_at: Some(Timestamp { secs, nanos: 0 }),
        updated_at: None,
    }
}

fn registry() -> Packages {
    let mut pkgs = Packages::new(PathBuf::from("/srv/npm"));
    pkgs.collect(vec![
        entry("left-pad-1.3.0.tgz", Some(metadata("left-pad", "1.3.0")), 120),
        entry("left-pad-1.1.0.tgz", Some(metadata("left-pad", "1.1.0")), 60),
        entry("notes.txt", None, 0),
        entry("other-0.1.0.tgz", Some(metadata("other", "0.1.0")), 0),
        entry("empty-1.0.0.tgz", None, 0),
    ]);
    pkgs
}

#[test]
fn tarball_names() {
    assert_eq!(
        is_pkg("left-pad-1.3.0.tgz"),
        Some(("left-pad".to_string(), "1.3.0".to_string(), (1, 3, 0)))
    );
    assert_eq!(
        is_pkg("foo-1.2.3-beta.1+build.5.tgz"),
        Some(("foo".to_string(), "1.2.3-beta.1+build.5".to_string(), (1, 2, 3)))
    );
    assert_eq!(is_pkg("README.md"), None);
    assert!(matches!(
        parse_tarball_name("big-70000.0.0.tgz"),
        Err(TarballNameError::NumberTooLarge)
    ));
}

#[test]
fn metadata_entries() {
    assert!(is_metadata("package/package.json"));
    assert!(is_metadata("package.json"));
    assert!(is_metadata("package/package.json/"));
    assert!(!is_metadata("package/lib/package.json.bak"));
    assert!(!is_metadata("package/mypackage.json"));
    assert!(!is_metadata("package.json/.."));
}

#[test]
fn header_values() {
    assert_eq!(get_header_value(Some(b"example.org:8080"), "localhost"), "example.org:8080");
    assert_eq!(get_header_value(None, "localhost"), "localhost");
    assert_eq!(get_header_value(Some(b"bad\xff"), "localhost"), "localhost");
    assert_eq!(get_header_value(Some(b"a\tb"), "localhost"), "a\tb");
}

#[test]
fn collect_and_find() {
    let pkgs = registry();
    assert_eq!(pkgs.files.len(), 3);
    assert_eq!(pkgs.files[0].name, "left-pad");
    assert_eq!(pkgs.files[0].version, (1, 3, 0));
    assert_eq!(pkgs.files[0].shasum, "");
    assert_eq!(pkgs.find_archive("other-0.1.0.tgz"), Some(2));
    assert_eq!(pkgs.find_archive("missing.tgz"), None);
    assert_eq!(pkgs.versions_of("left-pad"), vec![1, 0]);
    assert_eq!(pkgs.versions_of("nobody"), Vec::<usize>::new());
}

#[test]
fn version_document_and_shasum() {
    let mut pkgs = registry();
    pkgs.files[0].fill_shasum(b"abc");
    assert_eq!(pkgs.files[0].shasum, "a9993e364706816aba3e25717850c26c9cd0d89d");
    pkgs.files[0].fill_shasum(b"other content");
    assert_eq!(pkgs.files[0].shasum, "a9993e364706816aba3e25717850c26c9cd0d89d");
    let v = model_version(&pkgs.files[0], "localhost:4873");
    assert_eq!(v.name, "left-pad");
    assert_eq!(v.version, "1.3.0");
    assert_eq!(v.dist.shasum, "a9993e364706816aba3e25717850c26c9cd0d89d");
    assert_eq!(v.dist.tarball, "http://localhost:4873/left-pad/-/left-pad-1.3.0.tgz");
    assert_eq!(v.dependencies, Some(vec![("dep".to_string(), "^1.0.0".to_string())]));
}

#[test]
fn scoped_names_are_percent_encoded() {
    let mut pkgs = registry();
    pkgs.files[0].metadata.name = "@scope/pkg ä".to_string();
    let v = model_version(&pkgs.files[0], "h");
    assert_eq!(v.dist.tarball, "http://h/@scope%2Fpkg%20%C3%A4/-/left-pad-1.3.0.tgz");
}

#[test]
fn package_document_of_two_versions() {
    let pkgs = registry();
    let doc = pkgs.package_document("left-pad", "localhost").ok().unwrap().unwrap();
    assert_eq!(doc.name, "left-pad");
    assert_eq!(doc.description, Some("left-pad 1.3.0".to_string()));
    assert_eq!(doc.author.as_ref().map(|a| a.name.clone()), Some("author of 1.3.0".to_string()));
    assert_eq!(doc.repository.as_ref().map(|r| r.url.clone()), Some("https://example.org/repo".to_string()));
    assert!(doc.dist_tags.is_empty() && doc.users.is_empty() && doc.readme.is_none());
    let mut keys: Vec<String> = doc.versions.iter().map(|(k, _)| k.clone()).collect();
    keys.sort();
    assert_eq!(keys, vec!["1.1.0".to_string(), "1.3.0".to_string()]);
    let mut time = doc.time.clone();
    time.sort();
    assert_eq!(
        time,
        vec![
            ("1.1.0".to_string(), "1970-01-01T00:01:00.000000Z".to_string()),
            ("1.3.0".to_string(), "1970-01-01T00:02:00.000000Z".to_string()),
            ("created".to_string(), "1970-01-01T00:01:00.000000Z".to_string()),
            ("modified".to_string(), "1970-01-01T00:02:00.000000Z".to_string()),
        ]
    );
    let v = doc.take_version("1.1.0").unwrap();
    assert_eq!(v.dist.tarball, "http://localhost/left-pad/-/left-pad-1.1.0.tgz");
}

#[test]
fn package_document_of_unknown_package() {
    let pkgs = registry();
    assert!(matches!(pkgs.package_document("nobody", "localhost"), Ok(None)));
    let doc = pkgs.package_document("other", "localhost").ok().unwrap().unwrap();
    assert!(doc.take_version("9.9.9").is_none());
}

#[test]
fn people_objects_keep_their_fields() {
    let mut pkgs = registry();
    pkgs.files[0].metadata.author = Some(PackageJsonPeople::Object(PackageJsonPeopleObject {
        name: "Ann".to_string(),
        email: Some("ann@example.org".to_string()),
        url: None,
    }));
    let doc = pkgs.package_document("left-pad", "h").ok().unwrap().unwrap();
    let author = doc.author.unwrap();
    assert_eq!(author.name, "Ann");
    assert_eq!(author.email, Some("ann@example.org".to_string()));
    assert_eq!(author.url, None);
}

#[test]
fn assoc_put_replaces_values() {
    let mut m: Vec<(String, String)> = Vec::new();
    assoc_put(&mut m, "a".to_string(), "1".to_string());
    assoc_put(&mut m, "b".to_string(), "2".to_string());
    assoc_put(&mut m, "a".to_string(), "3".to_string());
    assert_eq!(m, vec![("a".to_string(), "3".to_string()), ("b".to_string(), "2".to_string())]);
}
