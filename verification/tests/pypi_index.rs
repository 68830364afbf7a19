use samples::pypi::package::{
    normalize, sdist_distribution, wheel_distribution, FileEntry, PackageType, Packages,
};
use samples::pypi::version::{Version, VersionError};
use samples::time::Timestamp;
use std::path::PathBuf;

fn entry(name: &str, secs: i64) -> FileEntry {
    FileEntry {
        path: PathBuf::from(format!("/srv/pypi/{}", name)),
        filename: name.to_string(),
        is_file: true,
        size: 10,
        created_at: Some(Timestamp { secs, nanos: 0 }),
        updated_at: Some(Timestamp { secs, nanos: 0 }),
    }
}

fn repository() -> Packages {
    let mut pkgs = Packages::new(PathBuf::from("/srv/pypi"));
    pkgs.collect(vec![
        entry("Foo_Bar-1.0.tar.gz", 0),
        entry("foo.bar-1.1-py3-none-any.whl", 60),
        entry("README.txt", 0),
        entry("baz-2.0.tar.gz", 0),
        entry("Foo_Bar-1.0-py3-none-any.whl", 0),
    ]);
    pkgs
}

#[test]
fn normalize_collapses_separator_runs() {
    assert_eq!(normalize("Foo_Bar"), "Foo-Bar");
    assert_eq!(normalize("a--_.b"), "a-b");
    assert_eq!(normalize("plain"), "plain");
}

#[test]
fn sdist_and_wheel_names() {
    assert_eq!(
        sdist_distribution("requests-2.31.0.tar.gz"),
        Some(("requests".to_string(), "2.31.0".to_string()))
    );
    assert_eq!(sdist_distribution("requests.zip"), None);
    assert_eq!(
        wheel_distribution("requests-2.31.0-py3-none-any.whl"),
        Some(("requests".to_string(), "2.31.0".to_string()))
    );
    assert_eq!(
        wheel_distribution("pkg-1.0-1-py3-none-any.whl"),
        Some(("pkg".to_string(), "1.0".to_string()))
    );
    assert_eq!(wheel_distribution("pkg-1.0.tar.gz"), None);
}

#[test]
fn collect_keeps_only_package_files() {
    let pkgs = repository();
    assert_eq!(pkgs.files.len(), 4);
    assert_eq!(pkgs.files[0].distribution, "Foo_Bar");
    assert_eq!(pkgs.files[0].version.as_str(), "1.0");
    assert!(matches!(pkgs.files[0].ty, PackageType::Sdist));
    assert!(matches!(pkgs.files[1].ty, PackageType::Wheel));
    assert_eq!(pkgs.files[2].filename, "baz-2.0.tar.gz");
}

#[test]
fn project_names_lists_each_project_once() {
    let pkgs = repository();
    let mut names = pkgs.project_names();
    names.sort();
    assert_eq!(names, vec!["Foo-Bar".to_string(), "baz".to_string(), "foo-bar".to_string()]);
    let response = pkgs.simple_response();
    assert_eq!(response.meta.api_version, "1.4");
    assert_eq!(response.projects.len(), 3);
}

#[test]
fn project_files_and_versions() {
    let pkgs = repository();
    assert_eq!(pkgs.project_indices("Foo-Bar"), vec![0, 3]);
    assert_eq!(pkgs.project_versions("Foo-Bar"), vec!["1.0".to_string()]);
    assert_eq!(pkgs.project_indices("nothing"), Vec::<usize>::new());
}

#[test]
fn insert_hash_stores_the_digest() {
    let mut pkgs = repository();
    let p = &mut pkgs.files[0];
    assert_eq!(p.hash_value("md5"), None);
    let md5 = p.insert_hash("md5", b"abc");
    assert_eq!(md5, "900150983cd24fb0d6963f7d28e17f72");
    let sha = p.insert_hash("sha256", b"abc");
    assert_eq!(sha, "ba7816bf8f01cfea414140de5dae2223b00361a396177a9cb410ff61f20015ad");
    assert_eq!(p.hash_value("md5"), Some(md5));
    assert_eq!(p.hashes.len(), 2);
}

#[test]
fn project_file_entry() {
    let pkgs = repository();
    let f = pkgs.files[1].project_file("example.org:8000", "md5", "00ff");
    assert_eq!(f.filename, "foo.bar-1.1-py3-none-any.whl");
    assert_eq!(f.url, "http://example.org:8000/packages/foo.bar-1.1-py3-none-any.whl");
    assert_eq!(f.hashes, vec![("md5".to_string(), "00ff".to_string())]);
    assert_eq!(f.size, 10);
    assert_eq!(f.upload_time, Some("1970-01-01T00:01:00.000000Z".to_string()));
}

#[test]
fn version_reading() {
    assert!(Version::new("1.0").is_some());
    assert!(Version::new("").is_none());
    assert_eq!(Version::try_new("1.0.post").map(|v| v.is_some()), Err(VersionError::Malformed));
    assert_eq!(Version::try_new("1.0.post2").map(|v| v.is_some()), Ok(true));
    let v = Version::new("v1.2rc3").unwrap();
    assert_eq!(v.as_str(), "v1.2rc3");
    assert!(v.identifier.is_pre());
    assert!(!v.identifier.is_dev());
    assert_eq!(Version::try_new("1.0").err(), None::<VersionError>);
}

#[test]
fn version_order_is_consistent() {
    let a = Version::new("1.0a1").unwrap();
    let b = Version::new("1.0").unwrap();
    assert_eq!(a.partial_cmp(&b), Some(std::cmp::Ordering::Less));
    assert_eq!(b.partial_cmp(&a), Some(std::cmp::Ordering::Greater));
    assert_eq!(a.partial_cmp(&a), Some(std::cmp::Ordering::Equal));
    assert!(Version::new("1.0") != Version::new("1.0.0"));
    assert!(Version::new("1.0") == Version::new("v1.0"));
}

#[test]
fn normalizing_twice_is_normalizing_once() {
    for s in ["Foo__bar.-baz", "-a_", "x..y", "", "plain"] {
        let once = normalize(s);
        assert_eq!(normalize(&once), once);
    }
    assert_eq!(normalize("Foo__bar.-baz"), "Foo-bar-baz");
}
