use flate2::write::GzEncoder;
use flate2::Compression;
use samples::npmjs::tarball::metadata_candidates;

fn tarball(files: &[(&str, &[u8])]) -> Vec<u8> {
    let mut builder = tar::Builder::new(GzEncoder::new(Vec::new(), Compression::default()));
    for (path, data) in files {
        let mut header = tar::Header::new_gnu();
        header.set_size(data.len() as u64);
        header.set_mode(0o644);
        header.set_cksum();
        builder.append_data(&mut header, path, *data).unwrap();
    }
    builder.into_inner().unwrap().finish().unwrap()
}

#[test]
fn package_json_candidates_in_archive_order() {
    let gz = tarball(&[
        ("package/README.md", b"readme"),
        ("package/package.json", b"{\"name\":\"a\"}"),
        ("package/lib/package.json", b"{\"name\":\"b\"}"),
        ("package/package.json.bak", b"x"),
    ]);
    let (candidates, complete) = metadata_candidates(&gz);
    assert!(complete);
    assert_eq!(candidates, vec![b"{\"name\":\"a\"}".to_vec(), b"{\"name\":\"b\"}".to_vec()]);
}

#[test]
fn unreadable_archive_gives_no_candidate_and_an_error() {
    let (candidates, complete) = metadata_candidates(b"not gzip");
    assert!(candidates.is_empty());
    assert!(!complete);
}

#[test]
fn archive_without_package_json() {
    let gz = tarball(&[("package/index.js", b"1")]);
    assert_eq!(metadata_candidates(&gz), (vec![], true));
}
