use samples::pypi::version::Version;

#[test]
fn test_sort_epoch() {
    let mut versions = vec![Version::new("2!1"), Version::new("3"), Version::new("1!2")];

    versions.sort_by(|a, b| a.partial_cmp(b).unwrap());

    let expected = vec![Version::new("3"), Version::new("1!2"), Version::new("2!1")];

    assert_eq!(expected, versions);
}

#[test]
fn test_sort_release() {
    let mut versions = vec![
        Version::new("2.0"),
        Version::new("1.0.1"),
        Version::new("2.0.0"),
        Version::new("1.0"),
        Version::new("1.1"),
    ];

    versions.sort_by(|a, b| a.partial_cmp(b).unwrap());

    let expected = vec![
        Version::new("1.0"),
        Version::new("1.0.1"),
        Version::new("1.1"),
        Version::new("2.0"),
        Version::new("2.0.0"),
    ];

    assert_eq!(expected, versions);
}

#[test]
fn test_sort_pre() {
    let mut versions = vec![
        Version::new("1.1a1"),
        Version::new("1"),
        Version::new("1.1"),
        Version::new("1rc0"),
        Version::new("1a1"),
        Version::new("1a10"),
        Version::new("1b2"),
    ];

    versions.sort_by(|a, b| a.partial_cmp(b).unwrap());

    let expected = vec![
        Version::new("1a1"),
        Version::new("1a10"),
        Version::new("1b2"),
        Version::new("1rc0"),
        Version::new("1"),
        Version::new("1.1a1"),
        Version::new("1.1"),
    ];

    assert_eq!(expected, versions);
}

#[test]
fn test_sort_post() {
    let mut versions = vec![
        Version::new("1.1"),
        Version::new("1.post1"),
        Version::new("1"),
        Version::new("1.post10"),
        Version::new("1-1"),
        Version::new("1.1a1.post2"),
        Version::new("1.1a1.post1"),
        Version::new("1.1a2"),
        Version::new("1.1a1"),
    ];

    versions.sort_by(|a, b| a.partial_cmp(b).unwrap());

    let expected = vec![
        Version::new("1"),
        Version::new("1-1"),
        Version::new("1.post1"),
        Version::new("1.post10"),
        Version::new("1.1a1"),
        Version::new("1.1a1.post1"),
        Version::new("1.1a1.post2"),
        Version::new("1.1a2"),
        Version::new("1.1"),
    ];

    assert_eq!(expected, versions);
}

#[test]
fn test_sort_dev() {
    let mut versions = vec![
        Version::new("1.0a1"),
        Version::new("1.dev0"),
        Version::new("1.0a2.dev456"),
        Version::new("1.0.dev456"),
        Version::new("1.0b1.dev456"),
        Version::new("1.0a12.dev456"),
        Version::new("1.0a12"),
        Version::new("1.0b2"),
        Version::new("1.0rc1.dev456"),
        Version::new("1.0b2.post345.dev456"),
        Version::new("1.0b2.post345"),
        Version::new("1.0rc1"),
        Version::new("1.1.dev1"),
        Version::new("1.0"),
        Version::new("1.0.post456"),
        Version::new("1.0.15"),
        Version::new("1.0.post456.dev34"),
    ];

    versions.sort_by(|a, b| a.partial_cmp(b).unwrap());

    let expected = vec![
        Version::new("1.dev0"),
        Version::new("1.0.dev456"),
        Version::new("1.0a1"),
        Version::new("1.0a2.dev456"),
        Version::new("1.0a12.dev456"),
        Version::new("1.0a12"),
        Version::new("1.0b1.dev456"),
        Version::new("1.0b2"),
        Version::new("1.0b2.post345.dev456"),
        Version::new("1.0b2.post345"),
        Version::new("1.0rc1.dev456"),
        Version::new("1.0rc1"),
        Version::new("1.0"),
        Version::new("1.0.post456.dev34"),
        Version::new("1.0.post456"),
        Version::new("1.0.15"),
        Version::new("1.1.dev1"),
    ];

    assert_eq!(expected, versions);
}

#[test]
fn pre_release_spellings_read_the_same() {
    let pairs = [
        ("1.0alpha1", "1.0a1"),
        ("1.0beta2", "1.0b2"),
        ("1.0c1", "1.0rc1"),
        ("1.0pre3", "1.0preview3"),
        ("1.0alpha1", "1.0-a.1"),
        ("2.1rc1.post2", "2.1c1.post2"),
    ];
    for (s, t) in pairs {
        let a = Version::new(s).unwrap();
        let b = Version::new(t).unwrap();
        assert!(a.identifier == b.identifier, "{} vs {}", s, t);
    }
}

#[test]
fn separators_around_parts_read_the_same() {
    let pairs = [
        ("1.0.post1", "1.0post1"),
        ("1.0_post1", "1.0post1"),
        ("1.0-dev2", "1.0dev2"),
        ("1.0rc1.dev2", "1.0rc1dev2"),
        ("1.0a_1", "1.0a1"),
        ("1.0.post.1", "1.0post1"),
        ("1.0-b.2-post.3_dev-4", "1.0b2post3dev4"),
    ];
    for (s, t) in pairs {
        let a = Version::new(s).unwrap();
        let b = Version::new(t).unwrap();
        assert!(a.identifier == b.identifier, "{} vs {}", s, t);
    }
}
