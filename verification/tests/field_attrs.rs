use samples::field_attr::{FieldAttrDefault, FieldAttrDefaultPath, FieldAttrValue};
use samples::paths::{file_stem, path_file_name};
use std::str::FromStr;

#[test]
fn values_read_and_write_as_letters() {
    assert_eq!(FieldAttrValue::parse("A"), Ok(FieldAttrValue::A));
    assert_eq!(FieldAttrValue::parse("B"), Ok(FieldAttrValue::B));
    assert_eq!(FieldAttrValue::parse("C"), Err("invalid value: C".to_string()));
    assert_eq!(FieldAttrValue::parse("AB"), Err("invalid value: AB".to_string()));
    assert_eq!(FieldAttrValue::from_str("A"), Ok(FieldAttrValue::A));
    assert_eq!(FieldAttrValue::A.to_string(), "A");
    assert_eq!(FieldAttrValue::B.to_string(), "B");
}

#[test]
fn defaults_are_b() {
    assert_eq!(FieldAttrValue::value(), FieldAttrValue::B);
    assert_eq!(FieldAttrValue::default(), FieldAttrValue::B);
    let d = FieldAttrDefault { default_: FieldAttrValue::default() };
    let p = FieldAttrDefaultPath { default_: FieldAttrValue::value() };
    assert_eq!(d.default_, p.default_);
}

#[test]
fn paths_keep_their_file_name() {
    assert_eq!(path_file_name("/path/to/../file.txt"), Some("file.txt".to_string()));
    assert_eq!(path_file_name("dir/name/"), Some("name".to_string()));
    assert_eq!(path_file_name("a/./"), Some("a".to_string()));
    assert_eq!(path_file_name("/"), None);
    assert_eq!(path_file_name("a/.."), None);
    assert_eq!(path_file_name("."), None);
    assert_eq!(path_file_name(""), None);
}

#[test]
fn file_stems() {
    assert_eq!(file_stem("app/hello.py"), Some("hello".to_string()));
    assert_eq!(file_stem("app/archive.tar.gz"), Some("archive.tar".to_string()));
    assert_eq!(file_stem(".bashrc"), Some(".bashrc".to_string()));
    assert_eq!(file_stem("noext"), Some("noext".to_string()));
    assert_eq!(file_stem("dir/"), Some("dir".to_string()));
    assert_eq!(file_stem("/"), None);
}

#[test]
fn written_value_reads_back() {
    for v in [FieldAttrValue::A, FieldAttrValue::B] {
        assert_eq!(FieldAttrValue::parse(&v.to_string()), Ok(v));
    }
}
