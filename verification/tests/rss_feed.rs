use samples::rss2md::{
    convert_description, convert_entry_atom, convert_entry_rss, get_entry, AtomItem, Entries,
    section_lines, Error, Factory, FeedEntry, RssItem, Section,
};
use samples::time::Timestamp;

fn item() -> RssItem {
    RssItem {
        guid: Some("id-1".to_string()),
        title: Some("Title".to_string()),
        pub_date: Some("Tue, 10 Jun 2003 04:00:00 GMT".to_string()),
        dublin_creators: None,
        extensions: vec![(
            "dc".to_string(),
            vec![("creator".to_string(), vec![Some("Alice".to_string())])],
        )],
        description: Some("<p>Hi</p>".to_string()),
    }
}

#[test]
fn description_lines_follow_crlf() {
    assert_eq!(convert_description("<p>Hi</p>"), "\r\n\r\nHi\r\n\r\n");
    assert_eq!(convert_description("plain"), "\r\nplain");
}

#[test]
fn rss_item_section() {
    let s = convert_entry_rss(&item()).ok().unwrap();
    assert_eq!(s.id, "id-1");
    assert_eq!(s.title, "Title");
    assert_eq!(s.publish_date, None);
    assert_eq!(s.update_date, Some(Timestamp { secs: 1055217600, nanos: 0 }));
    assert_eq!(s.author, Some("Alice".to_string()));
    assert_eq!(s.description, Some("\r\n\r\nHi\r\n\r\n".to_string()));
}

#[test]
fn rss_item_defaults() {
    let mut it = item();
    it.guid = None;
    it.title = None;
    it.pub_date = Some("not a date".to_string());
    it.extensions = vec![];
    it.description = None;
    let s = convert_entry_rss(&it).ok().unwrap();
    assert_eq!(s.id, "");
    assert_eq!(s.title, "");
    assert_eq!(s.update_date, None);
    assert_eq!(s.author, None);
    assert_eq!(s.description, None);
}

#[test]
fn rss_dates_in_zulu_time() {
    let mut it = item();
    it.pub_date = Some("Tue, 10 Jun 2003 04:00:00 Z".to_string());
    let s = convert_entry_rss(&it).ok().unwrap();
    assert_eq!(s.update_date, Some(Timestamp { secs: 1055217600, nanos: 0 }));
}

#[test]
fn dublin_core_creators_come_first() {
    let mut it = item();
    it.dublin_creators = Some(vec!["Bob".to_string()]);
    assert_eq!(convert_entry_rss(&it).ok().unwrap().author, Some("Bob".to_string()));
    it.dublin_creators = Some(vec![]);
    assert_eq!(convert_entry_rss(&it).ok().unwrap().author, Some("Alice".to_string()));
}

#[test]
fn atom_entry_section() {
    let entry = AtomItem {
        id: "urn:1".to_string(),
        title: "Atom".to_string(),
        published: Some(Timestamp { secs: 10, nanos: 0 }),
        updated: Timestamp { secs: 20, nanos: 5 },
        authors: vec!["Carol".to_string(), "Dan".to_string()],
        content: Some("plain".to_string()),
    };
    let s = convert_entry_atom(&entry).ok().unwrap();
    assert_eq!(s.id, "urn:1");
    assert_eq!(s.title, "Atom");
    assert_eq!(s.publish_date, Some(Timestamp { secs: 10, nanos: 0 }));
    assert_eq!(s.update_date, Some(Timestamp { secs: 20, nanos: 5 }));
    assert_eq!(s.author, Some("Carol".to_string()));
    assert_eq!(s.description, Some("\r\nplain".to_string()));
}

const RSS: &str = r#"<?xml version="1.0"?>
<rss version="2.0" xmlns:dc="http://purl.org/dc/elements/1.1/">
<channel><title>Feed</title><link>http://x/</link><description>d</description>
<item><title>One</title><guid>g1</guid><dc:creator>Eve</dc:creator></item>
<item><title>Two</title></item>
</channel></rss>"#;

const ATOM: &str = r#"<?xml version="1.0" encoding="utf-8"?>
<feed xmlns="http://www.w3.org/2005/Atom"><title>Atom Feed</title><id>urn:f</id>
<updated>2003-12-13T18:30:02Z</updated>
<entry><title>E</title><id>urn:e</id><updated>2003-12-13T18:30:02Z</updated></entry>
</feed>"#;

#[test]
fn feeds_are_read_as_rss_or_atom() {
    let factory = get_entry(RSS.as_bytes()).ok().unwrap();
    assert!(matches!(factory, Factory::Rss { .. }));
    let (title, mut entries) = factory.entries();
    assert_eq!(title, "Feed");
    let first = entries.next().unwrap();
    let s = first.section();
    assert_eq!(s.title, "One");
    assert_eq!(s.id, "g1");
    assert_eq!(s.author, Some("Eve".to_string()));
    assert!(matches!(entries.next(), Some(FeedEntry::Rss(_))));
    assert!(entries.next().is_none());

    let factory = get_entry(ATOM.as_bytes()).ok().unwrap();
    let (title, mut entries) = factory.entries();
    assert_eq!(title, "Atom Feed");
    let s = entries.next().unwrap().section();
    assert_eq!(s.title, "E");
    assert_eq!(s.update_date, Some(Timestamp { secs: 1071340202, nanos: 0 }));

    assert!(matches!(get_entry(b"not a feed"), Err(Error::NotSupportedFormat)));
    let empty = Entries::new(vec![]);
    assert!(empty.entries.is_empty());
}

#[test]
fn entries_come_out_once_each_in_document_order() {
    let factory = get_entry(RSS.as_bytes()).ok().unwrap();
    let (_, mut entries) = factory.entries();
    let first = entries.next().unwrap().section();
    let second = entries.next().unwrap().section();
    assert!(entries.next().is_none());
    assert_eq!(first.title, "One");
    assert_eq!(second.title, "Two");
    assert_ne!(second.id, first.id);
}

#[test]
fn section_is_printed_as_markdown_lines() {
    let s = Section {
        id: "g1".to_string(),
        title: "One".to_string(),
        publish_date: None,
        update_date: Some(Timestamp { secs: 1071340202, nanos: 0 }),
        author: Some("Eve".to_string()),
        description: Some("\r\ntext".to_string()),
    };
    let expected: Vec<String> = [
        "## One",
        "",
        "- **ID**: g1",
        "- **Author**: Eve",
        "- **Updated**: 2003-12-13 18:30:02 UTC",
        "\r\ntext",
        "---",
    ]
    .iter()
    .map(|l| l.to_string())
    .collect();
    assert_eq!(section_lines(&s), Some(expected));
    let far = Section { update_date: Some(Timestamp { secs: i64::MAX, nanos: 0 }), ..s };
    assert_eq!(section_lines(&far), None);
}
