use samples::html2md::markdown::{ParserState, ScraperParser};
use samples::html2md::tree::{parse_document, parse_fragment, tree_of_events, HtmlAttribute, HtmlEvent, HtmlNode};

fn convert(html: &str) -> Vec<String> {
    let tree = parse_document(html).unwrap();
    let mut parser = ScraperParser::default();
    parser.parse(&tree);
    parser.parsed
}

fn lines(v: &[&str]) -> Vec<String> {
    v.iter().map(|s| s.to_string()).collect()
}

#[test]
fn paragraph_with_bold_text() {
    assert_eq!(convert("<p>Hello <b>world</b></p>"), lines(&["", "Hello **world**", "", ""]));
}

#[test]
fn unordered_list() {
    assert_eq!(convert("<ul><li>a</li><li>b</li></ul>"), lines(&["", "* a", "* b", ""]));
}

#[test]
fn nested_ordered_list_is_indented() {
    assert_eq!(
        convert("<ol><li>a<ol><li>b</li></ol></li></ol>"),
        lines(&["", "1. a", "      1. b", ""])
    );
}

#[test]
fn table_with_header_row() {
    assert_eq!(
        convert("<table><tr><th>A</th><th>Bee</th></tr><tr><td>1</td><td>2</td></tr></table>"),
        lines(&["", "| A | Bee |", "| --- | --- |", "| 1 | 2 |", ""])
    );
}

#[test]
fn headers_links_and_decorations() {
    assert_eq!(convert("<h2>Title</h2>"), lines(&["", "## Title", ""]));
    assert_eq!(
        convert("<a href=\"http://x/\">link</a><a>bare</a>"),
        lines(&["[link](http://x/)bare"])
    );
    assert_eq!(
        convert("<i>i</i><em>e</em><del>d</del><code>c</code>"),
        lines(&["*i***e**~~d~~`c`"])
    );
}

#[test]
fn head_script_and_style_are_skipped() {
    assert_eq!(
        convert("<html><head><title>t</title></head><body><script>x()</script>text</body></html>"),
        lines(&["text"])
    );
}

#[test]
fn rule_and_breaks() {
    assert_eq!(convert("a<hr>b"), lines(&["a", "", "----", "", "b"]));
    assert_eq!(convert("a<br>b"), lines(&["a", "b"]));
}

#[test]
fn preformatted_text_keeps_line_breaks() {
    assert_eq!(
        convert("<pre>x\r\ny <b>z</b></pre>"),
        lines(&["    x", "    y <b>z</b>", ""])
    );
}

#[test]
fn block_quote_marks_each_line() {
    assert_eq!(
        convert("<backquote><p>q</p></backquote>"),
        lines(&["> q", "> ", ""])
    );
}

#[test]
fn insert_text_drops_line_breaks_outside_pre() {
    let mut p = ScraperParser::default();
    p.insert_text("a\r\nb\nc");
    assert_eq!(p.parsed, lines(&["abc"]));
    let mut f = ScraperParser::with_state(ParserState::Formated);
    f.insert_text("a\r\nb\n\nc\rd");
    assert_eq!(f.parsed, lines(&["a", "b", "", "c", "d"]));
    p.newline_if_need();
    p.newline_if_need();
    assert_eq!(p.parsed, lines(&["abc", ""]));
    p.convert_hr();
    assert_eq!(p.parsed, lines(&["abc", "", "----", "", ""]));
}

#[test]
fn cells_write_spaces_for_line_breaks() {
    let mut p = ScraperParser::with_state(ParserState::NoBreak);
    p.insert_text("a");
    p.newline();
    p.insert_text("b");
    assert_eq!(p.parsed, lines(&["a b"]));
}

#[test]
fn trees_rebuild_from_their_walks() {
    let events = vec![
        HtmlEvent::OpenOther,
        HtmlEvent::OpenElement {
            name: "a".to_string(),
            attrs: vec![HtmlAttribute {
                prefix: None,
                ns: String::new(),
                local: "href".to_string(),
                value: "u".to_string(),
            }],
        },
        HtmlEvent::OpenText("t".to_string()),
        HtmlEvent::Close,
        HtmlEvent::Close,
        HtmlEvent::Close,
    ];
    let tree = tree_of_events(&events).unwrap();
    match &tree {
        HtmlNode::Other { children } => assert_eq!(children.len(), 1),
        _ => panic!("not the root"),
    }
    let mut p = ScraperParser::default();
    p.parse(&tree);
    assert_eq!(p.parsed, lines(&["[t](u)"]));
    assert!(tree_of_events(&vec![HtmlEvent::OpenOther]).is_none());
    assert!(tree_of_events(&vec![HtmlEvent::Close]).is_none());
    assert!(tree_of_events(&vec![HtmlEvent::OpenText("x".to_string()), HtmlEvent::OpenOther]).is_none());
}

#[test]
fn fragments_parse_too() {
    let tree = parse_fragment("<p>Hi</p>").unwrap();
    let mut p = ScraperParser::default();
    p.parse(&tree);
    assert_eq!(p.parsed, lines(&["", "Hi", "", ""]));
}

#[test]
fn converting_more_only_appends() {
    let mut parser = ScraperParser::default();
    parser.insert_text("intro");
    let before = parser.parsed.clone();
    let tree = parse_document("<p>Hello</p><ul><li>a</li></ul>").unwrap();
    parser.parse(&tree);
    assert!(parser.parsed.len() >= before.len());
    assert!(parser.parsed[0].starts_with(&before[0]));
    assert_eq!(parser.parsed[0], "intro");
    assert_eq!(parser.parsed[1], "");
    assert_eq!(parser.parsed[2], "Hello");
}

#[test]
fn preformatted_text_skips_only_lf_right_after_cr() {
    let mut parser = ScraperParser::with_state(ParserState::Formated);
    parser.insert_text("a\rb\nc");
    assert_eq!(parser.parsed, lines(&["a", "b", "c"]));
    let mut parser = ScraperParser::with_state(ParserState::Formated);
    parser.insert_text("a\r\nb\n\nc");
    assert_eq!(parser.parsed, lines(&["a", "b", "", "c"]));
}

#[test]
fn converted_lines_hold_no_line_break() {
    let tree = parse_document("<pre>x\r\ny\rz</pre><p>a\nb</p>").unwrap();
    let mut parser = ScraperParser::default();
    parser.parse(&tree);
    for line in &parser.parsed {
        assert!(!line.contains('\r') && !line.contains('\n'));
    }
}
