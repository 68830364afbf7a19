//! Turning the entries of an RSS channel or an Atom feed into Markdown
//! sections.

use crate::html2md::markdown::{fresh, lines_of, md_parse, Depths, ParserState, ScraperParser};
use crate::html2md::tree::{html_fragment_walk, node_events, parse_fragment, HtmlNode};
use crate::text::{chars_of, push_str, str_eq};
use crate::time::{format_utc, utc_display, Timestamp};
use vstd::prelude::*;

verus! {

// ---------------------------------------------------------------------------
// What the conversion reads of an entry
// ---------------------------------------------------------------------------

/// The fields of an RSS item that the conversion reads. `extensions` holds,
/// for each namespace prefix, each element name with the values of its
/// elements.
pub struct RssItem {
    pub guid: Option<String>,
    pub title: Option<String>,
    pub pub_date: Option<String>,
    pub dublin_creators: Option<Vec<String>>,
    pub extensions: Vec<(String, Vec<(String, Vec<Option<String>>)>)>,
    pub description: Option<String>,
}

/// The fields of an Atom entry that the conversion reads: the instants are
/// in UTC, `authors` are the authors' names and `content` the value of the
/// entry's content.
pub struct AtomItem {
    pub id: String,
    pub title: String,
    pub published: Option<Timestamp>,
    pub updated: Timestamp,
    pub authors: Vec<String>,
    pub content: Option<String>,
}

/// An RSS item as plain values.
pub struct RssItemView {
    pub guid: Option<Seq<char>>,
    pub title: Option<Seq<char>>,
    pub pub_date: Option<Seq<char>>,
    pub dublin_creators: Option<Seq<Seq<char>>>,
    pub extensions: Seq<(Seq<char>, Seq<(Seq<char>, Seq<Option<Seq<char>>>)>)>,
    pub description: Option<Seq<char>>,
}

pub open spec fn strings_view(v: Vec<String>) -> Seq<Seq<char>> {
    v@.map_values(|s: String| s@)
}

pub open spec fn extension_values_view(v: Vec<Option<String>>) -> Seq<Option<Seq<char>>> {
    v@.map_values(|o: Option<String>| opt_view(o))
}

pub open spec fn extension_names_view(v: Vec<(String, Vec<Option<String>>)>) -> Seq<(Seq<char>, Seq<Option<Seq<char>>>)> {
    v@.map_values(|p: (String, Vec<Option<String>>)| (p.0@, extension_values_view(p.1)))
}

pub open spec fn extensions_view(v: Vec<(String, Vec<(String, Vec<Option<String>>)>)>) -> Seq<(Seq<char>, Seq<(Seq<char>, Seq<Option<Seq<char>>>)>)> {
    v@.map_values(|p: (String, Vec<(String, Vec<Option<String>>)>)| (p.0@, extension_names_view(p.1)))
}

impl View for RssItem {
    type V = RssItemView;

    open spec fn view(&self) -> RssItemView {
        RssItemView {
            guid: opt_view(self.guid),
            title: opt_view(self.title),
            pub_date: opt_view(self.pub_date),
            dublin_creators: match self.dublin_creators {
                Some(v) => Some(strings_view(v)),
                None => None,
            },
            extensions: extensions_view(self.extensions),
            description: opt_view(self.description),
        }
    }
}

/// An Atom entry as plain values.
pub struct AtomItemView {
    pub id: Seq<char>,
    pub title: Seq<char>,
    pub published: Option<Timestamp>,
    pub updated: Timestamp,
    pub authors: Seq<Seq<char>>,
    pub content: Option<Seq<char>>,
}

impl View for AtomItem {
    type V = AtomItemView;

    open spec fn view(&self) -> AtomItemView {
        AtomItemView {
            id: self.id@,
            title: self.title@,
            published: self.published,
            updated: self.updated,
            authors: strings_view(self.authors),
            content: opt_view(self.content),
        }
    }
}

pub open spec fn rss_items_view(items: Seq<RssItem>) -> Seq<RssItemView> {
    items.map_values(|i: RssItem| i@)
}

pub open spec fn atom_items_view(entries: Seq<AtomItem>) -> Seq<AtomItemView> {
    entries.map_values(|e: AtomItem| e@)
}

/// The title and the items, in document order, of the RSS channel that
/// `rss::Channel::read_from` reads from `content`, if it reads one.
pub uninterp spec fn rss_feed(content: Seq<u8>) -> Option<(Seq<char>, Seq<RssItemView>)>;

/// The title and the entries, in document order, of the Atom feed that
/// `atom_syndication::Feed::read_from` reads from `content`, if it reads
/// one; the entries' instants in UTC.
pub uninterp spec fn atom_feed(content: Seq<u8>) -> Option<(Seq<char>, Seq<AtomItemView>)>;

/// The instant, in seconds and nanoseconds since the Unix epoch, that
/// `chrono::DateTime::parse_from_rfc2822` reads from `s`, if any.
pub uninterp spec fn rfc2822_instant(s: Seq<char>) -> Option<Timestamp>;

/// Calls `rss::Channel::read_from` on `content` and moves out of each item
/// the fields that the conversion reads: the channel's title and items, as
/// named by `rss_feed`.
#[verifier::external_body]
fn read_rss(content: &[u8]) -> (r: Option<(String, Vec<RssItem>)>)
    ensures
        rss_feed(content@) == match r {
            Some((title, items)) => Some((title@, rss_items_view(items@))),
            None => None,
        },
{
    rss::Channel::read_from(content).ok().map(|c| (c.title, c.items.into_iter().map(|i| RssItem {
        guid: i.guid.map(|g| g.value),
        title: i.title,
        pub_date: i.pub_date,
        dublin_creators: i.dublin_core_ext.map(|d| d.creators),
        extensions: i.extensions.into_iter().map(|(k, m)| (k, m.into_iter().map(|(n, es)|
            (n, es.into_iter().map(|e| e.value).collect())).collect())).collect(),
        description: i.description,
    }).collect()))
}

/// Calls `atom_syndication::Feed::read_from` on `content` and moves out of
/// each entry the fields that the conversion reads, its dates as instants:
/// the feed's title and entries, as named by `atom_feed`.
#[verifier::external_body]
fn read_atom(content: &[u8]) -> (r: Option<(String, Vec<AtomItem>)>)
    ensures
        atom_feed(content@) == match r {
            Some((title, entries)) => Some((title@, atom_items_view(entries@))),
            None => None,
        },
{
    atom_syndication::Feed::read_from(content).ok().map(|f| (f.title.value, f.entries.into_iter().map(|e| AtomItem {
        published: e.published.map(|p| Timestamp { secs: p.timestamp(), nanos: p.timestamp_subsec_nanos() }),
        updated: Timestamp { secs: e.updated.timestamp(), nanos: e.updated.timestamp_subsec_nanos() },
        content: e.content.and_then(|c| c.value),
        id: e.id,
        title: e.title.value,
        authors: e.authors.into_iter().map(|a| a.name).collect(),
    }).collect()))
}

/// Calls `chrono::DateTime::parse_from_rfc2822` on `s`: the instant read,
/// when there is one. It is named `rfc2822_instant`; the grammar of dates
/// is not stated.
#[verifier::external_body]
fn parse_rfc2822(s: &str) -> (r: Option<Timestamp>)
    ensures
        r == rfc2822_instant(s@),
{
    chrono::DateTime::parse_from_rfc2822(s).ok().map(|d| Timestamp { secs: d.timestamp(), nanos: d.timestamp_subsec_nanos() })
}

// ---------------------------------------------------------------------------
// Sections
// ---------------------------------------------------------------------------

/// A section of the Markdown output: one entry.
pub struct Section {
    pub id: String,
    pub title: String,
    pub publish_date: Option<Timestamp>,
    pub update_date: Option<Timestamp>,
    pub author: Option<String>,
    pub description: Option<String>,
}

/// A section as plain values.
pub struct SectionView {
    pub id: Seq<char>,
    pub title: Seq<char>,
    pub publish_date: Option<Timestamp>,
    pub update_date: Option<Timestamp>,
    pub author: Option<Seq<char>>,
    pub description: Option<Seq<char>>,
}

pub open spec fn opt_view(s: Option<String>) -> Option<Seq<char>> {
    match s {
        Some(t) => Some(t@),
        None => None,
    }
}

impl View for Section {
    type V = SectionView;

    open spec fn view(&self) -> SectionView {
        SectionView {
            id: self.id@,
            title: self.title@,
            publish_date: self.publish_date,
            update_date: self.update_date,
            author: opt_view(self.author),
            description: opt_view(self.description),
        }
    }
}

/// The line `label` then the date `d`, if there is one: no line without a
/// date, and `None` when the date cannot be shown.
pub open spec fn date_line(label: Seq<char>, d: Option<Timestamp>) -> Option<Seq<Seq<char>>> {
    match d {
        None => Some(Seq::<Seq<char>>::empty()),
        Some(t) => match utc_display(t.secs, t.nanos) {
            Some(text) => Some(seq![label + text]),
            None => None,
        },
    }
}

/// The line `label` then `v`, if there is a `v`.
pub open spec fn opt_line(label: Seq<char>, v: Option<Seq<char>>) -> Seq<Seq<char>> {
    match v {
        Some(x) => seq![label + x],
        None => Seq::<Seq<char>>::empty(),
    }
}

/// The printed lines of the section `s`: its title as a header, a blank
/// line, its id, its author, dates and description where it has them, and
/// a rule; `None` when one of its dates cannot be shown.
pub open spec fn section_text(s: SectionView) -> Option<Seq<Seq<char>>> {
    match (date_line("- **Published**: "@, s.publish_date), date_line("- **Updated**: "@, s.update_date)) {
        (Some(p), Some(u)) => Some(
            seq!["## "@ + s.title, Seq::<char>::empty(), "- **ID**: "@ + s.id] + opt_line(
                "- **Author**: "@,
                s.author,
            ) + p + u + match s.description {
                Some(x) => seq![x],
                None => Seq::<Seq<char>>::empty(),
            } + seq!["---"@],
        ),
        _ => None,
    }
}

/// The printed lines of a section hold all that it has: they open with its
/// title as a header and end with a rule, and they hold its id, its author
/// if it has one, its description if it has one, and each of its dates,
/// the publication date before the update; the lines exist exactly when
/// each date the section has can be shown.
pub proof fn lemma_section_text_complete(s: SectionView)
    ensures
        section_text(s) is Some <==> (
            (s.publish_date matches Some(t) ==> utc_display(t.secs, t.nanos) is Some)
            && (s.update_date matches Some(t) ==> utc_display(t.secs, t.nanos) is Some)
        ),
        section_text(s) matches Some(ls) ==> {
            &&& ls.len() >= 4
            &&& ls[0] == "## "@ + s.title
            &&& ls.last() == "---"@
            &&& ls.contains("- **ID**: "@ + s.id)
            &&& (s.author matches Some(a) ==> ls.contains("- **Author**: "@ + a))
            &&& (s.description matches Some(d) ==> ls.contains(d))
            &&& (s.publish_date matches Some(t) ==> ls.contains(
                "- **Published**: "@ + utc_display(t.secs, t.nanos)->0,
            ))
            &&& (s.update_date matches Some(t) ==> ls.contains(
                "- **Updated**: "@ + utc_display(t.secs, t.nanos)->0,
            ))
            &&& (s.publish_date is Some && s.update_date is Some ==> exists|i: int, j: int|
                0 <= i < j < ls.len() && ls[i] == "- **Published**: "@ + utc_display(
                    (s.publish_date->0).secs,
                    (s.publish_date->0).nanos,
                )->0 && ls[j] == "- **Updated**: "@ + utc_display(
                    (s.update_date->0).secs,
                    (s.update_date->0).nanos,
                )->0)
        },
{
    if let Some(ls) = section_text(s) {
        let p = date_line("- **Published**: "@, s.publish_date)->0;
        let u = date_line("- **Updated**: "@, s.update_date)->0;
        let a = opt_line("- **Author**: "@, s.author);
        let dsc = match s.description {
            Some(x) => seq![x],
            None => Seq::<Seq<char>>::empty(),
        };
        let head = seq!["## "@ + s.title, Seq::<char>::empty(), "- **ID**: "@ + s.id];
        assert(ls == head + a + p + u + dsc + seq!["---"@]);
        assert(ls[2] == "- **ID**: "@ + s.id);
        let ia: int = 3;
        let ip: int = 3 + a.len() as int;
        let iu: int = ip + p.len() as int;
        let id: int = iu + u.len() as int;
        assert(ls.last() == "---"@);
        assert(ls.contains("- **ID**: "@ + s.id));
        if let Some(x) = s.author {
            assert(ls[ia] == "- **Author**: "@ + x);
            assert(ls.contains("- **Author**: "@ + x));
        }
        if let Some(t) = s.publish_date {
            assert(ls[ip] == "- **Published**: "@ + utc_display(t.secs, t.nanos)->0);
            assert(ls.contains("- **Published**: "@ + utc_display(t.secs, t.nanos)->0));
        }
        if let Some(t) = s.update_date {
            assert(ls[iu] == "- **Updated**: "@ + utc_display(t.secs, t.nanos)->0);
            assert(ls.contains("- **Updated**: "@ + utc_display(t.secs, t.nanos)->0));
            if let Some(t1) = s.publish_date {
                assert(0 <= ip < iu < ls.len());
                assert(ls[ip] == "- **Published**: "@ + utc_display(t1.secs, t1.nanos)->0);
            }
        }
        if let Some(x) = s.description {
            assert(ls[id] == x);
            assert(ls.contains(x));
        }
    }
}

fn text_line(label: &str, value: &str) -> (r: String)
    ensures
        r@ == label@ + value@,
{
    let mut r = String::new();
    push_str(&mut r, label);
    push_str(&mut r, value);
    r
}

fn push_date(out: &mut Vec<String>, label: &str, d: Option<Timestamp>) -> (ok: bool)
    ensures
        match date_line(label@, d) {
            Some(ls) => ok && crate::html2md::markdown::lines_of(final(out)@) == crate::html2md::markdown::lines_of(old(out)@) + ls,
            None => !ok,
        },
{
    match d {
        None => {
            assert(crate::html2md::markdown::lines_of(out@) =~= crate::html2md::markdown::lines_of(out@) + Seq::<Seq<char>>::empty());
            true
        },
        Some(t) => match format_utc(t) {
            Some(text) => {
                let line = text_line(label, text.as_str());
                let ghost before = out@;
                out.push(line);
                assert(crate::html2md::markdown::lines_of(out@) =~= crate::html2md::markdown::lines_of(before) + seq![label@ + text@]);
                true
            },
            None => false,
        },
    }
}

/// The lines printed for the section `s`, or `None` when one of its dates
/// cannot be shown.
pub fn section_lines(s: &Section) -> (r: Option<Vec<String>>)
    ensures
        match r {
            Some(v) => section_text(s@) == Some(crate::html2md::markdown::lines_of(v@)),
            None => section_text(s@) is None,
        },
{
    let mut out: Vec<String> = Vec::new();
    out.push(text_line("## ", s.title.as_str()));
    out.push(String::new());
    out.push(text_line("- **ID**: ", s.id.as_str()));
    let ghost head = seq!["## "@ + s.title@, Seq::<char>::empty(), "- **ID**: "@ + s.id@];
    assert(crate::html2md::markdown::lines_of(out@) =~= head);
    if let Some(a) = &s.author {
        out.push(text_line("- **Author**: ", a.as_str()));
    }
    assert(crate::html2md::markdown::lines_of(out@) =~= head + opt_line("- **Author**: "@, s@.author));
    if !push_date(&mut out, "- **Published**: ", s.publish_date) {
        return None;
    }
    if !push_date(&mut out, "- **Updated**: ", s.update_date) {
        return None;
    }
    let ghost before_desc = out@;
    if let Some(d) = &s.description {
        out.push(d.clone());
    }
    let ghost desc = match s@.description {
        Some(x) => seq![x],
        None => Seq::<Seq<char>>::empty(),
    };
    assert(crate::html2md::markdown::lines_of(out@) =~= crate::html2md::markdown::lines_of(before_desc) + desc);
    let ghost before_rule = out@;
    let mut rule = String::new();
    push_str(&mut rule, "---");
    out.push(rule);
    assert(crate::html2md::markdown::lines_of(out@) =~= crate::html2md::markdown::lines_of(before_rule) + seq!["---"@]);
    Some(out)
}

/// The feed could not be read as RSS nor as Atom.
#[derive(Debug)]
pub enum Error {
    NotSupportedFormat,
}

/// Each line after a CR LF.
pub open spec fn crlf_lines(lines: Seq<Seq<char>>) -> Seq<char>
    decreases lines.len(),
{
    if lines.len() == 0 {
        Seq::<char>::empty()
    } else {
        crlf_lines(lines.drop_last()) + "\r\n"@ + lines.last()
    }
}

/// `md` is the Markdown of the HTML fragment `description`: the lines of
/// the conversion of its tree, each after a CR LF.
pub open spec fn is_description_of(description: Seq<char>, md: Seq<char>) -> bool {
    exists|t: HtmlNode|
        node_events(t) == html_fragment_walk(description) && md == crlf_lines(
            md_parse(fresh(ParserState::Plain), t, Depths { backquotes: 0, lists: 0 }).lines,
        )
}

/// The Markdown of the HTML fragment `description`.
pub fn convert_description(description: &str) -> (r: String)
    ensures
        is_description_of(description@, r@),
{
    let mut parser = ScraperParser::default();
    let tree = parse_fragment(description);
    if let Some(t) = &tree {
        parser.parse(t);
    }
    let lines = parser.parsed;
    let mut out = String::new();
    let mut k: usize = 0;
    while k < lines.len()
        invariant
            k <= lines@.len(),
            out@ == crlf_lines(lines_of(lines@).take(k as int)),
        decreases lines.len() - k,
    {
        let ghost before = out@;
        push_str(&mut out, "\r\n");
        push_str(&mut out, lines[k].as_str());
        assert(lines_of(lines@).take(k + 1).drop_last() =~= lines_of(lines@).take(k as int));
        assert(out@ =~= before + "\r\n"@ + lines_of(lines@)[k as int]);
        k = k + 1;
    }
    assert(lines_of(lines@).take(lines@.len() as int) =~= lines_of(lines@));
    out
}

/// `s` with each `Z` written `GMT`.
pub open spec fn replace_z(s: Seq<char>) -> Seq<char>
    decreases s.len(),
{
    if s.len() == 0 {
        Seq::<char>::empty()
    } else {
        replace_z(s.drop_last()) + if s.last() == 'Z' {
            "GMT"@
        } else {
            seq![s.last()]
        }
    }
}

fn replace_z_exec(s: &str) -> (r: String)
    ensures
        r@ == replace_z(s@),
{
    let cs = chars_of(s);
    let mut out = String::new();
    let mut k: usize = 0;
    while k < cs.len()
        invariant
            k <= cs@.len(),
            cs@ == s@,
            out@ == replace_z(cs@.take(k as int)),
        decreases cs.len() - k,
    {
        let ghost before = out@;
        if cs[k] == 'Z' {
            push_str(&mut out, "GMT");
        } else {
            out.push(cs[k]);
        }
        assert(cs@.take(k + 1).drop_last() =~= cs@.take(k as int));
        assert(out@ =~= before + if cs@[k as int] == 'Z' {
            "GMT"@
        } else {
            seq![cs@[k as int]]
        });
        k = k + 1;
    }
    assert(cs@.take(cs@.len() as int) =~= cs@);
    out
}

/// The instant of an RSS publication date: read as RFC 2822, or, failing
/// that, with each `Z` written `GMT`.
pub open spec fn rss_date(pub_date: Option<Seq<char>>) -> Option<Timestamp> {
    match pub_date {
        None => None,
        Some(d) => match rfc2822_instant(d) {
            Some(t) => Some(t),
            None => rfc2822_instant(replace_z(d)),
        },
    }
}

/// The elements named `name` in the extension entries `m`: those of the
/// first entry with that name.
pub open spec fn find_named<T>(m: Seq<(String, T)>, name: Seq<char>) -> Option<T>
    decreases m.len(),
{
    if m.len() == 0 {
        None
    } else if m[0].0@ == name {
        Some(m[0].1)
    } else {
        find_named(m.drop_first(), name)
    }
}

/// The value of the first `dc:creator` extension element, if it has one.
pub open spec fn dc_creator(ext: Seq<(String, Vec<(String, Vec<Option<String>>)>)>) -> Option<Seq<char>> {
    match find_named(ext, "dc"@) {
        Some(dc) => match find_named(dc@, "creator"@) {
            Some(creators) => if creators@.len() > 0 {
                opt_view(creators@[0])
            } else {
                None
            },
            None => None,
        },
        None => None,
    }
}

/// The author of an RSS item: its first Dublin Core creator, or else the
/// value of its first `dc:creator` extension element.
pub open spec fn rss_author(item: RssItem) -> Option<Seq<char>> {
    match item.dublin_creators {
        Some(v) if v@.len() > 0 => Some(v@[0]@),
        _ => dc_creator(item.extensions@),
    }
}

/// `s` is the section of the RSS item `item`.
pub open spec fn is_rss_section(item: RssItem, s: SectionView) -> bool {
    &&& s.id == match item.guid {
        Some(g) => g@,
        None => Seq::<char>::empty(),
    }
    &&& s.title == match item.title {
        Some(t) => t@,
        None => Seq::<char>::empty(),
    }
    &&& s.publish_date is None
    &&& s.update_date == rss_date(opt_view(item.pub_date))
    &&& s.author == rss_author(item)
    &&& match item.description {
        Some(d) => s.description matches Some(md) && is_description_of(d@, md),
        None => s.description is None,
    }
}

/// `s` is the section of the Atom entry `item`.
pub open spec fn is_atom_section(item: AtomItem, s: SectionView) -> bool {
    &&& s.id == item.id@
    &&& s.title == item.title@
    &&& s.publish_date == item.published
    &&& s.update_date == Some(item.updated)
    &&& s.author == if item.authors@.len() > 0 {
        Some(item.authors@[0]@)
    } else {
        None
    }
    &&& match item.content {
        Some(d) => s.description matches Some(md) && is_description_of(d@, md),
        None => s.description is None,
    }
}

fn clone_opt(s: &Option<String>) -> (r: Option<String>)
    ensures
        opt_view(r) == opt_view(*s),
{
    match s {
        Some(t) => Some(t.clone()),
        None => None,
    }
}

fn find_named_exec<'a, T>(m: &'a Vec<(String, T)>, name: &str) -> (r: Option<&'a T>)
    ensures
        match r {
            Some(v) => find_named(m@, name@) == Some(*v),
            None => find_named(m@, name@) is None,
        },
{
    let mut k: usize = 0;
    assert(m@.skip(0) =~= m@);
    while k < m.len()
        invariant
            k <= m@.len(),
            find_named(m@.skip(k as int), name@) == find_named(m@, name@),
        decreases m.len() - k,
    {
        assert(m@.skip(k as int).drop_first() =~= m@.skip(k + 1));
        assert(m@.skip(k as int)[0] == m@[k as int]);
        if str_eq(m[k].0.as_str(), name) {
            return Some(&m[k].1);
        }
        k = k + 1;
    }
    None
}

fn rss_author_exec(item: &RssItem) -> (r: Option<String>)
    ensures
        opt_view(r) == rss_author(*item),
{
    if let Some(v) = &item.dublin_creators {
        if v.len() > 0 {
            return Some(v[0].clone());
        }
    }
    match find_named_exec(&item.extensions, "dc") {
        Some(dc) => match find_named_exec(dc, "creator") {
            Some(creators) => if creators.len() > 0 {
                clone_opt(&creators[0])
            } else {
                None
            },
            None => None,
        },
        None => None,
    }
}

/// The section of an RSS item.
pub fn convert_entry_rss(entry: &RssItem) -> (r: Result<Section, Error>)
    ensures
        r matches Ok(s) && is_rss_section(*entry, s@),
{
    let id = match &entry.guid {
        Some(g) => g.clone(),
        None => String::new(),
    };
    let update_date = match &entry.pub_date {
        Some(pub_date) => match parse_rfc2822(pub_date.as_str()) {
            Some(t) => Some(t),
            None => {
                let npub_date = replace_z_exec(pub_date.as_str());
                parse_rfc2822(npub_date.as_str())
            },
        },
        None => None,
    };
    let author = rss_author_exec(entry);
    let description = match &entry.description {
        Some(d) => Some(convert_description(d.as_str())),
        None => None,
    };
    let title = match &entry.title {
        Some(t) => t.clone(),
        None => String::new(),
    };
    Ok(Section { id, title, publish_date: None, update_date, author, description })
}

/// The section of an Atom entry.
pub fn convert_entry_atom(entry: &AtomItem) -> (r: Result<Section, Error>)
    ensures
        r matches Ok(s) && is_atom_section(*entry, s@),
{
    let description = match &entry.content {
        Some(v) => Some(convert_description(v.as_str())),
        None => None,
    };
    let author = if entry.authors.len() > 0 {
        Some(entry.authors[0].clone())
    } else {
        None
    };
    Ok(
        Section {
            id: entry.id.clone(),
            title: entry.title.clone(),
            publish_date: entry.published,
            update_date: Some(entry.updated),
            author,
            description,
        },
    )
}

// ---------------------------------------------------------------------------
// Feeds
// ---------------------------------------------------------------------------

/// A feed read from text: an RSS channel or an Atom feed, with its title
/// and its entries in document order.
pub enum Factory {
    Rss { title: String, items: Vec<RssItem> },
    Atom { title: String, entries: Vec<AtomItem> },
}

/// An entry of a feed.
pub enum FeedEntry {
    Rss(RssItem),
    Atom(AtomItem),
}

/// The entries of a feed, first to last.
pub struct Entries {
    pub entries: Vec<FeedEntry>,
}

/// The feed in `feed`: the RSS channel if it reads as one, else the Atom
/// feed if it reads as one, each with its title and entries.
pub fn get_entry(feed: &[u8]) -> (r: Result<Factory, Error>)
    ensures
        match rss_feed(feed@) {
            Some((t, its)) => r matches Ok(Factory::Rss { title, items }) && title@ == t
                && rss_items_view(items@) == its,
            None => match atom_feed(feed@) {
                Some((t, es)) => r matches Ok(Factory::Atom { title, entries }) && title@ == t
                    && atom_items_view(entries@) == es,
                None => r matches Err(Error::NotSupportedFormat),
            },
        },
{
    match read_rss(feed) {
        Some((title, items)) => Ok(Factory::Rss { title, items }),
        None => match read_atom(feed) {
            Some((title, entries)) => Ok(Factory::Atom { title, entries }),
            None => Err(Error::NotSupportedFormat),
        },
    }
}

pub open spec fn rss_entries(items: Seq<RssItem>) -> Seq<FeedEntry> {
    items.map_values(|i: RssItem| FeedEntry::Rss(i))
}

pub open spec fn atom_entries(entries: Seq<AtomItem>) -> Seq<FeedEntry> {
    entries.map_values(|e: AtomItem| FeedEntry::Atom(e))
}

fn rss_entries_exec(items: Vec<RssItem>) -> (r: Vec<FeedEntry>)
    ensures
        r@ == rss_entries(items@),
{
    let ghost all = items@;
    let mut items = items;
    let mut out: Vec<FeedEntry> = Vec::new();
    while items.len() > 0
        invariant
            out@.len() + items@.len() == all.len(),
            items@ == all.skip(out@.len() as int),
            out@ == rss_entries(all.take(out@.len() as int)),
        decreases items.len(),
    {
        let ghost k = out@.len() as int;
        let it = items.remove(0);
        out.push(FeedEntry::Rss(it));
        assert(all.skip(k + 1) =~= all.skip(k).drop_first());
        assert(rss_entries(all.take(k + 1)) =~= rss_entries(all.take(k)).push(FeedEntry::Rss(all[k])));
    }
    assert(all.take(all.len() as int) =~= all);
    out
}

fn atom_entries_exec(entries: Vec<AtomItem>) -> (r: Vec<FeedEntry>)
    ensures
        r@ == atom_entries(entries@),
{
    let ghost all = entries@;
    let mut entries = entries;
    let mut out: Vec<FeedEntry> = Vec::new();
    while entries.len() > 0
        invariant
            out@.len() + entries@.len() == all.len(),
            entries@ == all.skip(out@.len() as int),
            out@ == atom_entries(all.take(out@.len() as int)),
        decreases entries.len(),
    {
        let ghost k = out@.len() as int;
        let it = entries.remove(0);
        out.push(FeedEntry::Atom(it));
        assert(all.skip(k + 1) =~= all.skip(k).drop_first());
        assert(atom_entries(all.take(k + 1)) =~= atom_entries(all.take(k)).push(FeedEntry::Atom(all[k])));
    }
    assert(all.take(all.len() as int) =~= all);
    out
}

impl Factory {
    /// The title of the feed and its entries, in order.
    pub fn entries(self) -> (r: (String, Entries))
        ensures
            match self {
                Factory::Rss { title, items } => r.0@ == title@ && r.1.entries@ == rss_entries(items@),
                Factory::Atom { title, entries } => r.0@ == title@ && r.1.entries@ == atom_entries(entries@),
            },
    {
        match self {
            Factory::Rss { title, items } => (title, Entries::new(rss_entries_exec(items))),
            Factory::Atom { title, entries } => (title, Entries::new(atom_entries_exec(entries))),
        }
    }
}

impl FeedEntry {
    /// The section of the entry.
    pub fn section(&self) -> (r: Section)
        ensures
            match self {
                FeedEntry::Rss(item) => is_rss_section(*item, r@),
                FeedEntry::Atom(item) => is_atom_section(*item, r@),
            },
    {
        match self {
            FeedEntry::Rss(item) => convert_entry_rss(item).unwrap(),
            FeedEntry::Atom(item) => convert_entry_atom(item).unwrap(),
        }
    }
}

impl Entries {
    pub fn new(entries: Vec<FeedEntry>) -> (r: Entries)
        ensures
            r.entries@ == entries@,
    {
        Entries { entries }
    }

    /// Takes out the first entry left, if any.
    pub fn next(&mut self) -> (r: Option<FeedEntry>)
        ensures
            old(self).entries@.len() == 0 ==> r is None && final(self).entries@ == old(self).entries@,
            old(self).entries@.len() > 0 ==> r == Some(old(self).entries@[0]) && final(self).entries@
                == old(self).entries@.drop_first(),
    {
        if self.entries.len() == 0 {
            None
        } else {
            Some(self.entries.remove(0))
        }
    }
}

} // verus!
