//! The Markdown converter: a walk over the document tree that appends to a
//! list of output lines.

use crate::html2md::tree::{is_named, kid, kids_len, HtmlAttribute, HtmlNode};
use crate::text::{chars_of, push_str, str_eq};
use vstd::prelude::*;

verus! {

/// What the converter is inside of.
#[derive(Clone, Copy, PartialEq, Eq, Structural)]
pub enum ParserState {
    Plain,
    Formated,
    NoBreak,
    TableData,
    TableHeader,
}

/// The state of a conversion: the lines written so far, the last one open.
pub struct ScraperParser {
    pub parsed: Vec<String>,
    pub state: ParserState,
}

/// The lines of a conversion and the state it is in.
pub struct Markdown {
    pub lines: Seq<Seq<char>>,
    pub state: ParserState,
}

pub open spec fn lines_of(v: Seq<String>) -> Seq<Seq<char>> {
    v.map_values(|s: String| s@)
}

impl View for ScraperParser {
    type V = Markdown;

    open spec fn view(&self) -> Markdown {
        Markdown { lines: lines_of(self.parsed@), state: self.state }
    }
}

/// A fresh conversion in the state `state`: one empty line.
pub open spec fn fresh(state: ParserState) -> Markdown {
    Markdown { lines: seq![Seq::<char>::empty()], state }
}

/// How many `backquote` and how many list elements enclose a node.
#[derive(Clone, Copy)]
pub struct Depths {
    pub backquotes: usize,
    pub lists: usize,
}

/// One more, where it fits.
pub open spec fn inc(x: usize) -> usize {
    if x < usize::MAX {
        (x + 1) as usize
    } else {
        x
    }
}

/// The depths of the children of `n`, which lies at depths `d`.
pub open spec fn child_depths(n: HtmlNode, d: Depths) -> Depths {
    Depths {
        backquotes: if is_named(n, "backquote"@) {
            inc(d.backquotes)
        } else {
            d.backquotes
        },
        lists: if is_named(n, "ol"@) || is_named(n, "ul"@) {
            inc(d.lists)
        } else {
            d.lists
        },
    }
}

// ---------------------------------------------------------------------------
// Writing text
// ---------------------------------------------------------------------------

/// `lines` with `c` appended to its last line.
pub open spec fn push_last(lines: Seq<Seq<char>>, c: char) -> Seq<Seq<char>> {
    lines.update(lines.len() - 1, lines.last().push(c))
}

/// Writes `text[i..]` to `lines`, `cr` telling whether the character just
/// before was a carriage return. Line breaks are dropped, except in
/// preformatted text, where each starts a line but a line feed right after
/// a carriage return, which ends the same line.
pub open spec fn insert_from(lines: Seq<Seq<char>>, formated: bool, text: Seq<char>, i: int, cr: bool) -> Seq<Seq<char>>
    decreases text.len() - i,
{
    if i < 0 || i >= text.len() {
        lines
    } else {
        let c = text[i];
        if c != '\r' && c != '\n' {
            insert_from(push_last(lines, c), formated, text, i + 1, false)
        } else if formated {
            if !cr || c == '\r' {
                insert_from(lines.push(Seq::<char>::empty()), formated, text, i + 1, c == '\r')
            } else {
                insert_from(lines, formated, text, i + 1, c == '\r')
            }
        } else {
            insert_from(lines, formated, text, i + 1, cr)
        }
    }
}

/// Writes `text` at the end of the last line.
pub open spec fn insert_text(m: Markdown, text: Seq<char>) -> Markdown {
    if m.lines.len() == 0 {
        m
    } else {
        Markdown {
            lines: insert_from(m.lines, m.state == ParserState::Formated, text, 0, false),
            state: m.state,
        }
    }
}

/// Starts a new line; inside a table cell, writes a space instead.
pub open spec fn newline(m: Markdown) -> Markdown {
    if m.state == ParserState::NoBreak {
        insert_text(m, " "@)
    } else {
        Markdown { lines: m.lines.push(Seq::<char>::empty()), state: m.state }
    }
}

/// Starts a new line unless the last one is empty.
pub open spec fn newline_if_need(m: Markdown) -> Markdown {
    if m.lines.len() > 0 && m.lines.last().len() > 0 {
        newline(m)
    } else {
        m
    }
}

/// `s` written `n` times.
pub open spec fn repeat(s: Seq<char>, n: nat) -> Seq<char>
    decreases n,
{
    if n == 0 {
        Seq::<char>::empty()
    } else {
        repeat(s, (n - 1) as nat) + s
    }
}

/// The horizontal rule.
pub open spec fn convert_hr(m: Markdown) -> Markdown {
    newline(newline(insert_text(newline(newline_if_need(m)), "----"@)))
}

/// The value of the first attribute named `href` with no prefix and no
/// namespace.
pub open spec fn link_href(attrs: Seq<HtmlAttribute>) -> Option<Seq<char>>
    decreases attrs.len(),
{
    if attrs.len() == 0 {
        None
    } else if attrs[0].prefix is None && attrs[0].ns@.len() == 0 && attrs[0].local@ == "href"@ {
        Some(attrs[0].value@)
    } else {
        link_href(attrs.drop_first())
    }
}

/// The `href` of a link element.
pub open spec fn node_href(n: HtmlNode) -> Option<Seq<char>> {
    match n {
        HtmlNode::Element { attrs, .. } => link_href(attrs@),
        _ => None,
    }
}

// ---------------------------------------------------------------------------
// Writing the lines of a nested conversion
// ---------------------------------------------------------------------------

/// Each non-empty line of `lines[j..]` after `prefix`, on a line of its
/// own.
pub open spec fn quote_lines(m: Markdown, lines: Seq<Seq<char>>, j: int, prefix: Seq<char>) -> Markdown
    decreases lines.len() - j,
{
    if j < 0 || j >= lines.len() {
        m
    } else if lines[j].len() == 0 {
        quote_lines(m, lines, j + 1, prefix)
    } else {
        quote_lines(newline(insert_text(m, prefix + lines[j])), lines, j + 1, prefix)
    }
}

/// The list items of `lines[j..]`: each non-empty line on a new line after
/// the indent and the marker, the marker turning to blanks after the
/// first.
pub open spec fn item_lines(m: Markdown, lines: Seq<Seq<char>>, j: int, indent: Seq<char>, mark: Seq<char>, blanks: Seq<char>) -> Markdown
    decreases lines.len() - j,
{
    if j < 0 || j >= lines.len() {
        m
    } else if lines[j].len() == 0 {
        item_lines(m, lines, j + 1, indent, mark, blanks)
    } else {
        item_lines(
            insert_text(newline(m), indent + mark + lines[j]),
            lines,
            j + 1,
            indent,
            blanks,
            blanks,
        )
    }
}

/// Each line of `lines[j..]` indented by four spaces, on a line of its own.
pub open spec fn code_lines(m: Markdown, lines: Seq<Seq<char>>, j: int) -> Markdown
    decreases lines.len() - j,
{
    if j < 0 || j >= lines.len() {
        m
    } else {
        code_lines(newline(insert_text(m, "    "@ + lines[j])), lines, j + 1)
    }
}

/// Each non-empty line of `lines[j..]` on a new line.
pub open spec fn row_lines(m: Markdown, lines: Seq<Seq<char>>, j: int) -> Markdown
    decreases lines.len() - j,
{
    if j < 0 || j >= lines.len() {
        m
    } else if lines[j].len() == 0 {
        row_lines(m, lines, j + 1)
    } else {
        row_lines(insert_text(newline(m), lines[j]), lines, j + 1)
    }
}

/// The cells `cells` joined by ` | `.
pub open spec fn join_cells(cells: Seq<Seq<char>>) -> Seq<char>
    decreases cells.len(),
{
    if cells.len() == 0 {
        Seq::<char>::empty()
    } else if cells.len() == 1 {
        cells[0]
    } else {
        join_cells(cells.drop_last()) + " | "@ + cells.last()
    }
}

/// The separator under a header cell: as many dashes as the cell has
/// bytes in UTF-8, and at least three.
pub open spec fn rule_of(cell: Seq<char>) -> Seq<char> {
    let n = vstd::utf8::encode_utf8(cell).len();
    repeat("-"@, if n < 3 {
        3
    } else {
        n
    })
}

/// The lines of a row without the last, open one.
pub open spec fn row_cells(lines: Seq<Seq<char>>) -> Seq<Seq<char>> {
    if lines.len() > 0 {
        lines.drop_last()
    } else {
        lines
    }
}

/// The row written as `| a | b |`, then, after a header row, the separator
/// line.
pub open spec fn write_row(m: Markdown, cells: Seq<Seq<char>>) -> Markdown {
    let joined = join_cells(cells);
    let m1 = if joined.len() > 0 {
        insert_text(m, "| "@ + joined + " |"@)
    } else {
        m
    };
    if m.state == ParserState::TableHeader {
        insert_text(newline(m1), "| "@ + join_cells(cells.map_values(|c: Seq<char>| rule_of(c))) + " |"@)
    } else {
        m1
    }
}

// ---------------------------------------------------------------------------
// The walk over the tree
// ---------------------------------------------------------------------------

/// The conversion `m` after the node `n`, which lies at depths `d`.
pub open spec fn md_parse(m: Markdown, n: HtmlNode, d: Depths) -> Markdown
    decreases n, kids_len(n) + 3,
{
    match n {
        HtmlNode::Text(t) => insert_text(m, t@),
        HtmlNode::Element { name, .. } => {
            if m.state == ParserState::Formated {
                insert_text(md_children(insert_text(m, "<"@ + name@ + ">"@), n, 0, d), "</"@ + name@ + ">"@)
            } else if name@ == "a"@ {
                md_link(m, n, d)
            } else if name@ == "backquote"@ {
                md_backquote(m, n, d)
            } else if name@ == "br"@ {
                newline(m)
            } else if name@ == "code"@ {
                md_decorate(m, n, d, "`"@)
            } else if name@ == "div"@ || name@ == "p"@ {
                newline(newline_if_need(md_children(newline(newline_if_need(m)), n, 0, d)))
            } else if name@ == "b"@ || name@ == "em"@ || name@ == "strong"@ {
                md_decorate(m, n, d, "**"@)
            } else if name@ == "del"@ || name@ == "s"@ {
                md_decorate(m, n, d, "~~"@)
            } else if name@ == "h1"@ {
                md_header(m, n, d, 1)
            } else if name@ == "h2"@ {
                md_header(m, n, d, 2)
            } else if name@ == "h3"@ {
                md_header(m, n, d, 3)
            } else if name@ == "head"@ || name@ == "script"@ || name@ == "style"@ {
                m
            } else if name@ == "hr"@ {
                convert_hr(m)
            } else if name@ == "i"@ {
                md_decorate(m, n, d, "*"@)
            } else if name@ == "li"@ {
                md_children(m, n, 0, d)
            } else if name@ == "ol"@ {
                md_list(m, n, d, "1. "@)
            } else if name@ == "pre"@ {
                md_formated(m, n, d)
            } else if name@ == "tbody"@ || name@ == "thead"@ {
                md_table(m, n, d)
            } else if name@ == "tr"@ {
                md_row(m, n, d)
            } else if name@ == "ul"@ {
                md_list(m, n, d, "* "@)
            } else {
                md_children(m, n, 0, d)
            }
        },
        HtmlNode::Other { .. } => md_children(m, n, 0, d),
    }
}

/// The conversion `m` after the children `i..` of `n`.
pub open spec fn md_children(m: Markdown, n: HtmlNode, i: int, d: Depths) -> Markdown
    decreases n, kids_len(n) - i,
{
    if 0 <= i < kids_len(n) {
        md_children(md_parse(m, kid(n, i), child_depths(n, d)), n, i + 1, d)
    } else {
        m
    }
}

/// The first line that the children of `n` make in a fresh conversion.
pub open spec fn children_text(n: HtmlNode, d: Depths) -> Option<Seq<char>>
    decreases n, kids_len(n) + 1,
{
    let sub = md_children(fresh(ParserState::Plain), n, 0, d);
    if sub.lines.len() > 0 {
        Some(sub.lines[0])
    } else {
        None
    }
}

/// A link: `[text](href)`, or the text alone without an `href`.
pub open spec fn md_link(m: Markdown, n: HtmlNode, d: Depths) -> Markdown
    decreases n, kids_len(n) + 2,
{
    match children_text(n, d) {
        Some(text) => match node_href(n) {
            Some(link) => insert_text(m, "["@ + text + "]("@ + link + ")"@),
            None => insert_text(m, text),
        },
        None => m,
    }
}

/// The text of `n` between two copies of `decorator`.
pub open spec fn md_decorate(m: Markdown, n: HtmlNode, d: Depths, decorator: Seq<char>) -> Markdown
    decreases n, kids_len(n) + 2,
{
    match children_text(n, d) {
        Some(text) => insert_text(m, decorator + text + decorator),
        None => m,
    }
}

/// A header of `level` hashes, on a line of its own.
pub open spec fn md_header(m: Markdown, n: HtmlNode, d: Depths, level: nat) -> Markdown
    decreases n, kids_len(n) + 2,
{
    match children_text(n, d) {
        Some(title) => newline(insert_text(newline(m), repeat("#"@, level) + " "@ + title)),
        None => m,
    }
}

/// The quoted lines of the children `i..` of the block quote `n`.
pub open spec fn md_quote_children(m: Markdown, n: HtmlNode, i: int, d: Depths) -> Markdown
    decreases n, kids_len(n) - i,
{
    if 0 <= i < kids_len(n) {
        let sub = md_parse(fresh(ParserState::Plain), kid(n, i), child_depths(n, d));
        md_quote_children(
            quote_lines(m, sub.lines, 0, repeat("> "@, child_depths(n, d).backquotes as nat)),
            n,
            i + 1,
            d,
        )
    } else {
        m
    }
}

/// A block quote: each line of its children after one `> ` per enclosing
/// quote, then a line of those marks alone.
pub open spec fn md_backquote(m: Markdown, n: HtmlNode, d: Depths) -> Markdown
    decreases n, kids_len(n) + 2,
{
    newline(
        insert_text(
            md_quote_children(m, n, 0, d),
            repeat("> "@, child_depths(n, d).backquotes as nat),
        ),
    )
}

/// The items among the children `i..` of the list `n`.
pub open spec fn md_list_children(m: Markdown, n: HtmlNode, i: int, d: Depths, mark: Seq<char>) -> Markdown
    decreases n, kids_len(n) - i,
{
    if 0 <= i < kids_len(n) {
        let next = if is_named(kid(n, i), "li"@) {
            let sub = md_parse(fresh(ParserState::Plain), kid(n, i), child_depths(n, d));
            let blanks = repeat(" "@, vstd::utf8::encode_utf8(mark).len());
            item_lines(m, sub.lines, 0, repeat(blanks, d.lists as nat), mark, blanks)
        } else {
            m
        };
        md_list_children(next, n, i + 1, d, mark)
    } else {
        m
    }
}

/// A list whose items are marked with `mark`, indented by the lists that
/// enclose it.
pub open spec fn md_list(m: Markdown, n: HtmlNode, d: Depths, mark: Seq<char>) -> Markdown
    decreases n, kids_len(n) + 2,
{
    newline(md_list_children(m, n, 0, d, mark))
}

/// Preformatted text: the children converted as tags and text, each line
/// indented by four spaces.
pub open spec fn md_formated(m: Markdown, n: HtmlNode, d: Depths) -> Markdown
    decreases n, kids_len(n) + 2,
{
    code_lines(m, md_children(fresh(ParserState::Formated), n, 0, d).lines, 0)
}

/// The state of the conversion of a table row, and that of the table
/// after it starts: the first row is the header, the second starts the
/// data.
pub open spec fn row_states(table: ParserState) -> (ParserState, ParserState) {
    if table == ParserState::Plain {
        (ParserState::TableHeader, ParserState::TableHeader)
    } else if table == ParserState::TableHeader {
        (ParserState::TableData, ParserState::TableData)
    } else {
        (table, ParserState::Plain)
    }
}

/// The rows among the children `i..` of the table body `n`.
pub open spec fn md_table_children(m: Markdown, n: HtmlNode, i: int, d: Depths) -> Markdown
    decreases n, kids_len(n) - i,
{
    if 0 <= i < kids_len(n) {
        let next = if is_named(kid(n, i), "tr"@) {
            let (table, row) = row_states(m.state);
            let sub = md_parse(fresh(row), kid(n, i), child_depths(n, d));
            row_lines(Markdown { lines: m.lines, state: table }, sub.lines, 0)
        } else {
            m
        };
        md_table_children(next, n, i + 1, d)
    } else {
        m
    }
}

/// A table body: its rows, then a new line.
pub open spec fn md_table(m: Markdown, n: HtmlNode, d: Depths) -> Markdown
    decreases n, kids_len(n) + 2,
{
    let t = md_table_children(m, n, 0, d);
    newline(Markdown { lines: t.lines, state: ParserState::Plain })
}

/// The cells among the children `i..` of the row `n`, each converted on
/// one line.
pub open spec fn md_cells(m: Markdown, n: HtmlNode, i: int, d: Depths) -> Markdown
    decreases n, kids_len(n) - i,
{
    if 0 <= i < kids_len(n) {
        let next = if is_named(kid(n, i), "td"@) || is_named(kid(n, i), "th"@) {
            let sub = md_parse(
                Markdown { lines: m.lines, state: ParserState::NoBreak },
                kid(n, i),
                child_depths(n, d),
            );
            newline(Markdown { lines: sub.lines, state: m.state })
        } else {
            m
        };
        md_cells(next, n, i + 1, d)
    } else {
        m
    }
}

/// A table row.
pub open spec fn md_row(m: Markdown, n: HtmlNode, d: Depths) -> Markdown
    decreases n, kids_len(n) + 2,
{
    write_row(m, row_cells(md_cells(fresh(ParserState::Plain), n, 0, d).lines))
}

// ---------------------------------------------------------------------------
// Text helpers
// ---------------------------------------------------------------------------

/// `a`, `b` and `c` one after the other.
fn concat3(a: &str, b: &str, c: &str) -> (r: String)
    ensures
        r@ == a@ + b@ + c@,
{
    let mut r = String::new();
    push_str(&mut r, a);
    push_str(&mut r, b);
    push_str(&mut r, c);
    assert(r@ =~= a@ + b@ + c@);
    r
}

/// `s` written `n` times.
fn repeat_str(s: &str, n: usize) -> (r: String)
    ensures
        r@ == repeat(s@, n as nat),
{
    let mut r = String::new();
    let mut k: usize = 0;
    while k < n
        invariant
            k <= n,
            r@ == repeat(s@, k as nat),
        decreases n - k,
    {
        push_str(&mut r, s);
        k = k + 1;
    }
    r
}

/// The children of a node, when it can have any.
fn children_of(html: &HtmlNode) -> (r: Option<&Vec<HtmlNode>>)
    ensures
        match r {
            Some(v) => v@.len() == kids_len(*html) && forall|i: int|
                0 <= i < v@.len() ==> #[trigger] v@[i] == kid(*html, i),
            None => kids_len(*html) == 0,
        },
{
    match html {
        HtmlNode::Element { children, .. } => Some(children),
        HtmlNode::Other { children } => Some(children),
        HtmlNode::Text(_) => None,
    }
}

fn named(html: &HtmlNode, l: &str) -> (r: bool)
    ensures
        r == is_named(*html, l@),
{
    match html {
        HtmlNode::Element { name, .. } => str_eq(name.as_str(), l),
        _ => false,
    }
}

fn inc_exec(x: usize) -> (r: usize)
    ensures
        r == inc(x),
{
    if x < usize::MAX {
        x + 1
    } else {
        x
    }
}

proof fn lemma_lines_push(v: Seq<String>, s: String)
    ensures
        lines_of(v.push(s)) == lines_of(v).push(s@),
{
    assert(lines_of(v.push(s)) =~= lines_of(v).push(s@));
}

impl Default for ScraperParser {
    /// A conversion with one empty line.
    fn default() -> (r: Self)
        ensures
            r@ == fresh(ParserState::Plain),
    {
        ScraperParser::with_state(ParserState::Plain)
    }
}

impl ScraperParser {
    /// Converts the document tree `html`, from its root.
    pub fn parse(&mut self, html: &HtmlNode)
        ensures
            final(self)@ == md_parse(old(self)@, *html, Depths { backquotes: 0, lists: 0 }),
    {
        self.parse_node(html, Depths { backquotes: 0, lists: 0 });
    }

    pub fn is_backquote(&self, html: &HtmlNode) -> (r: bool)
        ensures
            r == is_named(*html, "backquote"@),
    {
        named(html, "backquote")
    }

    pub fn is_table_data(&self, html: &HtmlNode) -> (r: bool)
        ensures
            r == is_named(*html, "td"@),
    {
        named(html, "td")
    }

    pub fn is_table_header(&self, html: &HtmlNode) -> (r: bool)
        ensures
            r == is_named(*html, "th"@),
    {
        named(html, "th")
    }

    pub fn is_table_row(&self, html: &HtmlNode) -> (r: bool)
        ensures
            r == is_named(*html, "tr"@),
    {
        named(html, "tr")
    }

    pub fn is_list(&self, html: &HtmlNode) -> (r: bool)
        ensures
            r == (is_named(*html, "ol"@) || is_named(*html, "ul"@)),
    {
        named(html, "ol") || named(html, "ul")
    }

    /// The depths of the children of `html`, which lies at depths `d`.
    fn child_depths_of(&self, html: &HtmlNode, d: Depths) -> (r: Depths)
        ensures
            r == child_depths(*html, d),
    {
        Depths {
            backquotes: if self.is_backquote(html) {
                inc_exec(d.backquotes)
            } else {
                d.backquotes
            },
            lists: if self.is_list(html) {
                inc_exec(d.lists)
            } else {
                d.lists
            },
        }
    }

    pub fn is_list_item(&self, html: &HtmlNode) -> (r: bool)
        ensures
            r == is_named(*html, "li"@),
    {
        named(html, "li")
    }
}

impl ScraperParser {
    /// A conversion in the state `state`, with one empty line.
    pub fn with_state(state: ParserState) -> (r: ScraperParser)
        ensures
            r@ == fresh(state),
    {
        let mut parsed: Vec<String> = Vec::new();
        parsed.push(String::new());
        assert(lines_of(parsed@) =~= seq![Seq::<char>::empty()]);
        ScraperParser { parsed, state }
    }

    /// Writes `text` at the end of the last line (see `insert_from`).
    pub fn insert_text(&mut self, text: &str)
        ensures
            final(self)@ == insert_text(old(self)@, text@),
    {
        if self.parsed.len() == 0 {
            return;
        }
        let cs = chars_of(text);
        let formated = self.state == ParserState::Formated;
        let ghost start = old(self)@.lines;
        let mut cur = self.parsed.pop().unwrap();
        proof {
            lemma_lines_push(self.parsed@, cur);
            assert(old(self).parsed@ =~= self.parsed@.push(cur));
        }
        let mut cr = false;
        let mut i: usize = 0;
        while i < cs.len()
            invariant
                i <= cs@.len(),
                cs@ == text@,
                self.state == old(self).state,
                formated == (self.state == ParserState::Formated),
                start == old(self)@.lines,
                start.len() > 0,
                insert_from(lines_of(self.parsed@).push(cur@), formated, cs@, i as int, cr)
                    == insert_from(start, formated, cs@, 0, false),
            decreases cs.len() - i,
        {
            let c = cs[i];
            let ghost l0 = lines_of(self.parsed@).push(cur@);
            let ghost cr0 = cr;
            if c != '\r' && c != '\n' {
                cur.push(c);
                cr = false;
                assert(push_last(l0, c) =~= lines_of(self.parsed@).push(cur@));
            } else if formated {
                if !cr || c == '\r' {
                    let ghost p0 = self.parsed@;
                    let done = cur;
                    self.parsed.push(done);
                    cur = String::new();
                    proof {
                        lemma_lines_push(p0, done);
                    }
                    assert(lines_of(self.parsed@).push(cur@) =~= l0.push(Seq::<char>::empty()));
                }
                cr = c == '\r';
            }
            assert(insert_from(l0, formated, cs@, i as int, cr0) == insert_from(
                lines_of(self.parsed@).push(cur@),
                formated,
                cs@,
                i + 1,
                cr,
            ));
            i = i + 1;
        }
        let ghost rest = self.parsed@;
        self.parsed.push(cur);
        proof {
            lemma_lines_push(rest, cur);
        }
    }

    /// Starts a new line; inside a table cell, writes a space instead.
    pub fn newline(&mut self)
        ensures
            final(self)@ == newline(old(self)@),
    {
        if self.state == ParserState::NoBreak {
            self.insert_text(" ");
        } else {
            let ghost before = self.parsed@;
            self.parsed.push(String::new());
            assert(lines_of(self.parsed@) =~= lines_of(before).push(Seq::<char>::empty()));
        }
    }

    /// Starts a new line unless the last one is empty.
    pub fn newline_if_need(&mut self)
        ensures
            final(self)@ == newline_if_need(old(self)@),
    {
        let n = self.parsed.len();
        if n > 0 && !self.parsed[n - 1].as_str().is_empty() {
            self.newline();
        }
    }

    /// The horizontal rule.
    pub fn convert_hr(&mut self)
        ensures
            final(self)@ == convert_hr(old(self)@),
    {
        self.newline_if_need();
        self.newline();
        self.insert_text("----");
        self.newline();
        self.newline();
    }
}

/// `a` then `b`.
fn concat2(a: &str, b: &str) -> (r: String)
    ensures
        r@ == a@ + b@,
{
    let mut r = String::new();
    push_str(&mut r, a);
    push_str(&mut r, b);
    assert(r@ =~= a@ + b@);
    r
}

/// The first `n` of `cells` joined by ` | `.
fn join_first(cells: &Vec<String>, n: usize) -> (r: String)
    requires
        n <= cells@.len(),
    ensures
        r@ == join_cells(lines_of(cells@).take(n as int)),
{
    let mut r = String::new();
    let mut k: usize = 0;
    while k < n
        invariant
            k <= n,
            n <= cells@.len(),
            r@ == join_cells(lines_of(cells@).take(k as int)),
        decreases n - k,
    {
        let ghost before = r@;
        if k > 0 {
            push_str(&mut r, " | ");
        }
        push_str(&mut r, cells[k].as_str());
        assert(lines_of(cells@).take(k + 1).drop_last() =~= lines_of(cells@).take(k as int));
        if k == 0 {
            assert(r@ =~= lines_of(cells@)[0]);
        } else {
            assert(r@ =~= before + " | "@ + lines_of(cells@)[k as int]);
        }
        k = k + 1;
    }
    r
}

/// The separator under a header cell.
fn rule_exec(cell: &str) -> (r: String)
    ensures
        r@ == rule_of(cell@),
{
    let n = cell.as_bytes().len();
    let w = if n < 3 {
        3
    } else {
        n
    };
    repeat_str("-", w)
}

impl ScraperParser {
    /// The children of `html` in turn.
    pub fn parse_children(&mut self, html: &HtmlNode, d: Depths)
        ensures
            final(self)@ == md_children(old(self)@, *html, 0, d),
        decreases html, kids_len(*html) + 1,
    {
        match children_of(html) {
            Some(children) => {
                let mut i: usize = 0;
                while i < children.len()
                    invariant
                        i <= children@.len(),
                        children@.len() == kids_len(*html),
                        forall|k: int| 0 <= k < children@.len() ==> #[trigger] children@[k] == kid(*html, k),
                        md_children(self@, *html, i as int, d) == md_children(old(self)@, *html, 0, d),
                    decreases children.len() - i,
                {
                    let cd = self.child_depths_of(html, d);
                    self.parse_node(&children[i], cd);
                    i = i + 1;
                }
            },
            None => {},
        }
    }

    /// The conversion after the node `html`, which lies at depths `d`.
    pub fn parse_node(&mut self, html: &HtmlNode, d: Depths)
        ensures
            final(self)@ == md_parse(old(self)@, *html, d),
        decreases html, kids_len(*html) + 4,
    {
        match html {
            HtmlNode::Text(t) => {
                self.insert_text(t.as_str());
            },
            HtmlNode::Element { name, .. } => {
                let name = name.as_str();
                if self.state == ParserState::Formated {
                    let open = concat3("<", name, ">");
                    self.insert_text(open.as_str());
                    self.parse_children(html, d);
                    let close = concat3("</", name, ">");
                    self.insert_text(close.as_str());
                } else if str_eq(name, "a") {
                    self.convert_link(html, d);
                } else if str_eq(name, "backquote") {
                    self.convert_backquote(html, d);
                } else if str_eq(name, "br") {
                    self.newline();
                } else if str_eq(name, "code") {
                    self.decorate_text(html, d, "`");
                } else if str_eq(name, "div") || str_eq(name, "p") {
                    self.newline_if_need();
                    self.newline();
                    self.parse_children(html, d);
                    self.newline_if_need();
                    self.newline();
                } else if str_eq(name, "b") || str_eq(name, "em") || str_eq(name, "strong") {
                    self.decorate_text(html, d, "**");
                } else if str_eq(name, "del") || str_eq(name, "s") {
                    self.decorate_text(html, d, "~~");
                } else if str_eq(name, "h1") {
                    self.convert_header(1, html, d);
                } else if str_eq(name, "h2") {
                    self.convert_header(2, html, d);
                } else if str_eq(name, "h3") {
                    self.convert_header(3, html, d);
                } else if str_eq(name, "head") || str_eq(name, "script") || str_eq(name, "style") {
                } else if str_eq(name, "hr") {
                    self.convert_hr();
                } else if str_eq(name, "i") {
                    self.decorate_text(html, d, "*");
                } else if str_eq(name, "li") {
                    self.parse_children(html, d);
                } else if str_eq(name, "ol") {
                    self.convert_list(html, d, "1. ");
                } else if str_eq(name, "pre") {
                    self.convert_formated(html, d);
                } else if str_eq(name, "tbody") || str_eq(name, "thead") {
                    self.convert_table(html, d);
                } else if str_eq(name, "tr") {
                    self.convert_table_row(html, d);
                } else if str_eq(name, "ul") {
                    self.convert_list(html, d, "* ");
                } else {
                    self.parse_children(html, d);
                }
            },
            HtmlNode::Other { .. } => {
                self.parse_children(html, d);
            },
        }
    }

    /// The first line that the children of `html` make in a fresh
    /// conversion.
    fn children_text(html: &HtmlNode, d: Depths) -> (r: Option<String>)
        ensures
            match r {
                Some(s) => children_text(*html, d) == Some(s@),
                None => children_text(*html, d) is None,
            },
        decreases html, kids_len(*html) + 2,
    {
        let mut sub = ScraperParser::default();
        sub.parse_children(html, d);
        let mut lines = sub.parsed;
        if lines.len() > 0 {
            Some(lines.swap_remove(0))
        } else {
            None
        }
    }

    /// A link: `[text](href)`, or the text alone without an `href`.
    fn convert_link(&mut self, html: &HtmlNode, d: Depths)
        ensures
            final(self)@ == md_link(old(self)@, *html, d),
        decreases html, kids_len(*html) + 3,
    {
        if let Some(text) = ScraperParser::children_text(html, d) {
            if let Some(link) = self.get_link_href(html) {
                let mut t = concat3("[", text.as_str(), "](");
                push_str(&mut t, link.as_str());
                push_str(&mut t, ")");
                assert(t@ =~= "["@ + text@ + "]("@ + link@ + ")"@);
                self.insert_text(t.as_str());
            } else {
                self.insert_text(text.as_str());
            }
        }
    }

    /// The text of `html` between two copies of `decorater`.
    fn decorate_text(&mut self, html: &HtmlNode, d: Depths, decorater: &str)
        ensures
            final(self)@ == md_decorate(old(self)@, *html, d, decorater@),
        decreases html, kids_len(*html) + 3,
    {
        if let Some(text) = ScraperParser::children_text(html, d) {
            let t = concat3(decorater, text.as_str(), decorater);
            self.insert_text(t.as_str());
        }
    }

    /// A header of `level` hashes.
    fn convert_header(&mut self, level: usize, html: &HtmlNode, d: Depths)
        ensures
            final(self)@ == md_header(old(self)@, *html, d, level as nat),
        decreases html, kids_len(*html) + 3,
    {
        if let Some(title) = ScraperParser::children_text(html, d) {
            self.newline();
            let hashes = repeat_str("#", level);
            let t = concat3(hashes.as_str(), " ", title.as_str());
            self.insert_text(t.as_str());
            self.newline();
        }
    }

    /// The `href` of a link element.
    fn get_link_href(&self, html: &HtmlNode) -> (r: Option<String>)
        ensures
            match r {
                Some(s) => node_href(*html) == Some(s@),
                None => node_href(*html) is None,
            },
    {
        match html {
            HtmlNode::Element { attrs, .. } => {
                let mut k: usize = 0;
                assert(attrs@.skip(0) =~= attrs@);
                while k < attrs.len()
                    invariant
                        k <= attrs@.len(),
                        node_href(*html) == link_href(attrs@),
                        link_href(attrs@.skip(k as int)) == link_href(attrs@),
                    decreases attrs.len() - k,
                {
                    assert(attrs@.skip(k as int).drop_first() =~= attrs@.skip(k + 1));
                    let a = &attrs[k];
                    assert(attrs@.skip(k as int)[0] == attrs@[k as int]);
                    if a.prefix.is_none() && a.ns.as_str().is_empty() && str_eq(a.local.as_str(), "href") {
                        return Some(a.value.clone());
                    }
                    k = k + 1;
                }
                None
            },
            _ => None,
        }
    }

    /// A block quote.
    fn convert_backquote(&mut self, html: &HtmlNode, d: Depths)
        ensures
            final(self)@ == md_backquote(old(self)@, *html, d),
        decreases html, kids_len(*html) + 3,
    {
        let cd = self.child_depths_of(html, d);
        let prefix = repeat_str("> ", cd.backquotes);
        if let Some(children) = children_of(html) {
            let mut i: usize = 0;
            while i < children.len()
                invariant
                    i <= children@.len(),
                    children@.len() == kids_len(*html),
                    forall|k: int| 0 <= k < children@.len() ==> #[trigger] children@[k] == kid(*html, k),
                    cd == child_depths(*html, d),
                    prefix@ == repeat("> "@, cd.backquotes as nat),
                    md_quote_children(self@, *html, i as int, d) == md_quote_children(
                        old(self)@,
                        *html,
                        0,
                        d,
                    ),
                decreases children.len() - i,
            {
                let mut sub = ScraperParser::default();
                sub.parse_node(&children[i], cd);
                let lines = sub.parsed;
                let ghost m0 = self@;
                let mut j: usize = 0;
                while j < lines.len()
                    invariant
                        j <= lines@.len(),
                        quote_lines(self@, lines_of(lines@), j as int, prefix@) == quote_lines(
                            m0,
                            lines_of(lines@),
                            0,
                            prefix@,
                        ),
                    decreases lines.len() - j,
                {
                    if !lines[j].as_str().is_empty() {
                        let t = concat2(prefix.as_str(), lines[j].as_str());
                        self.insert_text(t.as_str());
                        self.newline();
                    }
                    j = j + 1;
                }
                i = i + 1;
            }
        }
        self.insert_text(prefix.as_str());
        self.newline();
    }

    /// A list whose items are marked with `prefix`.
    fn convert_list(&mut self, html: &HtmlNode, d: Depths, prefix: &str)
        ensures
            final(self)@ == md_list(old(self)@, *html, d, prefix@),
        decreases html, kids_len(*html) + 3,
    {
        let cd = self.child_depths_of(html, d);
        let blanks = repeat_str(" ", prefix.as_bytes().len());
        let indent = repeat_str(blanks.as_str(), d.lists);
        if let Some(children) = children_of(html) {
            let mut i: usize = 0;
            while i < children.len()
                invariant
                    i <= children@.len(),
                    children@.len() == kids_len(*html),
                    forall|k: int| 0 <= k < children@.len() ==> #[trigger] children@[k] == kid(*html, k),
                    cd == child_depths(*html, d),
                    blanks@ == repeat(" "@, vstd::utf8::encode_utf8(prefix@).len()),
                    indent@ == repeat(blanks@, d.lists as nat),
                    md_list_children(self@, *html, i as int, d, prefix@) == md_list_children(
                        old(self)@,
                        *html,
                        0,
                        d,
                        prefix@,
                    ),
                decreases children.len() - i,
            {
                if self.is_list_item(&children[i]) {
                    let mut sub = ScraperParser::default();
                    sub.parse_node(&children[i], cd);
                    let lines = sub.parsed;
                    let ghost m0 = self@;
                    let mut mark: &str = prefix;
                    let mut j: usize = 0;
                    while j < lines.len()
                        invariant
                            j <= lines@.len(),
                            mark@ == prefix@ || mark@ == blanks@,
                            item_lines(self@, lines_of(lines@), j as int, indent@, mark@, blanks@)
                                == item_lines(m0, lines_of(lines@), 0, indent@, prefix@, blanks@),
                        decreases lines.len() - j,
                    {
                        if !lines[j].as_str().is_empty() {
                            self.newline();
                            let t = concat3(indent.as_str(), mark, lines[j].as_str());
                            self.insert_text(t.as_str());
                            mark = blanks.as_str();
                        }
                        j = j + 1;
                    }
                }
                i = i + 1;
            }
        }
        self.newline();
    }

    /// Preformatted text, each line indented by four spaces.
    fn convert_formated(&mut self, html: &HtmlNode, d: Depths)
        ensures
            final(self)@ == md_formated(old(self)@, *html, d),
        decreases html, kids_len(*html) + 3,
    {
        let mut sub = ScraperParser::with_state(ParserState::Formated);
        sub.parse_children(html, d);
        let lines = sub.parsed;
        let ghost m0 = self@;
        let mut j: usize = 0;
        while j < lines.len()
            invariant
                j <= lines@.len(),
                code_lines(self@, lines_of(lines@), j as int) == code_lines(m0, lines_of(lines@), 0),
            decreases lines.len() - j,
        {
            let t = concat2("    ", lines[j].as_str());
            self.insert_text(t.as_str());
            self.newline();
            j = j + 1;
        }
    }

    /// A table body: its rows, then a new line.
    fn convert_table(&mut self, html: &HtmlNode, d: Depths)
        ensures
            final(self)@ == md_table(old(self)@, *html, d),
        decreases html, kids_len(*html) + 3,
    {
        let cd = self.child_depths_of(html, d);
        if let Some(children) = children_of(html) {
            let mut i: usize = 0;
            while i < children.len()
                invariant
                    i <= children@.len(),
                    children@.len() == kids_len(*html),
                    forall|k: int| 0 <= k < children@.len() ==> #[trigger] children@[k] == kid(*html, k),
                    cd == child_depths(*html, d),
                    md_table_children(self@, *html, i as int, d) == md_table_children(
                        old(self)@,
                        *html,
                        0,
                        d,
                    ),
                decreases children.len() - i,
            {
                if self.is_table_row(&children[i]) {
                    let mut sub = ScraperParser::default();
                    if self.state == ParserState::Plain {
                        self.state = ParserState::TableHeader;
                        sub.state = self.state;
                    } else if self.state == ParserState::TableHeader {
                        self.state = ParserState::TableData;
                        sub.state = self.state;
                    }
                    sub.parse_node(&children[i], cd);
                    let lines = sub.parsed;
                    let ghost m0 = self@;
                    let mut j: usize = 0;
                    while j < lines.len()
                        invariant
                            j <= lines@.len(),
                            row_lines(self@, lines_of(lines@), j as int) == row_lines(m0, lines_of(lines@), 0),
                        decreases lines.len() - j,
                    {
                        if !lines[j].as_str().is_empty() {
                            self.newline();
                            self.insert_text(lines[j].as_str());
                        }
                        j = j + 1;
                    }
                }
                i = i + 1;
            }
        }
        self.state = ParserState::Plain;
        self.newline();
    }

    /// A table row: its cells joined on one line, then, after the header
    /// row, the separator line.
    fn convert_table_row(&mut self, html: &HtmlNode, d: Depths)
        ensures
            final(self)@ == md_row(old(self)@, *html, d),
        decreases html, kids_len(*html) + 3,
    {
        let cd = self.child_depths_of(html, d);
        let mut sub = ScraperParser::default();
        if let Some(children) = children_of(html) {
            let mut i: usize = 0;
            while i < children.len()
                invariant
                    i <= children@.len(),
                    children@.len() == kids_len(*html),
                    forall|k: int| 0 <= k < children@.len() ==> #[trigger] children@[k] == kid(*html, k),
                    cd == child_depths(*html, d),
                    md_cells(sub@, *html, i as int, d) == md_cells(fresh(ParserState::Plain), *html, 0, d),
                decreases children.len() - i,
            {
                if self.is_table_data(&children[i]) || self.is_table_header(&children[i]) {
                    let pre_state = sub.state;
                    sub.state = ParserState::NoBreak;
                    sub.parse_node(&children[i], cd);
                    sub.state = pre_state;
                    sub.newline();
                }
                i = i + 1;
            }
        }
        let lines = sub.parsed;
        let count = if lines.len() > 0 {
            lines.len() - 1
        } else {
            0
        };
        let ghost cells = row_cells(lines_of(lines@));
        assert(lines_of(lines@).take(count as int) =~= cells);
        let joined = join_first(&lines, count);
        if !joined.as_str().is_empty() {
            let t = concat3("| ", joined.as_str(), " |");
            self.insert_text(t.as_str());
        }
        if self.state == ParserState::TableHeader {
            self.newline();
            let mut rules: Vec<String> = Vec::new();
            let mut k: usize = 0;
            while k < count
                invariant
                    k <= count,
                    count <= lines@.len(),
                    rules@.len() == k,
                    forall|q: int| 0 <= q < k ==> #[trigger] rules@[q]@ == rule_of(lines@[q]@),
                decreases count - k,
            {
                rules.push(rule_exec(lines[k].as_str()));
                k = k + 1;
            }
            assert(lines_of(rules@).take(count as int) =~= cells.map_values(|c: Seq<char>| rule_of(c)));
            let sep = join_first(&rules, count);
            let t = concat3("| ", sep.as_str(), " |");
            self.insert_text(t.as_str());
        }
    }
}

} // verus!
