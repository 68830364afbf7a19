//! What every step of the conversion keeps: it only writes after what is
//! already written, and no line it writes holds a line break.

use crate::html2md::markdown::{
    code_lines, convert_hr, insert_from, insert_text, item_lines, md_backquote, md_children,
    md_decorate, md_formated, md_header, md_link, md_list, md_list_children, md_parse,
    md_quote_children, md_row, md_table, md_table_children, newline, newline_if_need, push_last,
    quote_lines, row_lines, row_states, write_row, Depths, Markdown, ParserState, children_text,
    fresh, repeat,
};
use crate::html2md::tree::{kids_len, HtmlNode};
use vstd::prelude::*;

verus! {

/// `b` continues `a`: the lines of `a` but the last are kept, the last one
/// is a prefix of its counterpart in `b`, and `b` may hold more lines.
pub open spec fn continues(a: Seq<Seq<char>>, b: Seq<Seq<char>>) -> bool {
    &&& a.len() <= b.len()
    &&& forall|i: int| 0 <= i < a.len() - 1 ==> #[trigger] b[i] == a[i]
    &&& a.len() > 0 ==> a.last().is_prefix_of(b[a.len() - 1])
}

/// No line of `lines` holds a carriage return or a line feed.
pub open spec fn no_breaks(lines: Seq<Seq<char>>) -> bool {
    forall|i: int, j: int|
        0 <= i < lines.len() && 0 <= j < lines[i].len() ==> #[trigger] lines[i][j] != '\r' && lines[i][j]
            != '\n'
}

proof fn lemma_continues_refl(a: Seq<Seq<char>>)
    ensures
        continues(a, a),
        no_breaks(a) ==> no_breaks(a),
{
    if a.len() > 0 {
        assert(a.last().subrange(0, a.last().len() as int) =~= a.last());
    }
}

proof fn lemma_continues_trans(a: Seq<Seq<char>>, b: Seq<Seq<char>>, c: Seq<Seq<char>>)
    requires
        continues(a, b),
        continues(b, c),
    ensures
        continues(a, c),
{
    if a.len() > 0 {
        let k = a.len() - 1;
        if b.len() - 1 > k {
            assert(c[k] == b[k]);
        } else {
            let x = a.last();
            let y = b[k];
            let z = c[k];
            assert(x.is_prefix_of(y) && y.is_prefix_of(z));
            assert(z.subrange(0, x.len() as int) =~= y.subrange(0, x.len() as int));
        }
    }
}

proof fn lemma_push_last(lines: Seq<Seq<char>>, c: char)
    requires
        lines.len() > 0,
        c != '\r' && c != '\n',
    ensures
        continues(lines, push_last(lines, c)),
        no_breaks(lines) ==> no_breaks(push_last(lines, c)),
{
    let r = push_last(lines, c);
    assert(lines.last().is_prefix_of(r[lines.len() - 1])) by {
        assert(r[lines.len() - 1].subrange(0, lines.last().len() as int) =~= lines.last());
    }
}

proof fn lemma_push_line(lines: Seq<Seq<char>>)
    ensures
        continues(lines, lines.push(Seq::<char>::empty())),
        no_breaks(lines) ==> no_breaks(lines.push(Seq::<char>::empty())),
{
    if lines.len() > 0 {
        assert(lines.last().subrange(0, lines.last().len() as int) =~= lines.last());
    }
}

proof fn lemma_insert_from(lines: Seq<Seq<char>>, formated: bool, text: Seq<char>, i: int, cr: bool)
    requires
        lines.len() > 0,
    ensures
        continues(lines, insert_from(lines, formated, text, i, cr)),
        no_breaks(lines) ==> no_breaks(insert_from(lines, formated, text, i, cr)),
    decreases text.len() - i,
{
    if 0 <= i < text.len() {
        let c = text[i];
        if c != '\r' && c != '\n' {
            lemma_push_last(lines, c);
            lemma_insert_from(push_last(lines, c), formated, text, i + 1, false);
            lemma_continues_trans(lines, push_last(lines, c), insert_from(lines, formated, text, i, cr));
        } else if formated {
            if !cr || c == '\r' {
                let next = lines.push(Seq::<char>::empty());
                lemma_push_line(lines);
                lemma_insert_from(next, formated, text, i + 1, c == '\r');
                lemma_continues_trans(lines, next, insert_from(lines, formated, text, i, cr));
            } else {
                lemma_insert_from(lines, formated, text, i + 1, c == '\r');
            }
        } else {
            lemma_insert_from(lines, formated, text, i + 1, cr);
        }
    } else {
        lemma_continues_refl(lines);
    }
}

proof fn lemma_insert_text(m: Markdown, text: Seq<char>)
    ensures
        continues(m.lines, insert_text(m, text).lines),
        no_breaks(m.lines) ==> no_breaks(insert_text(m, text).lines),
        insert_text(m, text).state == m.state,
{
    if m.lines.len() == 0 {
        lemma_continues_refl(m.lines);
    } else {
        lemma_insert_from(m.lines, m.state == ParserState::Formated, text, 0, false);
    }
}

proof fn lemma_newline(m: Markdown)
    ensures
        continues(m.lines, newline(m).lines),
        no_breaks(m.lines) ==> no_breaks(newline(m).lines),
        newline(m).state == m.state,
{
    if m.state == ParserState::NoBreak {
        lemma_insert_text(m, " "@);
    } else {
        lemma_push_line(m.lines);
    }
}

proof fn lemma_newline_if_need(m: Markdown)
    ensures
        continues(m.lines, newline_if_need(m).lines),
        no_breaks(m.lines) ==> no_breaks(newline_if_need(m).lines),
        newline_if_need(m).state == m.state,
{
    if m.lines.len() > 0 && m.lines.last().len() > 0 {
        lemma_newline(m);
    } else {
        lemma_continues_refl(m.lines);
    }
}

/// Writing `text` and then starting a line.
proof fn lemma_text_then_line(m: Markdown, text: Seq<char>)
    ensures
        continues(m.lines, newline(insert_text(m, text)).lines),
        no_breaks(m.lines) ==> no_breaks(newline(insert_text(m, text)).lines),
        newline(insert_text(m, text)).state == m.state,
{
    lemma_insert_text(m, text);
    lemma_newline(insert_text(m, text));
    lemma_continues_trans(m.lines, insert_text(m, text).lines, newline(insert_text(m, text)).lines);
}

/// Starting a line and then writing `text`.
proof fn lemma_line_then_text(m: Markdown, text: Seq<char>)
    ensures
        continues(m.lines, insert_text(newline(m), text).lines),
        no_breaks(m.lines) ==> no_breaks(insert_text(newline(m), text).lines),
        insert_text(newline(m), text).state == m.state,
{
    lemma_newline(m);
    lemma_insert_text(newline(m), text);
    lemma_continues_trans(m.lines, newline(m).lines, insert_text(newline(m), text).lines);
}

proof fn lemma_quote_lines(m: Markdown, lines: Seq<Seq<char>>, j: int, prefix: Seq<char>)
    ensures
        continues(m.lines, quote_lines(m, lines, j, prefix).lines),
        no_breaks(m.lines) ==> no_breaks(quote_lines(m, lines, j, prefix).lines),
        quote_lines(m, lines, j, prefix).state == m.state,
    decreases lines.len() - j,
{
    if 0 <= j < lines.len() {
        if lines[j].len() == 0 {
            lemma_quote_lines(m, lines, j + 1, prefix);
        } else {
            let next = newline(insert_text(m, prefix + lines[j]));
            lemma_text_then_line(m, prefix + lines[j]);
            lemma_quote_lines(next, lines, j + 1, prefix);
            lemma_continues_trans(m.lines, next.lines, quote_lines(m, lines, j, prefix).lines);
        }
    } else {
        lemma_continues_refl(m.lines);
    }
}

proof fn lemma_item_lines(
    m: Markdown,
    lines: Seq<Seq<char>>,
    j: int,
    indent: Seq<char>,
    mark: Seq<char>,
    blanks: Seq<char>,
)
    ensures
        continues(m.lines, item_lines(m, lines, j, indent, mark, blanks).lines),
        no_breaks(m.lines) ==> no_breaks(item_lines(m, lines, j, indent, mark, blanks).lines),
        item_lines(m, lines, j, indent, mark, blanks).state == m.state,
    decreases lines.len() - j,
{
    if 0 <= j < lines.len() {
        if lines[j].len() == 0 {
            lemma_item_lines(m, lines, j + 1, indent, mark, blanks);
        } else {
            let next = insert_text(newline(m), indent + mark + lines[j]);
            lemma_line_then_text(m, indent + mark + lines[j]);
            lemma_item_lines(next, lines, j + 1, indent, blanks, blanks);
            lemma_continues_trans(
                m.lines,
                next.lines,
                item_lines(m, lines, j, indent, mark, blanks).lines,
            );
        }
    } else {
        lemma_continues_refl(m.lines);
    }
}

proof fn lemma_code_lines(m: Markdown, lines: Seq<Seq<char>>, j: int)
    ensures
        continues(m.lines, code_lines(m, lines, j).lines),
        no_breaks(m.lines) ==> no_breaks(code_lines(m, lines, j).lines),
    decreases lines.len() - j,
{
    if 0 <= j < lines.len() {
        let next = newline(insert_text(m, "    "@ + lines[j]));
        lemma_text_then_line(m, "    "@ + lines[j]);
        lemma_code_lines(next, lines, j + 1);
        lemma_continues_trans(m.lines, next.lines, code_lines(m, lines, j).lines);
    } else {
        lemma_continues_refl(m.lines);
    }
}

proof fn lemma_row_lines(m: Markdown, lines: Seq<Seq<char>>, j: int)
    ensures
        continues(m.lines, row_lines(m, lines, j).lines),
        no_breaks(m.lines) ==> no_breaks(row_lines(m, lines, j).lines),
        row_lines(m, lines, j).state == m.state,
    decreases lines.len() - j,
{
    if 0 <= j < lines.len() {
        if lines[j].len() == 0 {
            lemma_row_lines(m, lines, j + 1);
        } else {
            let next = insert_text(newline(m), lines[j]);
            lemma_line_then_text(m, lines[j]);
            lemma_row_lines(next, lines, j + 1);
            lemma_continues_trans(m.lines, next.lines, row_lines(m, lines, j).lines);
        }
    } else {
        lemma_continues_refl(m.lines);
    }
}

proof fn lemma_quote_children(m: Markdown, n: HtmlNode, i: int, d: Depths)
    ensures
        continues(m.lines, md_quote_children(m, n, i, d).lines),
        no_breaks(m.lines) ==> no_breaks(md_quote_children(m, n, i, d).lines),
    decreases kids_len(n) - i,
{
    if 0 <= i < kids_len(n) {
        let sub = md_parse(
            crate::html2md::markdown::fresh(ParserState::Plain),
            crate::html2md::tree::kid(n, i),
            crate::html2md::markdown::child_depths(n, d),
        );
        let prefix = crate::html2md::markdown::repeat(
            "> "@,
            crate::html2md::markdown::child_depths(n, d).backquotes as nat,
        );
        let next = quote_lines(m, sub.lines, 0, prefix);
        lemma_quote_lines(m, sub.lines, 0, prefix);
        lemma_quote_children(next, n, i + 1, d);
        lemma_continues_trans(m.lines, next.lines, md_quote_children(m, n, i, d).lines);
    } else {
        lemma_continues_refl(m.lines);
    }
}

proof fn lemma_list_children(m: Markdown, n: HtmlNode, i: int, d: Depths, mark: Seq<char>)
    ensures
        continues(m.lines, md_list_children(m, n, i, d, mark).lines),
        no_breaks(m.lines) ==> no_breaks(md_list_children(m, n, i, d, mark).lines),
    decreases kids_len(n) - i,
{
    if 0 <= i < kids_len(n) {
        let kid = crate::html2md::tree::kid(n, i);
        let next = if crate::html2md::tree::is_named(kid, "li"@) {
            let sub = md_parse(
                crate::html2md::markdown::fresh(ParserState::Plain),
                kid,
                crate::html2md::markdown::child_depths(n, d),
            );
            let blanks = crate::html2md::markdown::repeat(
                " "@,
                vstd::utf8::encode_utf8(mark).len(),
            );
            let indent = crate::html2md::markdown::repeat(blanks, d.lists as nat);
            lemma_item_lines(m, sub.lines, 0, indent, mark, blanks);
            item_lines(m, sub.lines, 0, indent, mark, blanks)
        } else {
            lemma_continues_refl(m.lines);
            m
        };
        lemma_list_children(next, n, i + 1, d, mark);
        lemma_continues_trans(m.lines, next.lines, md_list_children(m, n, i, d, mark).lines);
    } else {
        lemma_continues_refl(m.lines);
    }
}

proof fn lemma_table_children(m: Markdown, n: HtmlNode, i: int, d: Depths)
    ensures
        continues(m.lines, md_table_children(m, n, i, d).lines),
        no_breaks(m.lines) ==> no_breaks(md_table_children(m, n, i, d).lines),
    decreases kids_len(n) - i,
{
    if 0 <= i < kids_len(n) {
        let kid = crate::html2md::tree::kid(n, i);
        let next = if crate::html2md::tree::is_named(kid, "tr"@) {
            let (table, row) = row_states(m.state);
            let sub = md_parse(
                crate::html2md::markdown::fresh(row),
                kid,
                crate::html2md::markdown::child_depths(n, d),
            );
            let start = Markdown { lines: m.lines, state: table };
            lemma_row_lines(start, sub.lines, 0);
            row_lines(start, sub.lines, 0)
        } else {
            lemma_continues_refl(m.lines);
            m
        };
        lemma_table_children(next, n, i + 1, d);
        lemma_continues_trans(m.lines, next.lines, md_table_children(m, n, i, d).lines);
    } else {
        lemma_continues_refl(m.lines);
    }
}

proof fn lemma_write_row(m: Markdown, cells: Seq<Seq<char>>)
    ensures
        continues(m.lines, write_row(m, cells).lines),
        no_breaks(m.lines) ==> no_breaks(write_row(m, cells).lines),
{
    let joined = crate::html2md::markdown::join_cells(cells);
    let m1 = if joined.len() > 0 {
        lemma_insert_text(m, "| "@ + joined + " |"@);
        insert_text(m, "| "@ + joined + " |"@)
    } else {
        lemma_continues_refl(m.lines);
        m
    };
    if m.state == ParserState::TableHeader {
        let sep = "| "@ + crate::html2md::markdown::join_cells(
            cells.map_values(|c: Seq<char>| crate::html2md::markdown::rule_of(c)),
        ) + " |"@;
        lemma_line_then_text(m1, sep);
        lemma_continues_trans(m.lines, m1.lines, write_row(m, cells).lines);
    }
}

proof fn lemma_children(m: Markdown, n: HtmlNode, i: int, d: Depths)
    ensures
        continues(m.lines, md_children(m, n, i, d).lines),
        no_breaks(m.lines) ==> no_breaks(md_children(m, n, i, d).lines),
    decreases n, kids_len(n) - i,
{
    if 0 <= i < kids_len(n) {
        let kid = crate::html2md::tree::kid(n, i);
        let next = md_parse(m, kid, crate::html2md::markdown::child_depths(n, d));
        lemma_parse(m, kid, crate::html2md::markdown::child_depths(n, d));
        lemma_children(next, n, i + 1, d);
        lemma_continues_trans(m.lines, next.lines, md_children(m, n, i, d).lines);
    } else {
        lemma_continues_refl(m.lines);
    }
}

proof fn lemma_decorate(m: Markdown, n: HtmlNode, d: Depths, dec: Seq<char>)
    ensures
        continues(m.lines, md_decorate(m, n, d, dec).lines),
        no_breaks(m.lines) ==> no_breaks(md_decorate(m, n, d, dec).lines),
{
    match crate::html2md::markdown::children_text(n, d) {
        Some(text) => lemma_insert_text(m, dec + text + dec),
        None => lemma_continues_refl(m.lines),
    }
}

proof fn lemma_header(m: Markdown, n: HtmlNode, d: Depths, level: nat)
    ensures
        continues(m.lines, md_header(m, n, d, level).lines),
        no_breaks(m.lines) ==> no_breaks(md_header(m, n, d, level).lines),
{
    match crate::html2md::markdown::children_text(n, d) {
        Some(title) => {
            let body = crate::html2md::markdown::repeat("#"@, level) + " "@ + title;
            lemma_line_then_text(m, body);
            lemma_newline(insert_text(newline(m), body));
            lemma_continues_trans(
                m.lines,
                insert_text(newline(m), body).lines,
                newline(insert_text(newline(m), body)).lines,
            );
        },
        None => lemma_continues_refl(m.lines),
    }
}

proof fn lemma_list(m: Markdown, n: HtmlNode, d: Depths, mark: Seq<char>)
    ensures
        continues(m.lines, md_list(m, n, d, mark).lines),
        no_breaks(m.lines) ==> no_breaks(md_list(m, n, d, mark).lines),
{
    lemma_list_children(m, n, 0, d, mark);
    lemma_newline(md_list_children(m, n, 0, d, mark));
    lemma_continues_trans(m.lines, md_list_children(m, n, 0, d, mark).lines, md_list(m, n, d, mark).lines);
}

proof fn lemma_parse(m: Markdown, n: HtmlNode, d: Depths)
    ensures
        continues(m.lines, md_parse(m, n, d).lines),
        no_breaks(m.lines) ==> no_breaks(md_parse(m, n, d).lines),
    decreases n, kids_len(n) + 3,
{
    match n {
        HtmlNode::Text(t) => {
            lemma_insert_text(m, t@);
        },
        HtmlNode::Element { name, .. } => {
            let r = md_parse(m, n, d);
            if m.state == ParserState::Formated {
                let m1 = insert_text(m, "<"@ + name@ + ">"@);
                let m2 = md_children(m1, n, 0, d);
                lemma_insert_text(m, "<"@ + name@ + ">"@);
                lemma_children(m1, n, 0, d);
                lemma_insert_text(m2, "</"@ + name@ + ">"@);
                lemma_continues_trans(m.lines, m1.lines, m2.lines);
                lemma_continues_trans(m.lines, m2.lines, r.lines);
            } else if name@ == "a"@ {
                match crate::html2md::markdown::children_text(n, d) {
                    Some(text) => match crate::html2md::markdown::node_href(n) {
                        Some(link) => lemma_insert_text(m, "["@ + text + "]("@ + link + ")"@),
                        None => lemma_insert_text(m, text),
                    },
                    None => lemma_continues_refl(m.lines),
                }
            } else if name@ == "backquote"@ {
                let q = md_quote_children(m, n, 0, d);
                lemma_quote_children(m, n, 0, d);
                let prefix = crate::html2md::markdown::repeat(
                    "> "@,
                    crate::html2md::markdown::child_depths(n, d).backquotes as nat,
                );
                lemma_text_then_line(q, prefix);
                lemma_continues_trans(m.lines, q.lines, md_backquote(m, n, d).lines);
            } else if name@ == "br"@ {
                lemma_newline(m);
            } else if name@ == "code"@ {
                lemma_decorate(m, n, d, "`"@);
            } else if name@ == "div"@ || name@ == "p"@ {
                let m1 = newline(newline_if_need(m));
                let m2 = md_children(m1, n, 0, d);
                let m3 = newline_if_need(m2);
                lemma_newline_if_need(m);
                lemma_newline(newline_if_need(m));
                lemma_continues_trans(m.lines, newline_if_need(m).lines, m1.lines);
                lemma_children(m1, n, 0, d);
                lemma_continues_trans(m.lines, m1.lines, m2.lines);
                lemma_newline_if_need(m2);
                lemma_continues_trans(m.lines, m2.lines, m3.lines);
                lemma_newline(m3);
                assert(r == newline(m3));
                lemma_continues_trans(m.lines, m3.lines, newline(m3).lines);
            } else if name@ == "b"@ || name@ == "em"@ || name@ == "strong"@ {
                lemma_decorate(m, n, d, "**"@);
            } else if name@ == "del"@ || name@ == "s"@ {
                lemma_decorate(m, n, d, "~~"@);
            } else if name@ == "h1"@ {
                lemma_header(m, n, d, 1);
            } else if name@ == "h2"@ {
                lemma_header(m, n, d, 2);
            } else if name@ == "h3"@ {
                lemma_header(m, n, d, 3);
            } else if name@ == "head"@ || name@ == "script"@ || name@ == "style"@ {
                lemma_continues_refl(m.lines);
            } else if name@ == "hr"@ {
                let a = newline(newline_if_need(m));
                lemma_newline_if_need(m);
                lemma_newline(newline_if_need(m));
                lemma_continues_trans(m.lines, newline_if_need(m).lines, a.lines);
                lemma_text_then_line(a, "----"@);
                lemma_continues_trans(m.lines, a.lines, newline(insert_text(a, "----"@)).lines);
                lemma_newline(newline(insert_text(a, "----"@)));
                lemma_continues_trans(m.lines, newline(insert_text(a, "----"@)).lines, convert_hr(m).lines);
            } else if name@ == "i"@ {
                lemma_decorate(m, n, d, "*"@);
            } else if name@ == "li"@ {
                lemma_children(m, n, 0, d);
            } else if name@ == "ol"@ {
                lemma_list(m, n, d, "1. "@);
            } else if name@ == "pre"@ {
                lemma_code_lines(
                    m,
                    md_children(crate::html2md::markdown::fresh(ParserState::Formated), n, 0, d).lines,
                    0,
                );
                assert(r == md_formated(m, n, d));
            } else if name@ == "tbody"@ || name@ == "thead"@ {
                let t = md_table_children(m, n, 0, d);
                lemma_table_children(m, n, 0, d);
                lemma_newline(Markdown { lines: t.lines, state: ParserState::Plain });
                lemma_continues_trans(m.lines, t.lines, md_table(m, n, d).lines);
            } else if name@ == "tr"@ {
                lemma_write_row(
                    m,
                    crate::html2md::markdown::row_cells(
                        crate::html2md::markdown::md_cells(
                            crate::html2md::markdown::fresh(ParserState::Plain),
                            n,
                            0,
                            d,
                        ).lines,
                    ),
                );
                assert(r == md_row(m, n, d));
            } else if name@ == "ul"@ {
                lemma_list(m, n, d, "* "@);
            } else {
                lemma_children(m, n, 0, d);
            }
        },
        HtmlNode::Other { .. } => {
            lemma_children(m, n, 0, d);
        },
    }
}

/// Converting a node never changes what is already written: the finished
/// lines stay as they are, the last line can only grow, and new lines come
/// after it.
pub proof fn lemma_conversion_appends(m: Markdown, n: HtmlNode, d: Depths)
    ensures
        continues(m.lines, md_parse(m, n, d).lines),
{
    lemma_parse(m, n, d);
}

/// A line break in the HTML only ever starts a new line of the output: if
/// no line written so far holds a carriage return or a line feed, none does
/// after a node is converted.
pub proof fn lemma_conversion_keeps_lines_unbroken(m: Markdown, n: HtmlNode, d: Depths)
    requires
        no_breaks(m.lines),
    ensures
        no_breaks(md_parse(m, n, d).lines),
{
    lemma_parse(m, n, d);
}

/// `text` holds no carriage return and no line feed.
pub open spec fn unbroken(text: Seq<char>) -> bool {
    forall|k: int| 0 <= k < text.len() ==> #[trigger] text[k] != '\r' && text[k] != '\n'
}

proof fn lemma_insert_unbroken(lines: Seq<Seq<char>>, formated: bool, text: Seq<char>, i: int, cr: bool)
    requires
        lines.len() > 0,
        unbroken(text),
        0 <= i <= text.len(),
    ensures
        insert_from(lines, formated, text, i, cr) == lines.update(
            lines.len() - 1,
            lines.last() + text.subrange(i, text.len() as int),
        ),
    decreases text.len() - i,
{
    if i < text.len() {
        let next = push_last(lines, text[i]);
        lemma_insert_unbroken(next, formated, text, i + 1, false);
        assert(next.last() + text.subrange(i + 1, text.len() as int) =~= lines.last() + text.subrange(
            i,
            text.len() as int,
        ));
        assert(next.update(next.len() - 1, next.last() + text.subrange(i + 1, text.len() as int))
            =~= lines.update(lines.len() - 1, lines.last() + text.subrange(i, text.len() as int)));
    } else {
        assert(lines.last() + text.subrange(i, text.len() as int) =~= lines.last());
        assert(lines.update(lines.len() - 1, lines.last()) =~= lines);
    }
}

/// A header `h1`, `h2` or `h3` in ordinary text starts a line of its own
/// with one, two or three `#`, a space and the first line of the header's
/// text, and then starts a new line: the lines written before it stay as
/// they are.
pub proof fn lemma_header_lines(m: Markdown, n: HtmlNode, d: Depths)
    requires
        m.state == ParserState::Plain,
        m.lines.len() > 0,
        n matches HtmlNode::Element { name, .. } && (name@ == "h1"@ || name@ == "h2"@ || name@ == "h3"@),
        children_text(n, d) is Some,
    ensures
        ({
            let t = children_text(n, d)->0;
            let r = md_parse(m, n, d).lines;
            &&& n->name@ == "h1"@ ==> r == m.lines + seq!["# "@ + t, Seq::<char>::empty()]
            &&& n->name@ == "h2"@ ==> r == m.lines + seq!["## "@ + t, Seq::<char>::empty()]
            &&& n->name@ == "h3"@ ==> r == m.lines + seq!["### "@ + t, Seq::<char>::empty()]
        }),
{
    reveal_strlit("a");
    reveal_strlit("backquote");
    reveal_strlit("br");
    reveal_strlit("code");
    reveal_strlit("div");
    reveal_strlit("p");
    reveal_strlit("b");
    reveal_strlit("em");
    reveal_strlit("strong");
    reveal_strlit("del");
    reveal_strlit("s");
    reveal_strlit("h1");
    reveal_strlit("h2");
    reveal_strlit("h3");
    reveal_strlit("#");
    reveal_strlit("##");
    reveal_strlit("###");
    reveal_strlit(" ");
    reveal_strlit("# ");
    reveal_strlit("## ");
    reveal_strlit("### ");
    let t = children_text(n, d)->0;
    let name = n->name@;
    assert(name.len() == 2 && name[0] == 'h');
    assert("h1"@[1] != "h2"@[1] && "h1"@[1] != "h3"@[1] && "h2"@[1] != "h3"@[1]);
    assert("h1"@ != "h2"@ && "h1"@ != "h3"@ && "h2"@ != "h3"@);
    lemma_children(fresh(ParserState::Plain), n, 0, d);
    assert(no_breaks(fresh(ParserState::Plain).lines));
    let level: nat = if name == "h1"@ { 1 } else if name == "h2"@ { 2 } else { 3 };
    let hashes = repeat("#"@, level);
    assert("#"@ =~= seq!['#']);
    assert("##"@ =~= seq!['#', '#']);
    assert("###"@ =~= seq!['#', '#', '#']);
    assert(repeat("#"@, 0) =~= Seq::<char>::empty());
    assert(repeat("#"@, 1) == repeat("#"@, 0) + "#"@);
    assert(repeat("#"@, 1) =~= "#"@);
    assert(repeat("#"@, 2) == repeat("#"@, 1) + "#"@);
    assert(repeat("#"@, 2) =~= "##"@);
    assert(repeat("#"@, 3) == repeat("#"@, 2) + "#"@);
    assert(repeat("#"@, 3) =~= "###"@);
    let body = hashes + " "@ + t;
    assert(unbroken(body)) by {
        assert forall|k: int| 0 <= k < body.len() implies #[trigger] body[k] != '\r' && body[k] != '\n' by {
            if k >= hashes.len() + 1 {
                assert(body[k] == t[k - hashes.len() - 1]);
            }
        }
    }
    let m1 = newline(m);
    assert(m1.lines == m.lines.push(Seq::<char>::empty()));
    lemma_insert_unbroken(m1.lines, false, body, 0, false);
    assert(body.subrange(0, body.len() as int) =~= body);
    let m2 = insert_text(m1, body);
    assert(m2.lines =~= m.lines.push(body));
    assert(md_parse(m, n, d) == md_header(m, n, d, level));
    assert(md_parse(m, n, d).lines =~= m.lines + seq![body, Seq::<char>::empty()]);
    assert(" "@ =~= seq![' ']);
    assert("# "@ =~= seq!['#', ' ']);
    assert("## "@ =~= seq!['#', '#', ' ']);
    assert("### "@ =~= seq!['#', '#', '#', ' ']);
    if name == "h1"@ {
        assert(body =~= "# "@ + t);
    } else if name == "h2"@ {
        assert(body =~= "## "@ + t);
    } else {
        assert(body =~= "### "@ + t);
    }
}

} // verus!
