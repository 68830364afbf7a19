//! The parts of an HTML document tree that the conversion reads.

use ego_tree::iter::Edge;
use scraper::Node;
use vstd::prelude::*;

verus! {

/// An attribute of an element: its qualified name and its value.
pub struct HtmlAttribute {
    pub prefix: Option<String>,
    pub ns: String,
    pub local: String,
    pub value: String,
}

/// A node of a document tree: text, an element with its local name and
/// attributes, or another node (the document itself, a comment, ...).
pub enum HtmlNode {
    Text(String),
    Element { name: String, attrs: Vec<HtmlAttribute>, children: Vec<HtmlNode> },
    Other { children: Vec<HtmlNode> },
}

/// The number of children of a node.
pub open spec fn kids_len(n: HtmlNode) -> nat {
    match n {
        HtmlNode::Text(_) => 0,
        HtmlNode::Element { children, .. } => children@.len(),
        HtmlNode::Other { children } => children@.len(),
    }
}

/// The `i`-th child of a node.
pub open spec fn kid(n: HtmlNode, i: int) -> HtmlNode
    recommends
        0 <= i < kids_len(n),
{
    match n {
        HtmlNode::Element { children, .. } => children[i],
        HtmlNode::Other { children } => children[i],
        HtmlNode::Text(_) => n,
    }
}

/// The node is an element with the local name `l`.
pub open spec fn is_named(n: HtmlNode, l: Seq<char>) -> bool {
    match n {
        HtmlNode::Element { name, .. } => name@ == l,
        _ => false,
    }
}

/// An attribute as plain text: prefix, namespace, local name, value.
pub type AttrView = (Option<Seq<char>>, Seq<char>, Seq<char>, Seq<char>);

pub open spec fn attr_view(a: HtmlAttribute) -> AttrView {
    (
        match a.prefix {
            Some(p) => Some(p@),
            None => None,
        },
        a.ns@,
        a.local@,
        a.value@,
    )
}

pub open spec fn attrs_view(attrs: Seq<HtmlAttribute>) -> Seq<AttrView> {
    attrs.map_values(|a: HtmlAttribute| attr_view(a))
}

/// One step of a walk over a document tree: entering a node, or leaving
/// the node entered last.
pub enum HtmlEvent {
    OpenText(String),
    OpenElement { name: String, attrs: Vec<HtmlAttribute> },
    OpenOther,
    Close,
}

/// A step of a walk, as plain values.
pub enum EventView {
    OpenText(Seq<char>),
    OpenElement(Seq<char>, Seq<AttrView>),
    OpenOther,
    Close,
}

impl View for HtmlEvent {
    type V = EventView;

    open spec fn view(&self) -> EventView {
        match self {
            HtmlEvent::OpenText(t) => EventView::OpenText(t@),
            HtmlEvent::OpenElement { name, attrs } => EventView::OpenElement(name@, attrs_view(attrs@)),
            HtmlEvent::OpenOther => EventView::OpenOther,
            HtmlEvent::Close => EventView::Close,
        }
    }
}

pub open spec fn events_view(ev: Seq<HtmlEvent>) -> Seq<EventView> {
    ev.map_values(|e: HtmlEvent| e@)
}

/// The children of a node.
pub open spec fn kid_seq(n: HtmlNode) -> Seq<HtmlNode> {
    match n {
        HtmlNode::Text(_) => Seq::<HtmlNode>::empty(),
        HtmlNode::Element { children, .. } => children@,
        HtmlNode::Other { children } => children@,
    }
}

/// The step that enters `n`.
pub open spec fn open_event(n: HtmlNode) -> EventView {
    match n {
        HtmlNode::Text(t) => EventView::OpenText(t@),
        HtmlNode::Element { name, attrs, .. } => EventView::OpenElement(name@, attrs_view(attrs@)),
        HtmlNode::Other { .. } => EventView::OpenOther,
    }
}

/// The walk over `n`: entering it, the walks over its children, leaving it.
pub open spec fn node_events(n: HtmlNode) -> Seq<EventView>
    decreases n,
{
    match n {
        HtmlNode::Text(t) => seq![open_event(n), EventView::Close],
        HtmlNode::Element { children, .. } => seq![open_event(n)] + forest_events(children@) + seq![
            EventView::Close,
        ],
        HtmlNode::Other { children } => seq![open_event(n)] + forest_events(children@) + seq![
            EventView::Close,
        ],
    }
}

/// The walks over the nodes `s`, one after the other.
pub open spec fn forest_events(s: Seq<HtmlNode>) -> Seq<EventView>
    decreases s,
{
    if s.len() == 0 {
        Seq::<EventView>::empty()
    } else {
        forest_events(s.drop_last()) + node_events(s.last())
    }
}

// ---------------------------------------------------------------------------
// Rebuilding a tree from its walk
// ---------------------------------------------------------------------------

/// `s` holds `x` from position `p` on.
pub open spec fn is_prefix_at(s: Seq<EventView>, p: int, x: Seq<EventView>) -> bool {
    0 <= p && p + x.len() <= s.len() && s.subrange(p, p + x.len()) == x
}

proof fn lemma_forest_append(a: Seq<HtmlNode>, b: Seq<HtmlNode>)
    ensures
        forest_events(a + b) == forest_events(a) + forest_events(b),
    decreases b.len(),
{
    if b.len() == 0 {
        assert(a + b =~= a);
        assert(forest_events(a) + forest_events(b) =~= forest_events(a));
    } else {
        lemma_forest_append(a, b.drop_last());
        assert((a + b).drop_last() =~= a + b.drop_last());
        assert((a + b).last() == b.last());
        assert(forest_events(a + b) =~= forest_events(a) + forest_events(b));
    }
}

proof fn lemma_node_shape(n: HtmlNode)
    ensures
        node_events(n) == seq![open_event(n)] + forest_events(kid_seq(n)) + seq![EventView::Close],
        open_event(n) != EventView::Close,
{
    match n {
        HtmlNode::Text(_) => {
            assert(forest_events(kid_seq(n)) =~= Seq::<EventView>::empty());
            assert(node_events(n) =~= seq![open_event(n)] + forest_events(kid_seq(n)) + seq![
                EventView::Close,
            ]);
        },
        _ => {},
    }
}

/// Where the walk over `t` starts at `pos` and the walks over its first `k`
/// children end at `p`: the walk over child `k` starts at `p`, or, after the
/// last child, `t` is left at `p`.
proof fn lemma_child_at(evs: Seq<EventView>, pos: int, t: HtmlNode, k: int, p: int)
    requires
        is_prefix_at(evs, pos, node_events(t)),
        0 <= k <= kid_seq(t).len(),
        p == pos + 1 + forest_events(kid_seq(t).take(k)).len(),
    ensures
        k == kid_seq(t).len() ==> p < evs.len() && evs[p] == EventView::Close && pos
            + node_events(t).len() == p + 1,
        k < kid_seq(t).len() ==> is_prefix_at(evs, p, node_events(kid_seq(t)[k])) && evs[p]
            != EventView::Close,
{
    let kids = kid_seq(t);
    let e = node_events(t);
    lemma_node_shape(t);
    assert(kids =~= kids.take(k) + kids.skip(k));
    lemma_forest_append(kids.take(k), kids.skip(k));
    let ft = forest_events(kids.take(k));
    let fs = forest_events(kids.skip(k));
    assert(e =~= seq![open_event(t)] + ft + fs + seq![EventView::Close]);
    assert forall|j: int| 0 <= j < e.len() implies evs[pos + j] == e[j] by {
        assert(evs.subrange(pos, pos + e.len())[j] == e[j]);
    }
    if k == kids.len() {
        assert(kids.skip(k) =~= Seq::<HtmlNode>::empty());
        assert(e[1 + ft.len() as int] == EventView::Close);
    } else {
        let c = kids[k];
        assert(kids.skip(k) =~= seq![c] + kids.skip(k + 1));
        lemma_forest_append(seq![c], kids.skip(k + 1));
        assert(seq![c].drop_last() =~= Seq::<HtmlNode>::empty());
        assert(seq![c].last() == c);
        assert(forest_events(Seq::<HtmlNode>::empty()) =~= Seq::<EventView>::empty());
        assert(forest_events(seq![c]) =~= forest_events(seq![c].drop_last()) + node_events(c));
        assert(forest_events(seq![c]) =~= node_events(c));
        let ec = node_events(c);
        assert(fs =~= ec + forest_events(kids.skip(k + 1)));
        assert forall|j: int| 0 <= j < ec.len() implies evs.subrange(p, p + ec.len())[j] == ec[j] by {
            assert(e[1 + ft.len() as int + j] == ec[j]);
        }
        assert(evs.subrange(p, p + ec.len()) =~= ec);
        lemma_node_shape(c);
        assert(ec[0] == open_event(c));
    }
}

fn clone_attrs(v: &Vec<HtmlAttribute>) -> (r: Vec<HtmlAttribute>)
    ensures
        attrs_view(r@) == attrs_view(v@),
{
    let mut r: Vec<HtmlAttribute> = Vec::new();
    let mut i: usize = 0;
    while i < v.len()
        invariant
            i <= v@.len(),
            r@.len() == i,
            forall|k: int| 0 <= k < i ==> attr_view(#[trigger] r@[k]) == attr_view(v@[k]),
        decreases v.len() - i,
    {
        let a = &v[i];
        let prefix = match &a.prefix {
            Some(p) => Some(p.clone()),
            None => None,
        };
        r.push(HtmlAttribute { prefix, ns: a.ns.clone(), local: a.local.clone(), value: a.value.clone() });
        i = i + 1;
    }
    assert(attrs_view(r@) =~= attrs_view(v@));
    r
}

/// The children of the node entered at `pos`, up to the step that leaves
/// it, and the position of that step.
fn build_children(ev: &Vec<HtmlEvent>, pos: usize) -> (r: Option<(Vec<HtmlNode>, usize)>)
    requires
        pos < ev@.len(),
        ev@[pos as int]@ != EventView::Close,
    ensures
        r matches Some((v, c)) ==> pos < c < ev@.len() && events_view(ev@)[c as int] == EventView::Close
            && events_view(ev@).subrange(pos + 1, c as int) == forest_events(v@),
        forall|t: HtmlNode| #[trigger] is_prefix_at(events_view(ev@), pos as int, node_events(t)) ==> (
        r matches Some((v, c)) && c + 1 == pos + node_events(t).len()),
    decreases ev@.len() - pos, 0nat,
{
    let ghost evs = events_view(ev@);
    let mut children: Vec<HtmlNode> = Vec::new();
    let len = ev.len();
    let mut p: usize = pos + 1;
    assert(evs.subrange(pos + 1, p as int) =~= forest_events(children@));
    loop
        invariant
            evs == events_view(ev@),
            pos < p <= ev@.len(),
            evs.subrange(pos + 1, p as int) == forest_events(children@),
            forall|t: HtmlNode| #[trigger] is_prefix_at(evs, pos as int, node_events(t)) ==> (
            children@.len() <= kid_seq(t).len() && forest_events(kid_seq(t).take(children@.len() as int))
                == forest_events(children@)),
        decreases ev@.len() - p,
    {
        let ghost k = children@.len() as int;
        if p >= ev.len() {
            proof {
                assert forall|t: HtmlNode| #[trigger] is_prefix_at(evs, pos as int, node_events(t)) implies false by {
                    lemma_child_at(evs, pos as int, t, k, p as int);
                    if k < kid_seq(t).len() {
                        lemma_node_shape(kid_seq(t)[k]);
                    }
                }
            }
            return None;
        }
        if let HtmlEvent::Close = &ev[p] {
            proof {
                assert forall|t: HtmlNode| #[trigger] is_prefix_at(evs, pos as int, node_events(t)) implies p + 1
                    == pos + node_events(t).len() by {
                    lemma_child_at(evs, pos as int, t, k, p as int);
                }
            }
            return Some((children, p));
        }
        match build_node(ev, p) {
            None => {
                proof {
                    assert forall|t: HtmlNode| #[trigger] is_prefix_at(evs, pos as int, node_events(t)) implies false by {
                        lemma_child_at(evs, pos as int, t, k, p as int);
                        if k < kid_seq(t).len() {
                            assert(is_prefix_at(evs, p as int, node_events(kid_seq(t)[k])));
                        }
                    }
                }
                return None;
            },
            Some((c, next)) => {
                let ghost before = children@;
                children.push(c);
                proof {
                    assert(children@.drop_last() =~= before);
                    assert(evs.subrange(pos + 1, next as int) =~= evs.subrange(pos + 1, p as int) + evs.subrange(p as int, next as int));
                    assert forall|t: HtmlNode| #[trigger] is_prefix_at(evs, pos as int, node_events(t)) implies (
                    children@.len() <= kid_seq(t).len() && forest_events(kid_seq(t).take(children@.len() as int))
                        == forest_events(children@)) by {
                        lemma_child_at(evs, pos as int, t, k, p as int);
                        if k == kid_seq(t).len() {
                            assert(evs[p as int] == EventView::Close);
                            assert(ev@[p as int]@ == evs[p as int]);
                        }
                        assert(is_prefix_at(evs, p as int, node_events(kid_seq(t)[k])));
                        assert(kid_seq(t).take(k + 1).drop_last() =~= kid_seq(t).take(k));
                    }
                }
                p = next;
            },
        }
    }
}

/// The tree whose walk starts at `pos`, and the position after that walk.
fn build_node(ev: &Vec<HtmlEvent>, pos: usize) -> (r: Option<(HtmlNode, usize)>)
    requires
        pos <= ev@.len(),
    ensures
        r matches Some((n, end)) ==> pos < end <= ev@.len() && events_view(ev@).subrange(
            pos as int,
            end as int,
        ) == node_events(n),
        forall|t: HtmlNode| #[trigger] is_prefix_at(events_view(ev@), pos as int, node_events(t)) ==> (
        r matches Some((_, end)) && end == pos + node_events(t).len()),
    decreases ev@.len() - pos, 1nat,
{
    let ghost evs = events_view(ev@);
    if pos >= ev.len() {
        proof {
            assert forall|t: HtmlNode| #[trigger] is_prefix_at(evs, pos as int, node_events(t)) implies false by {
                lemma_node_shape(t);
            }
        }
        return None;
    }
    assert(ev@[pos as int]@ == evs[pos as int]);
    match &ev[pos] {
        HtmlEvent::Close => {
            proof {
                assert forall|t: HtmlNode| #[trigger] is_prefix_at(evs, pos as int, node_events(t)) implies false by {
                    lemma_node_shape(t);
                    assert(evs.subrange(pos as int, pos + node_events(t).len())[0] == node_events(t)[0]);
                }
            }
            None
        },
        HtmlEvent::OpenText(s) => {
            let closed = pos + 1 < ev.len() && match &ev[pos + 1] {
                HtmlEvent::Close => true,
                _ => false,
            };
            proof {
                assert forall|t: HtmlNode| #[trigger] is_prefix_at(evs, pos as int, node_events(t)) implies (t is Text
                    && node_events(t).len() == 2 && pos + 1 < evs.len() && evs[pos + 1] == EventView::Close) by {
                    lemma_node_shape(t);
                    assert(evs.subrange(pos as int, pos + node_events(t).len())[0] == node_events(t)[0]);
                    assert(t is Text);
                    assert(evs.subrange(pos as int, pos + node_events(t).len())[1] == node_events(t)[1]);
                }
            }
            if closed {
                assert(ev@[pos + 1]@ == evs[pos + 1]);
                let n = HtmlNode::Text(s.clone());
                assert(evs.subrange(pos as int, pos + 2) =~= node_events(n));
                Some((n, pos + 2))
            } else {
                proof {
                    if pos + 1 < evs.len() {
                        assert(ev@[pos + 1]@ == evs[pos + 1]);
                    }
                }
                None
            }
        },
        HtmlEvent::OpenElement { name, attrs } => {
            match build_children(ev, pos) {
                Some((children, c)) => {
                    let n = HtmlNode::Element { name: name.clone(), attrs: clone_attrs(attrs), children };
                    proof {
                        lemma_node_shape(n);
                        assert(evs.subrange(pos as int, c + 1) =~= seq![evs[pos as int]] + evs.subrange(pos + 1, c as int) + seq![evs[c as int]]);
                    }
                    Some((n, c + 1))
                },
                None => None,
            }
        },
        HtmlEvent::OpenOther => {
            match build_children(ev, pos) {
                Some((children, c)) => {
                    let n = HtmlNode::Other { children };
                    proof {
                        lemma_node_shape(n);
                        assert(evs.subrange(pos as int, c + 1) =~= seq![evs[pos as int]] + evs.subrange(pos + 1, c as int) + seq![evs[c as int]]);
                    }
                    Some((n, c + 1))
                },
                None => None,
            }
        },
    }
}

/// The tree whose walk `ev` is, when it is one.
pub fn tree_of_events(ev: &Vec<HtmlEvent>) -> (r: Option<HtmlNode>)
    ensures
        r matches Some(t) ==> node_events(t) == events_view(ev@),
        (exists|t: HtmlNode| node_events(t) == events_view(ev@)) ==> r is Some,
{
    let ghost evs = events_view(ev@);
    let b = build_node(ev, 0);
    proof {
        if exists|t: HtmlNode| node_events(t) == evs {
            let t = choose|t: HtmlNode| node_events(t) == evs;
            assert(evs.subrange(0, evs.len() as int) =~= evs);
            assert(is_prefix_at(evs, 0, node_events(t)));
        }
    }
    match b {
        Some((n, end)) => {
            if end == ev.len() {
                assert(evs.subrange(0, evs.len() as int) =~= evs);
                Some(n)
            } else {
                None
            }
        },
        None => None,
    }
}

/// The walk over the document tree that `scraper::Html::parse_document`
/// builds from `content`.
pub uninterp spec fn html_document_walk(content: Seq<char>) -> Seq<EventView>;

/// Calls `scraper::Html::parse_document` on `content` and lists ego_tree's
/// `traverse` of the tree it builds, each step as plain values: text, an
/// element's local name and attributes, any other node, or a close. The
/// result is named `html_document_walk`; how HTML is parsed is not stated.
/// The steps are the walk of a tree: `traverse` opens each node, walks its
/// children, then closes it, and scraper gives text nodes no children.
#[verifier::external_body]
fn parse_document_walk(content: &str) -> (r: Vec<HtmlEvent>)
    ensures
        events_view(r@) == html_document_walk(content@),
        exists|t: HtmlNode| node_events(t) == events_view(r@),
{
    let html = scraper::Html::parse_document(content);
    html.tree.root().traverse().map(|edge| match edge {
        Edge::Open(n) => match n.value() {
            Node::Text(t) => HtmlEvent::OpenText(t.text.to_string()),
            Node::Element(e) => HtmlEvent::OpenElement { name: e.name().to_string(),
                attrs: e.attrs.iter().map(|(q, v)| HtmlAttribute { prefix: q.prefix.as_ref().map(
                |p| p.to_string()), ns: q.ns.to_string(), local: q.local.to_string(), value: v.to_string() }).collect() },
            _ => HtmlEvent::OpenOther,
        },
        Edge::Close(_) => HtmlEvent::Close,
    }).collect()
}

/// The document tree of the HTML text `content`: the tree whose walk the
/// parser gives.
pub fn parse_document(content: &str) -> (r: Option<HtmlNode>)
    ensures
        r matches Some(t) && node_events(t) == html_document_walk(content@),
{
    let ev = parse_document_walk(content);
    tree_of_events(&ev)
}

/// The walk over the tree that `scraper::Html::parse_fragment` builds
/// from `content`.
pub uninterp spec fn html_fragment_walk(content: Seq<char>) -> Seq<EventView>;

/// Calls `scraper::Html::parse_fragment` on `content` and lists ego_tree's
/// `traverse` of the tree it builds, as `parse_document_walk` does, and is
/// likewise the walk of a tree. The result is named `html_fragment_walk`;
/// how HTML is parsed is not stated.
#[verifier::external_body]
fn parse_fragment_walk(content: &str) -> (r: Vec<HtmlEvent>)
    ensures
        events_view(r@) == html_fragment_walk(content@),
        exists|t: HtmlNode| node_events(t) == events_view(r@),
{
    let html = scraper::Html::parse_fragment(content);
    html.tree.root().traverse().map(|edge| match edge {
        Edge::Open(n) => match n.value() {
            Node::Text(t) => HtmlEvent::OpenText(t.text.to_string()),
            Node::Element(e) => HtmlEvent::OpenElement { name: e.name().to_string(),
                attrs: e.attrs.iter().map(|(q, v)| HtmlAttribute { prefix: q.prefix.as_ref().map(
                |p| p.to_string()), ns: q.ns.to_string(), local: q.local.to_string(), value: v.to_string() }).collect() },
            _ => HtmlEvent::OpenOther,
        },
        Edge::Close(_) => HtmlEvent::Close,
    }).collect()
}

/// The tree of the HTML fragment `content`: the tree whose walk the parser
/// gives.
pub fn parse_fragment(content: &str) -> (r: Option<HtmlNode>)
    ensures
        r matches Some(t) && node_events(t) == html_fragment_walk(content@),
{
    let ev = parse_fragment_walk(content);
    tree_of_events(&ev)
}

} // verus!
