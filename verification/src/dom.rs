//! The tree of an HTML document as the conversion reads it, built from the
//! open/close walk that an HTML parser gives.
use vstd::prelude::*;

use crate::model::{copy_opt_string, copy_strings, opt_view};
use crate::text::sviews;
use ego_tree::iter::Edge;
use scraper::{ElementRef, Html, Node};

verus! {

#[derive(Debug, Clone, Copy, PartialEq, Eq, Structural)]
pub enum DomKind {
    Text,
    Element,
    Other,
}

/// A node of an HTML tree: text, an element with what is read of it (its
/// name, classes, the attributes `href`, `id` and `encoding`, and its
/// serialized HTML), or another kind of node (document, comment, ...).
#[derive(Debug)]
pub struct DomNode {
    pub kind: DomKind,
    pub text: String,
    pub name: String,
    pub classes: Vec<String>,
    pub href: Option<String>,
    pub id: Option<String>,
    pub encoding: Option<String>,
    pub html: String,
    pub children: Vec<DomNode>,
}

/// One step of a depth-first walk of an HTML tree: a node is entered
/// (text, element or another kind) or the last entered node is left.
#[derive(Debug)]
pub enum DomEvent {
    Close,
    Text(String),
    Element(String, Vec<String>, Option<String>, Option<String>, Option<String>, String),
    Other,
}

pub ghost struct NodeModel {
    pub kind: DomKind,
    pub text: Seq<char>,
    pub name: Seq<char>,
    pub classes: Seq<Seq<char>>,
    pub href: Option<Seq<char>>,
    pub id: Option<Seq<char>>,
    pub encoding: Option<Seq<char>>,
    pub html: Seq<char>,
    pub children: Seq<NodeModel>,
}

pub open spec fn empty_node() -> NodeModel {
    NodeModel {
        kind: DomKind::Other,
        text: Seq::empty(),
        name: Seq::empty(),
        classes: Seq::empty(),
        href: None,
        id: None,
        encoding: None,
        html: Seq::empty(),
        children: Seq::empty(),
    }
}

pub open spec fn node_model(n: DomNode) -> NodeModel
    decreases n,
{
    NodeModel {
        kind: n.kind,
        text: n.text@,
        name: n.name@,
        classes: sviews(n.classes@),
        href: opt_view(n.href),
        id: opt_view(n.id),
        encoding: opt_view(n.encoding),
        html: n.html@,
        children: Seq::new(
            n.children@.len(),
            |i: int|
                if 0 <= i < n.children@.len() {
                    node_model(n.children@[i])
                } else {
                    empty_node()
                },
        ),
    }
}

impl View for DomNode {
    type V = NodeModel;

    open spec fn view(&self) -> NodeModel {
        node_model(*self)
    }
}

pub open spec fn node_models(v: Seq<DomNode>) -> Seq<NodeModel> {
    v.map_values(|n: DomNode| n@)
}

pub proof fn lemma_node_models(v: Seq<DomNode>)
    ensures
        node_models(v).len() == v.len(),
        forall|k: int| 0 <= k < v.len() ==> #[trigger] node_models(v)[k] == v[k]@,
{
}

pub proof fn lemma_dom_children(n: DomNode)
    ensures
        node_models(n.children@) == n@.children,
{
    lemma_node_models(n.children@);
    assert(node_models(n.children@) =~= n@.children);
}

pub ghost enum EventModel {
    Close,
    Open(NodeModel),
}

pub open spec fn event_model(e: DomEvent) -> EventModel {
    match e {
        DomEvent::Close => EventModel::Close,
        DomEvent::Text(t) => EventModel::Open(NodeModel { kind: DomKind::Text, text: t@, ..empty_node() }),
        DomEvent::Element(name, classes, href, id, encoding, html) => EventModel::Open(
            NodeModel {
                kind: DomKind::Element,
                name: name@,
                classes: sviews(classes@),
                href: opt_view(href),
                id: opt_view(id),
                encoding: opt_view(encoding),
                html: html@,
                ..empty_node()
            },
        ),
        DomEvent::Other => EventModel::Open(empty_node()),
    }
}

pub open spec fn event_models(v: Seq<DomEvent>) -> Seq<EventModel> {
    v.map_values(|e: DomEvent| event_model(e))
}

/// The name of the walk of the tree `scraper::Html::parse_document` builds
/// from a text.
pub uninterp spec fn document_events(body: Seq<char>) -> Seq<EventModel>;

/// The name of the walk of the tree `scraper::Html::parse_fragment` builds
/// from a text.
pub uninterp spec fn fragment_events(html: Seq<char>) -> Seq<EventModel>;

/// Parses a document with `scraper::Html::parse_document` and lists the
/// steps of `traverse()` from its root, each node as what is read of it.
#[verifier::external_body]
pub(crate) fn parse_document_events(body: &str) -> (r: Vec<DomEvent>)
    ensures
        event_models(r@) == document_events(body@),
{
    let doc = Html::parse_document(body);
    doc.tree.root().traverse().map(|edge| match edge {
        Edge::Close(_) => DomEvent::Close,
        Edge::Open(n) => match n.value() {
            Node::Text(t) => DomEvent::Text(t.to_string()),
            Node::Element(e) => DomEvent::Element(
                e.name().to_owned(), e.classes().map(str::to_owned).collect(),
                e.attr("href").map(str::to_owned), e.attr("id").map(str::to_owned),
                e.attr("encoding").map(str::to_owned), ElementRef::wrap(n).map_or(String::new(), |r| r.html()),
            ),
            _ => DomEvent::Other,
        },
    }).collect()
}

/// Parses a fragment with `scraper::Html::parse_fragment` and lists the
/// steps of `traverse()` from its root, each node as what is read of it.
#[verifier::external_body]
pub(crate) fn parse_fragment_events(html: &str) -> (r: Vec<DomEvent>)
    ensures
        event_models(r@) == fragment_events(html@),
{
    let doc = Html::parse_fragment(html);
    doc.tree.root().traverse().map(|edge| match edge {
        Edge::Close(_) => DomEvent::Close,
        Edge::Open(n) => match n.value() {
            Node::Text(t) => DomEvent::Text(t.to_string()),
            Node::Element(e) => DomEvent::Element(
                e.name().to_owned(), e.classes().map(str::to_owned).collect(),
                e.attr("href").map(str::to_owned), e.attr("id").map(str::to_owned),
                e.attr("encoding").map(str::to_owned), ElementRef::wrap(n).map_or(String::new(), |r| r.html()),
            ),
            _ => DomEvent::Other,
        },
    }).collect()
}

/// The position of the step that leaves the node entered just before `j`,
/// `depth` nodes having been entered (and not left) since then; the length
/// of the walk when there is none.
pub open spec fn close_of(ev: Seq<EventModel>, j: int, depth: nat) -> int
    decreases ev.len() - j,
{
    if j < 0 || j >= ev.len() {
        ev.len() as int
    } else if ev[j] is Close {
        if depth == 0 {
            j
        } else {
            close_of(ev, j + 1, (depth - 1) as nat)
        }
    } else {
        close_of(ev, j + 1, depth + 1)
    }
}

pub proof fn lemma_close_of(ev: Seq<EventModel>, j: int, depth: nat)
    requires
        0 <= j <= ev.len(),
    ensures
        j <= close_of(ev, j, depth) <= ev.len(),
    decreases ev.len() - j,
{
    if j < ev.len() {
        if ev[j] is Close {
            if depth > 0 {
                lemma_close_of(ev, j + 1, (depth - 1) as nat);
            }
        } else {
            lemma_close_of(ev, j + 1, depth + 1);
        }
    }
}

/// The trees of the walk `ev[i..end]`: each entered node has as children
/// the trees of the steps up to where it is left.
pub open spec fn forest_of(ev: Seq<EventModel>, i: int, end: int) -> Seq<NodeModel>
    decreases end - i,
{
    if i < 0 || i >= end || end > ev.len() {
        Seq::empty()
    } else {
        match ev[i] {
            EventModel::Close => forest_of(ev, i + 1, end),
            EventModel::Open(h) => {
                let c = close_of(ev, i + 1, 0);
                proof {
                    lemma_close_of(ev, i + 1, 0);
                }
                if c < end {
                    seq![NodeModel { children: forest_of(ev, i + 1, c), ..h }] + forest_of(
                        ev,
                        c + 1,
                        end,
                    )
                } else {
                    seq![NodeModel { children: forest_of(ev, i + 1, end), ..h }]
                }
            },
        }
    }
}

fn close_exec(ev: &Vec<DomEvent>, j: usize) -> (r: usize)
    requires
        j <= ev.len(),
    ensures
        r == close_of(event_models(ev@), j as int, 0),
{
    let ghost em = event_models(ev@);
    let mut k = j;
    let mut depth: usize = 0;
    while k < ev.len()
        invariant
            j <= k <= ev.len(),
            depth <= k,
            em == event_models(ev@),
            close_of(em, k as int, depth as nat) == close_of(em, j as int, 0),
        decreases ev.len() - k,
    {
        match &ev[k] {
            DomEvent::Close => {
                if depth == 0 {
                    return k;
                }
                depth = depth - 1;
            },
            _ => {
                depth = depth + 1;
            },
        }
        k = k + 1;
    }
    k
}

/// A node built from an entering step, with the given children.
fn node_of(e: &DomEvent, children: Vec<DomNode>) -> (r: DomNode)
    requires
        !(e is Close),
    ensures
        event_model(*e) matches EventModel::Open(h) && r@ == (NodeModel {
            children: node_models(children@),
            ..h
        }),
{
    let ghost kids = node_models(children@);
    let r = match e {
        DomEvent::Text(t) => DomNode {
            kind: DomKind::Text,
            text: t.clone(),
            name: String::new(),
            classes: Vec::new(),
            href: None,
            id: None,
            encoding: None,
            html: String::new(),
            children,
        },
        DomEvent::Element(name, classes, href, id, encoding, html) => DomNode {
            kind: DomKind::Element,
            text: String::new(),
            name: name.clone(),
            classes: copy_strings(classes),
            href: copy_opt_string(href),
            id: copy_opt_string(id),
            encoding: copy_opt_string(encoding),
            html: html.clone(),
            children,
        },
        _ => DomNode {
            kind: DomKind::Other,
            text: String::new(),
            name: String::new(),
            classes: Vec::new(),
            href: None,
            id: None,
            encoding: None,
            html: String::new(),
            children,
        },
    };
    proof {
        lemma_dom_children(r);
        if r.kind != DomKind::Element {
            assert(sviews(r.classes@) =~= Seq::<Seq<char>>::empty());
        }
        assert(sviews(r.classes@) == r@.classes);
    }
    r
}

fn build_range(ev: &Vec<DomEvent>, i: usize, end: usize) -> (r: Vec<DomNode>)
    requires
        i <= end <= ev.len(),
    ensures
        node_models(r@) == forest_of(event_models(ev@), i as int, end as int),
    decreases end - i,
{
    let ghost em = event_models(ev@);
    let mut out: Vec<DomNode> = Vec::new();
    let mut k = i;
    assert(node_models(out@) + forest_of(em, i as int, end as int) =~= forest_of(
        em,
        i as int,
        end as int,
    ));
    while k < end
        invariant
            i <= k <= end <= ev.len(),
            em == event_models(ev@),
            node_models(out@) + forest_of(em, k as int, end as int) == forest_of(
                em,
                i as int,
                end as int,
            ),
        decreases end - k,
    {
        let ghost before = node_models(out@);
        assert(em[k as int] == event_model(ev@[k as int]));
        match &ev[k] {
            DomEvent::Close => {
                k = k + 1;
            },
            e => {
                let c = close_exec(ev, k + 1);
                proof {
                    lemma_close_of(em, k + 1, 0);
                }
                let stop = if c < end {
                    c
                } else {
                    end
                };
                let children = build_range(ev, k + 1, stop);
                let node = node_of(e, children);
                out.push(node);
                assert(node_models(out@) =~= before.push(node@));
                if stop < end {
                    assert(node_models(out@) + forest_of(em, stop + 1, end as int) =~= before
                        + forest_of(em, k as int, end as int));
                    k = stop + 1;
                } else {
                    assert(node_models(out@) + forest_of(em, end as int, end as int) =~= before
                        + forest_of(em, k as int, end as int));
                    k = end;
                }
            },
        }
    }
    assert(node_models(out@) + Seq::<NodeModel>::empty() =~= node_models(out@));
    out
}

/// The trees of a walk.
pub fn build_dom(ev: &Vec<DomEvent>) -> (r: Vec<DomNode>)
    ensures
        node_models(r@) == forest_of(event_models(ev@), 0, ev@.len() as int),
{
    build_range(ev, 0, ev.len())
}

} // verus!
