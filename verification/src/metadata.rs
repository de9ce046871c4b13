//! Paper metadata from the arXiv Atom API.
use vstd::prelude::*;

use crate::error::Arxiv2MdError;
use crate::model::{MetadataModel, PaperMetadata};
use crate::text::{chars_eq, chars_of, normalize_ws, normalize_ws_str, sviews};

verus! {

broadcast use vstd::string::group_string_axioms;

/// A node of an XML document as read here: whether it is an element, its
/// local tag name, its text (`roxmltree::Node::text`: an element's first
/// child when that is text), its attributes as (local name, value), and the
/// positions of its children.
pub struct XmlNode {
    pub element: bool,
    pub name: String,
    pub text: Option<String>,
    pub attrs: Vec<(String, String)>,
    pub children: Vec<usize>,
}

pub ghost struct XmlModel {
    pub element: bool,
    pub name: Seq<char>,
    pub text: Option<Seq<char>>,
    pub attrs: Seq<(Seq<char>, Seq<char>)>,
    pub children: Seq<usize>,
}

impl View for XmlNode {
    type V = XmlModel;

    open spec fn view(&self) -> XmlModel {
        XmlModel {
            element: self.element,
            name: self.name@,
            text: match self.text {
                Some(t) => Some(t@),
                None => None,
            },
            attrs: self.attrs@.map_values(|a: (String, String)| (a.0@, a.1@)),
            children: self.children@,
        }
    }
}

pub open spec fn xml_models(v: Seq<XmlNode>) -> Seq<XmlModel> {
    v.map_values(|n: XmlNode| n@)
}

/// The name of the nodes `roxmltree::Document::parse` finds in a text, in
/// document order, or of the text of its error when it refuses the text.
pub uninterp spec fn xml_document(xml: Seq<char>) -> Result<Seq<XmlModel>, Seq<char>>;

/// Parses XML with `roxmltree::Document::parse` and lists its nodes in
/// document order (the order in which roxmltree stores them, so that a
/// node's id is its position); the error is turned into its message.
#[verifier::external_body]
fn parse_xml(xml: &str) -> (r: Result<Vec<XmlNode>, String>)
    ensures
        match r {
            Ok(nodes) => xml_document(xml@) == Ok::<Seq<XmlModel>, Seq<char>>(xml_models(nodes@)) && forall|i: int, k: int|
                0 <= i < nodes@.len() && 0 <= k < nodes@[i].children@.len() ==> (
                #[trigger] nodes@[i].children@[k]) < nodes@.len(),
            Err(m) => xml_document(xml@) == Err::<Seq<XmlModel>, Seq<char>>(m@),
        },
{
    let doc = roxmltree::Document::parse(xml).map_err(|error| error.to_string())?;
    Ok(doc.descendants().map(|node| XmlNode {
        element: node.is_element(),
        name: node.tag_name().name().to_owned(),
        text: node.text().map(|t| t.to_owned()),
        attrs: node.attributes().map(|a| (a.name().to_owned(), a.value().to_owned())).collect(),
        children: node.children().map(|c| c.id().get_usize()).collect(),
    }).collect())
}

/// Every child position of every node is a position in `ns`.
pub open spec fn well_linked(ns: Seq<XmlModel>) -> bool {
    forall|i: int, k: int|
        0 <= i < ns.len() && 0 <= k < ns[i].children.len() ==> (#[trigger] ns[i].children[k]) < ns.len()
}

pub open spec fn is_named(n: XmlModel, name: Seq<char>) -> bool {
    n.element && n.name == name
}

/// The first node at or after `i` that is an element named `name`.
pub open spec fn first_named(ns: Seq<XmlModel>, name: Seq<char>, i: int) -> Option<int>
    decreases ns.len() - i,
{
    if i < 0 || i >= ns.len() {
        None
    } else if is_named(ns[i], name) {
        Some(i)
    } else {
        first_named(ns, name, i + 1)
    }
}

/// The first child (from the `k`-th) of node `i` that is an element named
/// `name`.
pub open spec fn first_child_named(ns: Seq<XmlModel>, i: int, name: Seq<char>, k: int) -> Option<int>
    decreases ns[i].children.len() - k,
{
    if k < 0 || k >= ns[i].children.len() {
        None
    } else if is_named(ns[ns[i].children[k] as int], name) {
        Some(ns[i].children[k] as int)
    } else {
        first_child_named(ns, i, name, k + 1)
    }
}

/// The text of the first child element of node `i` named `name`, with its
/// whitespace runs made single spaces and its ends trimmed.
pub open spec fn child_text_spec(ns: Seq<XmlModel>, i: int, name: Seq<char>) -> Option<Seq<char>> {
    match first_child_named(ns, i, name, 0) {
        Some(c) => match ns[c].text {
            Some(t) => Some(normalize_ws(t)),
            None => None,
        },
        None => None,
    }
}

/// The value of the first attribute from the `k`-th named `name`.
pub open spec fn attribute_from(attrs: Seq<(Seq<char>, Seq<char>)>, name: Seq<char>, k: int) -> Option<
    Seq<char>,
>
    decreases attrs.len() - k,
{
    if k < 0 || k >= attrs.len() {
        None
    } else if attrs[k].0 == name {
        Some(attrs[k].1)
    } else {
        attribute_from(attrs, name, k + 1)
    }
}

/// What the `k`-th child of node `e` contributes to a list: for a child
/// element named `tag`, the value `pick` finds in it, if any.
pub open spec fn pick_child(
    ns: Seq<XmlModel>,
    e: int,
    k: int,
    tag: Seq<char>,
    pick: spec_fn(int) -> Option<Seq<char>>,
) -> Seq<Seq<char>> {
    let c = ns[e].children[k] as int;
    if is_named(ns[c], tag) && pick(c) is Some {
        seq![pick(c)->0]
    } else {
        Seq::empty()
    }
}

/// The values picked from the children of `e` named `tag`, from the
/// `k`-th child on.
pub open spec fn collect_children(
    ns: Seq<XmlModel>,
    e: int,
    k: int,
    tag: Seq<char>,
    pick: spec_fn(int) -> Option<Seq<char>>,
) -> Seq<Seq<char>>
    decreases ns[e].children.len() - k,
{
    if k < 0 || k >= ns[e].children.len() {
        Seq::empty()
    } else {
        pick_child(ns, e, k, tag, pick) + collect_children(ns, e, k + 1, tag, pick)
    }
}

/// The metadata of the entry element `e`.
pub open spec fn entry_metadata(ns: Seq<XmlModel>, e: int) -> MetadataModel {
    MetadataModel {
        title: child_text_spec(ns, e, "title"@),
        authors: collect_children(ns, e, 0, "author"@, |c: int| child_text_spec(ns, c, "name"@)),
        abstract_text: child_text_spec(ns, e, "summary"@),
        categories: collect_children(
            ns,
            e,
            0,
            "category"@,
            |c: int| attribute_from(ns[c].attrs, "term"@, 0),
        ),
        published: child_text_spec(ns, e, "published"@),
        updated: child_text_spec(ns, e, "updated"@),
    }
}

/// What reading an Atom feed comes to.
pub ghost enum AtomOutcome {
    Unparsable(Seq<char>),
    MissingEntry,
    Parsed(MetadataModel),
}

/// An Atom feed is read from its first `entry` element.
pub open spec fn atom_outcome(xml: Seq<char>) -> AtomOutcome {
    match xml_document(xml) {
        Err(m) => AtomOutcome::Unparsable(m),
        Ok(ns) => match first_named(ns, "entry"@, 0) {
            None => AtomOutcome::MissingEntry,
            Some(e) => AtomOutcome::Parsed(entry_metadata(ns, e)),
        },
    }
}

fn is_named_exec(n: &XmlNode, name: &Vec<char>) -> (b: bool)
    ensures
        b == is_named(n@, name@),
{
    if !n.element {
        return false;
    }
    let v = chars_of(n.name.as_str());
    chars_eq(v.as_slice(), name.as_slice())
}

fn first_child_named_exec(nodes: &Vec<XmlNode>, i: usize, name: &Vec<char>) -> (r: Option<usize>)
    requires
        i < nodes.len(),
        well_linked(xml_models(nodes@)),
    ensures
        match r {
            Some(c) => first_child_named(xml_models(nodes@), i as int, name@, 0) == Some(c as int)
                && c < nodes.len(),
            None => first_child_named(xml_models(nodes@), i as int, name@, 0) is None,
        },
{
    let ghost ns = xml_models(nodes@);
    let kids = &nodes[i].children;
    let mut k: usize = 0;
    while k < kids.len()
        invariant
            i < nodes.len(),
            ns == xml_models(nodes@),
            well_linked(ns),
            kids@ == ns[i as int].children,
            k <= kids.len(),
            first_child_named(ns, i as int, name@, k as int) == first_child_named(
                ns,
                i as int,
                name@,
                0,
            ),
        decreases kids.len() - k,
    {
        let c = kids[k];
        assert(c < nodes.len()) by {
            assert(ns[i as int].children[k as int] < ns.len());
        }
        if is_named_exec(&nodes[c], name) {
            return Some(c);
        }
        k = k + 1;
    }
    None
}

fn child_text(nodes: &Vec<XmlNode>, i: usize, name: &str) -> (r: Option<String>)
    requires
        i < nodes.len(),
        well_linked(xml_models(nodes@)),
    ensures
        match r {
            Some(t) => child_text_spec(xml_models(nodes@), i as int, name@) == Some(t@),
            None => child_text_spec(xml_models(nodes@), i as int, name@) is None,
        },
{
    let n = chars_of(name);
    match first_child_named_exec(nodes, i, &n) {
        Some(c) => match &nodes[c].text {
            Some(t) => Some(normalize_ws_str(t.as_str())),
            None => None,
        },
        None => None,
    }
}

fn attribute(attrs: &Vec<(String, String)>, name: &str) -> (r: Option<String>)
    ensures
        match r {
            Some(v) => attribute_from(attrs@.map_values(|a: (String, String)| (a.0@, a.1@)), name@, 0)
                == Some(v@),
            None => attribute_from(attrs@.map_values(|a: (String, String)| (a.0@, a.1@)), name@, 0) is None,
        },
{
    let ghost am = attrs@.map_values(|a: (String, String)| (a.0@, a.1@));
    let n = chars_of(name);
    let mut k: usize = 0;
    while k < attrs.len()
        invariant
            k <= attrs.len(),
            n@ == name@,
            am == attrs@.map_values(|a: (String, String)| (a.0@, a.1@)),
            attribute_from(am, name@, k as int) == attribute_from(am, name@, 0),
        decreases attrs.len() - k,
    {
        let a = chars_of(attrs[k].0.as_str());
        if chars_eq(a.as_slice(), n.as_slice()) {
            return Some(attrs[k].1.clone());
        }
        k = k + 1;
    }
    None
}

/// The names of the `author` children of the entry.
fn entry_authors(nodes: &Vec<XmlNode>, e: usize) -> (r: Vec<String>)
    requires
        e < nodes.len(),
        well_linked(xml_models(nodes@)),
    ensures
        sviews(r@) == entry_metadata(xml_models(nodes@), e as int).authors,
{
    let ghost ns = xml_models(nodes@);
    let ghost pick = |c: int| child_text_spec(ns, c, "name"@);
    let tag = chars_of("author");
    let kids = &nodes[e].children;
    let mut out: Vec<String> = Vec::new();
    let mut k: usize = 0;
    while k < kids.len()
        invariant
            e < nodes.len(),
            ns == xml_models(nodes@),
            well_linked(ns),
            kids@ == ns[e as int].children,
            tag@ == "author"@,
            pick == (|c: int| child_text_spec(ns, c, "name"@)),
            k <= kids.len(),
            sviews(out@) + collect_children(ns, e as int, k as int, "author"@, pick)
                == collect_children(ns, e as int, 0, "author"@, pick),
        decreases kids.len() - k,
    {
        let ghost before = sviews(out@);
        let c = kids[k];
        assert(c < nodes.len()) by {
            assert(ns[e as int].children[k as int] < ns.len());
        }
        if is_named_exec(&nodes[c], &tag) {
            match child_text(nodes, c, "name") {
                Some(t) => {
                    out.push(t);
                    assert(sviews(out@) =~= before.push(t@));
                },
                None => {},
            }
        }
        assert(sviews(out@) + collect_children(ns, e as int, k + 1, "author"@, pick) =~= before
            + collect_children(ns, e as int, k as int, "author"@, pick));
        k = k + 1;
    }
    assert(sviews(out@) + Seq::<Seq<char>>::empty() =~= sviews(out@));
    out
}

/// The `term` attributes of the `category` children of the entry.
fn entry_categories(nodes: &Vec<XmlNode>, e: usize) -> (r: Vec<String>)
    requires
        e < nodes.len(),
        well_linked(xml_models(nodes@)),
    ensures
        sviews(r@) == entry_metadata(xml_models(nodes@), e as int).categories,
{
    let ghost ns = xml_models(nodes@);
    let ghost pick = |c: int| attribute_from(ns[c].attrs, "term"@, 0);
    let tag = chars_of("category");
    let kids = &nodes[e].children;
    let mut out: Vec<String> = Vec::new();
    let mut k: usize = 0;
    while k < kids.len()
        invariant
            e < nodes.len(),
            ns == xml_models(nodes@),
            well_linked(ns),
            kids@ == ns[e as int].children,
            tag@ == "category"@,
            pick == (|c: int| attribute_from(ns[c].attrs, "term"@, 0)),
            k <= kids.len(),
            sviews(out@) + collect_children(ns, e as int, k as int, "category"@, pick)
                == collect_children(ns, e as int, 0, "category"@, pick),
        decreases kids.len() - k,
    {
        let ghost before = sviews(out@);
        let c = kids[k];
        assert(c < nodes.len()) by {
            assert(ns[e as int].children[k as int] < ns.len());
        }
        if is_named_exec(&nodes[c], &tag) {
            match attribute(&nodes[c].attrs, "term") {
                Some(t) => {
                    out.push(t);
                    assert(sviews(out@) =~= before.push(t@));
                },
                None => {},
            }
        }
        assert(sviews(out@) + collect_children(ns, e as int, k + 1, "category"@, pick) =~= before
            + collect_children(ns, e as int, k as int, "category"@, pick));
        k = k + 1;
    }
    assert(sviews(out@) + Seq::<Seq<char>>::empty() =~= sviews(out@));
    out
}

/// The metadata of the first `entry` of an Atom feed, given its nodes.
pub fn metadata_from_nodes(nodes: &Vec<XmlNode>) -> (r: Option<PaperMetadata>)
    requires
        well_linked(xml_models(nodes@)),
    ensures
        match r {
            Some(m) => first_named(xml_models(nodes@), "entry"@, 0) matches Some(e) && m@
                == entry_metadata(xml_models(nodes@), e),
            None => first_named(xml_models(nodes@), "entry"@, 0) is None,
        },
{
    let ghost ns = xml_models(nodes@);
    let entry = chars_of("entry");
    let mut i: usize = 0;
    while i < nodes.len()
        invariant
            i <= nodes.len(),
            ns == xml_models(nodes@),
            well_linked(ns),
            entry@ == "entry"@,
            first_named(ns, "entry"@, i as int) == first_named(ns, "entry"@, 0),
        decreases nodes.len() - i,
    {
        if is_named_exec(&nodes[i], &entry) {
            let m = PaperMetadata {
                title: child_text(nodes, i, "title"),
                authors: entry_authors(nodes, i),
                abstract_text: child_text(nodes, i, "summary"),
                categories: entry_categories(nodes, i),
                published: child_text(nodes, i, "published"),
                updated: child_text(nodes, i, "updated"),
            };
            assert(m@ =~= entry_metadata(ns, i as int));
            return Some(m);
        }
        i = i + 1;
    }
    None
}

/// Reads the metadata of a paper from an Atom feed of the arXiv API.
pub fn parse_atom(xml: &str) -> (r: Result<PaperMetadata, Arxiv2MdError>)
    ensures
        match r {
            Ok(m) => atom_outcome(xml@) == AtomOutcome::Parsed(m@),
            Err(e) => match atom_outcome(xml@) {
                AtomOutcome::Unparsable(msg) => e matches Arxiv2MdError::Metadata(m) && m@ == msg,
                AtomOutcome::MissingEntry => e matches Arxiv2MdError::Metadata(m) && m@
                    == "atom feed missing entry"@,
                AtomOutcome::Parsed(_) => false,
            },
        },
{
    match parse_xml(xml) {
        Err(message) => Err(Arxiv2MdError::Metadata(message)),
        Ok(nodes) => match metadata_from_nodes(&nodes) {
            Some(m) => Ok(m),
            None => Err(Arxiv2MdError::Metadata(String::from_str("atom feed missing entry"))),
        },
    }
}

} // verus!
