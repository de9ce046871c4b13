//! Building a section tree from the headings of a document, read in order.
use vstd::prelude::*;

use crate::model::{copy_opt_string, opt_view, section_models, SectionModel, SectionNode};

verus! {

/// One heading of a document with the text that follows it.
pub struct FlatSection {
    pub level: u8,
    pub title: String,
    pub anchor: Option<String>,
    pub markdown: String,
}

pub ghost struct FlatModel {
    pub level: u8,
    pub title: Seq<char>,
    pub anchor: Option<Seq<char>>,
    pub markdown: Seq<char>,
}

impl View for FlatSection {
    type V = FlatModel;

    open spec fn view(&self) -> FlatModel {
        FlatModel {
            level: self.level,
            title: self.title@,
            anchor: opt_view(self.anchor),
            markdown: self.markdown@,
        }
    }
}

pub open spec fn flat_models(v: Seq<FlatSection>) -> Seq<FlatModel> {
    v.map_values(|f: FlatSection| f@)
}

/// The first position in `j..hi` whose heading is at level `lvl` or above
/// (a number at most `lvl`), or `hi`: where the subtree of a heading at
/// level `lvl` ends.
pub open spec fn scan_end(items: Seq<FlatModel>, lvl: u8, j: int, hi: int) -> int
    decreases hi - j,
{
    if j >= hi {
        hi
    } else if items[j].level <= lvl {
        j
    } else {
        scan_end(items, lvl, j + 1, hi)
    }
}

pub proof fn lemma_scan_end(items: Seq<FlatModel>, lvl: u8, j: int, hi: int)
    requires
        j <= hi,
    ensures
        j <= scan_end(items, lvl, j, hi) <= hi,
        forall|k: int| j <= k < scan_end(items, lvl, j, hi) ==> items[k].level > lvl,
        scan_end(items, lvl, j, hi) < hi ==> items[scan_end(items, lvl, j, hi)].level <= lvl,
    decreases hi - j,
{
    if j < hi && items[j].level > lvl {
        lemma_scan_end(items, lvl, j + 1, hi);
    }
}

/// The forest of `items[lo..hi]`: each heading owns the headings after it
/// that are deeper (have a larger level number) up to the next heading at
/// its level or above; those owned headings form its children.
pub open spec fn forest(items: Seq<FlatModel>, lo: int, hi: int) -> Seq<SectionModel>
    decreases hi - lo,
{
    if lo >= hi {
        Seq::empty()
    } else {
        let e = scan_end(items, items[lo].level, lo + 1, hi);
        proof {
            lemma_scan_end(items, items[lo].level, lo + 1, hi);
        }
        seq![
            SectionModel {
                title: items[lo].title,
                level: items[lo].level,
                anchor: items[lo].anchor,
                markdown: items[lo].markdown,
                children: forest(items, lo + 1, e),
            },
        ] + forest(items, e, hi)
    }
}

fn scan_end_exec(items: &Vec<FlatSection>, lvl: u8, j: usize, hi: usize) -> (r: usize)
    requires
        j <= hi <= items.len(),
    ensures
        r == scan_end(flat_models(items@), lvl, j as int, hi as int),
{
    let mut k = j;
    while k < hi && items[k].level > lvl
        invariant
            j <= k <= hi <= items.len(),
            scan_end(flat_models(items@), lvl, k as int, hi as int) == scan_end(
                flat_models(items@),
                lvl,
                j as int,
                hi as int,
            ),
        decreases hi - k,
    {
        k = k + 1;
    }
    k
}

fn build_forest(items: &Vec<FlatSection>, lo: usize, hi: usize) -> (r: Vec<SectionNode>)
    requires
        lo <= hi <= items.len(),
    ensures
        section_models(r@) == forest(flat_models(items@), lo as int, hi as int),
    decreases hi - lo,
{
    let ghost m = flat_models(items@);
    let mut out: Vec<SectionNode> = Vec::new();
    let mut i = lo;
    while i < hi
        invariant
            lo <= i <= hi <= items.len(),
            m == flat_models(items@),
            section_models(out@) + forest(m, i as int, hi as int) == forest(m, lo as int, hi as int),
        decreases hi - i,
    {
        let e = scan_end_exec(items, items[i].level, i + 1, hi);
        proof {
            lemma_scan_end(m, m[i as int].level, i + 1, hi as int);
        }
        let children = build_forest(items, i + 1, e);
        let node = SectionNode {
            title: items[i].title.clone(),
            level: items[i].level,
            anchor: copy_opt_string(&items[i].anchor),
            markdown: items[i].markdown.clone(),
            children,
        };
        proof {
            let kids = forest(m, i + 1, e as int);
            assert(section_models(node.children@) == kids);
            assert forall|k: int| 0 <= k < kids.len() implies node@.children[k] == kids[k] by {
                assert(section_models(node.children@)[k] == node.children@[k]@);
            }
            assert(node@.children.len() == kids.len());
            assert(node@.children =~= kids);
        }
        let ghost before = section_models(out@);
        out.push(node);
        assert(section_models(out@) =~= before.push(node@));
        assert(section_models(out@) + forest(m, e as int, hi as int) =~= before + forest(
            m,
            i as int,
            hi as int,
        ));
        i = e;
    }
    assert(section_models(out@) + Seq::<SectionModel>::empty() =~= section_models(out@));
    out
}

/// The section tree of headings read in document order.
pub fn build_tree(flat: Vec<FlatSection>) -> (r: Vec<SectionNode>)
    ensures
        section_models(r@) == forest(flat_models(flat@), 0, flat@.len() as int),
{
    build_forest(&flat, 0, flat.len())
}

} // verus!

verus! {

// ------------------------------------------------------------------- laws

/// A heading of a tree node, without its children.
pub open spec fn flat_of(n: SectionModel) -> FlatModel {
    FlatModel { level: n.level, title: n.title, anchor: n.anchor, markdown: n.markdown }
}

/// The headings of a forest in document order (preorder).
pub open spec fn preorder(ns: Seq<SectionModel>) -> Seq<FlatModel>
    decreases ns,
{
    if ns.len() == 0 {
        Seq::empty()
    } else {
        seq![flat_of(ns[0])] + preorder(ns[0].children) + preorder(ns.drop_first())
    }
}

/// Every node of a forest is at a deeper level than `lvl`, and each node's
/// children are deeper than the node.
pub open spec fn nested_below(ns: Seq<SectionModel>, lvl: int) -> bool
    decreases ns,
{
    ns.len() == 0 || {
        &&& ns[0].level > lvl
        &&& nested_below(ns[0].children, ns[0].level as int)
        &&& nested_below(ns.drop_first(), lvl)
    }
}

pub proof fn lemma_preorder_concat(a: Seq<SectionModel>, b: Seq<SectionModel>)
    ensures
        preorder(a + b) == preorder(a) + preorder(b),
    decreases a.len(),
{
    if a.len() == 0 {
        assert(a + b =~= b);
        assert(preorder(a) + preorder(b) =~= preorder(b));
    } else {
        assert((a + b)[0] == a[0]);
        assert((a + b).drop_first() =~= a.drop_first() + b);
        lemma_preorder_concat(a.drop_first(), b);
        assert(preorder(a + b) =~= preorder(a) + preorder(b));
    }
}

proof fn lemma_preorder_forest(items: Seq<FlatModel>, lo: int, hi: int)
    requires
        0 <= lo <= hi <= items.len(),
    ensures
        preorder(forest(items, lo, hi)) == items.subrange(lo, hi),
    decreases hi - lo,
{
    if lo < hi {
        let e = scan_end(items, items[lo].level, lo + 1, hi);
        lemma_scan_end(items, items[lo].level, lo + 1, hi);
        lemma_preorder_forest(items, lo + 1, e);
        lemma_preorder_forest(items, e, hi);
        let kids = forest(items, lo + 1, e);
        let node = SectionModel {
            title: items[lo].title,
            level: items[lo].level,
            anchor: items[lo].anchor,
            markdown: items[lo].markdown,
            children: kids,
        };
        let rest = forest(items, e, hi);
        assert(forest(items, lo, hi) == seq![node] + rest);
        lemma_preorder_concat(seq![node], rest);
        assert(seq![node].drop_first() =~= Seq::<SectionModel>::empty());
        assert(seq![node][0] == node);
        assert(preorder(seq![node].drop_first()) == Seq::<FlatModel>::empty());
        assert(preorder(seq![node]) == seq![flat_of(node)] + preorder(kids) + Seq::<
            FlatModel,
        >::empty());
        assert(preorder(seq![node]) =~= seq![flat_of(node)] + preorder(kids));
        assert(flat_of(node) == items[lo]);
        assert(items.subrange(lo, hi) =~= seq![items[lo]] + items.subrange(lo + 1, e)
            + items.subrange(e, hi));
    } else {
        assert(items.subrange(lo, hi) =~= Seq::<FlatModel>::empty());
    }
}

proof fn lemma_forest_nested(items: Seq<FlatModel>, lo: int, hi: int, lvl: int)
    requires
        0 <= lo <= hi <= items.len(),
        forall|k: int| lo <= k < hi ==> items[k].level > lvl,
    ensures
        nested_below(forest(items, lo, hi), lvl),
    decreases hi - lo,
{
    if lo < hi {
        let e = scan_end(items, items[lo].level, lo + 1, hi);
        lemma_scan_end(items, items[lo].level, lo + 1, hi);
        lemma_forest_nested(items, lo + 1, e, items[lo].level as int);
        lemma_forest_nested(items, e, hi, lvl);
        let f = forest(items, lo, hi);
        assert(f.drop_first() =~= forest(items, e, hi));
    }
}

/// Building the tree loses and reorders nothing: reading the headings of
/// the tree in document order gives back the headings it was built from.
pub proof fn law_tree_preorder_is_input(items: Seq<FlatModel>)
    ensures
        preorder(forest(items, 0, items.len() as int)) == items,
{
    lemma_preorder_forest(items, 0, items.len() as int);
    assert(items.subrange(0, items.len() as int) =~= items);
}

/// In the tree, every section's subsections are at a deeper level than the
/// section itself.
pub proof fn law_tree_children_deeper(items: Seq<FlatModel>)
    ensures
        nested_below(forest(items, 0, items.len() as int), -1),
{
    lemma_forest_nested(items, 0, items.len() as int, -1);
}

/// A heading without its anchor (what Markdown headings give).
pub open spec fn without_anchor(f: FlatModel) -> FlatModel {
    FlatModel { anchor: None, ..f }
}

/// A forest with every anchor removed.
pub open spec fn strip_anchors(ns: Seq<SectionModel>) -> Seq<SectionModel>
    decreases ns,
{
    if ns.len() == 0 {
        Seq::empty()
    } else {
        seq![SectionModel { anchor: None, children: strip_anchors(ns[0].children), ..ns[0] }]
            + strip_anchors(ns.drop_first())
    }
}

proof fn lemma_scan_end_levels(a: Seq<FlatModel>, b: Seq<FlatModel>, lvl: u8, j: int, hi: int)
    requires
        0 <= j,
        a.len() == b.len(),
        hi <= a.len(),
        forall|k: int| 0 <= k < a.len() ==> (#[trigger] a[k]).level == b[k].level,
    ensures
        scan_end(a, lvl, j, hi) == scan_end(b, lvl, j, hi),
    decreases hi - j,
{
    if j < hi {
        lemma_scan_end_levels(a, b, lvl, j + 1, hi);
    }
}

proof fn lemma_forest_without_anchors(items: Seq<FlatModel>, lo: int, hi: int)
    requires
        0 <= lo <= hi <= items.len(),
    ensures
        forest(items.map_values(|f: FlatModel| without_anchor(f)), lo, hi) == strip_anchors(
            forest(items, lo, hi),
        ),
    decreases hi - lo,
{
    let bare = items.map_values(|f: FlatModel| without_anchor(f));
    if lo < hi {
        assert(bare[lo].level == items[lo].level);
        assert(forall|k: int| 0 <= k < items.len() ==> (#[trigger] items[k]).level == bare[k].level);
        lemma_scan_end_levels(items, bare, items[lo].level, lo + 1, hi);
        let e = scan_end(items, items[lo].level, lo + 1, hi);
        lemma_scan_end(items, items[lo].level, lo + 1, hi);
        lemma_forest_without_anchors(items, lo + 1, e);
        lemma_forest_without_anchors(items, e, hi);
        let node = SectionModel {
            title: items[lo].title,
            level: items[lo].level,
            anchor: items[lo].anchor,
            markdown: items[lo].markdown,
            children: forest(items, lo + 1, e),
        };
        let f = forest(items, lo, hi);
        assert(f == seq![node] + forest(items, e, hi));
        assert(f[0] == node);
        assert(f.drop_first() =~= forest(items, e, hi));
        assert(forest(bare, lo, hi) =~= strip_anchors(f));
    }
}

/// Headings read from Markdown (without anchors) and from HTML (with
/// anchors) give the same tree: building from the headings without their
/// anchors is building from them and then dropping every anchor.
pub proof fn law_tree_ignores_anchors(items: Seq<FlatModel>)
    ensures
        forest(
            items.map_values(|f: FlatModel| without_anchor(f)),
            0,
            items.len() as int,
        ) == strip_anchors(forest(items, 0, items.len() as int)),
{
    lemma_forest_without_anchors(items, 0, items.len() as int);
}

/// In every list of sibling sections, each section is at the level of the
/// one before it or above (a smaller or equal level number): a heading
/// deeper than the one before it would have been that one's subsection.
pub open spec fn siblings_not_deeper(ns: Seq<SectionModel>) -> bool
    decreases ns,
{
    ns.len() == 0 || {
        &&& (ns.len() > 1 ==> ns[1].level <= ns[0].level)
        &&& siblings_not_deeper(ns[0].children)
        &&& siblings_not_deeper(ns.drop_first())
    }
}

proof fn lemma_forest_first(items: Seq<FlatModel>, lo: int, hi: int)
    requires
        0 <= lo < hi <= items.len(),
    ensures
        forest(items, lo, hi).len() > 0,
        forest(items, lo, hi)[0].level == items[lo].level,
{
}

proof fn lemma_forest_siblings(items: Seq<FlatModel>, lo: int, hi: int)
    requires
        0 <= lo <= hi <= items.len(),
    ensures
        siblings_not_deeper(forest(items, lo, hi)),
    decreases hi - lo,
{
    if lo < hi {
        let e = scan_end(items, items[lo].level, lo + 1, hi);
        lemma_scan_end(items, items[lo].level, lo + 1, hi);
        lemma_forest_siblings(items, lo + 1, e);
        lemma_forest_siblings(items, e, hi);
        let f = forest(items, lo, hi);
        assert(f.drop_first() =~= forest(items, e, hi));
        if e < hi {
            lemma_forest_first(items, e, hi);
            assert(f[1] == forest(items, e, hi)[0]);
        }
    }
}

/// The tree is the one the headings describe: read in document order its
/// sections are the headings (`law_tree_preorder_is_input`), subsections
/// are deeper than their section (`law_tree_children_deeper`), and no
/// section is followed by a deeper sibling; so every heading owns exactly
/// the deeper headings that follow it up to the next one at its level or
/// above, and a heading directly followed by a deeper one has it as its
/// first subsection.
pub proof fn law_tree_siblings_not_deeper(items: Seq<FlatModel>)
    ensures
        siblings_not_deeper(forest(items, 0, items.len() as int)),
{
    lemma_forest_siblings(items, 0, items.len() as int);
}

/// A heading directly followed by a deeper heading has it as its first
/// subsection.
pub proof fn law_deeper_next_heading_is_first_child(items: Seq<FlatModel>)
    requires
        items.len() >= 2,
        items[1].level > items[0].level,
    ensures
        forest(items, 0, items.len() as int)[0].children.len() > 0,
        forest(items, 0, items.len() as int)[0].children[0].title == items[1].title,
        forest(items, 0, items.len() as int)[0].children[0].level == items[1].level,
{
    let e = scan_end(items, items[0].level, 1, items.len() as int);
    lemma_scan_end(items, items[0].level, 1, items.len() as int);
    assert(e > 1);
    lemma_forest_first(items, 1, e);
}

} // verus!

