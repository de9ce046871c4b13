//! The data that flows through a conversion: options, identifiers, paper
//! metadata, section trees and documents, with their mathematical views.
use vstd::prelude::*;

use crate::text::sviews;

verus! {

#[derive(Debug, Clone, Copy, PartialEq, Eq, Structural)]
pub enum SectionFilterMode {
    Include,
    Exclude,
}

/// Options of one conversion, as the command line gives them.
#[derive(Debug)]
pub struct CliOptions {
    pub input: String,
    pub output: String,
    pub frontmatter: bool,
    pub keep_refs: bool,
    pub keep_toc: bool,
    pub remove_inline_citations: bool,
    pub include_tree: bool,
    pub refresh: bool,
    pub sections: Vec<String>,
    pub section_filter_mode: SectionFilterMode,
    /// A directory that replaces the platform cache directory.
    pub cache_dir: Option<String>,
    pub pandoc_path: String,
}

/// A parsed arXiv identifier with the URLs of its representations.
#[derive(Debug)]
pub struct ArxivId {
    pub normalized: String,
    pub version: Option<String>,
    pub versioned_input: bool,
    pub abs_url: String,
    pub html_url: String,
    pub ar5iv_url: String,
    pub pdf_url: String,
    pub eprint_url: String,
}

#[derive(Debug)]
pub struct PaperMetadata {
    pub title: Option<String>,
    pub authors: Vec<String>,
    pub abstract_text: Option<String>,
    pub categories: Vec<String>,
    pub published: Option<String>,
    pub updated: Option<String>,
}

/// One section of a paper with its nested subsections.
#[derive(Debug)]
pub struct SectionNode {
    pub title: String,
    pub level: u8,
    pub anchor: Option<String>,
    pub markdown: String,
    pub children: Vec<SectionNode>,
}

#[derive(Debug)]
pub struct HtmlPaper {
    pub title: Option<String>,
    pub authors: Vec<String>,
    pub abstract_text: Option<String>,
    pub sections: Vec<SectionNode>,
}

/// The representation a document was produced from.
#[derive(Debug, Clone, Copy, PartialEq, Eq, Structural)]
pub enum ResolvedVia {
    ArxivHtml,
    Ar5iv,
    LatexSource,
    Pdf,
}

#[derive(Debug)]
pub struct PaperDocument {
    pub metadata: PaperMetadata,
    pub sections: Vec<SectionNode>,
    pub fallback_markdown: Option<String>,
    pub resolved_via: ResolvedVia,
    pub supports_tree: bool,
}

/// The YAML header of a rendered paper; `resolved_via` holds the
/// snake-case name of the representation, as it is written out.
#[derive(Debug)]
pub struct Frontmatter {
    pub title: Option<String>,
    pub arxiv_id: String,
    pub version: Option<String>,
    pub authors: Vec<String>,
    pub abstract_text: Option<String>,
    pub categories: Vec<String>,
    pub published: Option<String>,
    pub updated: Option<String>,
    pub abs_url: String,
    pub resolved_via: String,
}

#[derive(Debug)]
pub struct ConversionOutput {
    pub markdown: String,
    pub warnings: Vec<String>,
}

/// Where and how long fetched artifacts are kept: `ttl_secs` is `None`
/// when cached files never expire.
#[derive(Debug)]
pub struct CachePolicy {
    pub dir: String,
    pub ttl_secs: Option<u64>,
    pub refresh: bool,
}

#[derive(Debug)]
pub struct FetchedText {
    pub body: String,
}

#[derive(Debug)]
pub struct FetchedBytes {
    pub body: Vec<u8>,
    pub content_type: Option<String>,
}

// ------------------------------------------------------------------ views

pub open spec fn opt_view(o: Option<String>) -> Option<Seq<char>> {
    match o {
        Some(s) => Some(s@),
        None => None,
    }
}

/// The mathematical value of a section tree.
pub ghost struct SectionModel {
    pub title: Seq<char>,
    pub level: u8,
    pub anchor: Option<Seq<char>>,
    pub markdown: Seq<char>,
    pub children: Seq<SectionModel>,
}

pub open spec fn section_model(n: SectionNode) -> SectionModel
    decreases n,
{
    SectionModel {
        title: n.title@,
        level: n.level,
        anchor: opt_view(n.anchor),
        markdown: n.markdown@,
        children: Seq::new(
            n.children@.len(),
            |i: int|
                if 0 <= i < n.children@.len() {
                    section_model(n.children@[i])
                } else {
                    SectionModel {
                        title: Seq::empty(),
                        level: 0,
                        anchor: None,
                        markdown: Seq::empty(),
                        children: Seq::empty(),
                    }
                },
        ),
    }
}

impl View for SectionNode {
    type V = SectionModel;

    open spec fn view(&self) -> SectionModel {
        section_model(*self)
    }
}

/// The views of a sequence of section nodes.
pub open spec fn section_models(ns: Seq<SectionNode>) -> Seq<SectionModel> {
    ns.map_values(|n: SectionNode| n@)
}

pub ghost struct MetadataModel {
    pub title: Option<Seq<char>>,
    pub authors: Seq<Seq<char>>,
    pub abstract_text: Option<Seq<char>>,
    pub categories: Seq<Seq<char>>,
    pub published: Option<Seq<char>>,
    pub updated: Option<Seq<char>>,
}

impl View for PaperMetadata {
    type V = MetadataModel;

    open spec fn view(&self) -> MetadataModel {
        MetadataModel {
            title: opt_view(self.title),
            authors: sviews(self.authors@),
            abstract_text: opt_view(self.abstract_text),
            categories: sviews(self.categories@),
            published: opt_view(self.published),
            updated: opt_view(self.updated),
        }
    }
}

/// The mathematical value of a paper read from arXiv HTML.
pub ghost struct PaperModel {
    pub title: Option<Seq<char>>,
    pub authors: Seq<Seq<char>>,
    pub abstract_text: Option<Seq<char>>,
    pub sections: Seq<SectionModel>,
}

impl View for HtmlPaper {
    type V = PaperModel;

    open spec fn view(&self) -> PaperModel {
        PaperModel {
            title: opt_view(self.title),
            authors: sviews(self.authors@),
            abstract_text: opt_view(self.abstract_text),
            sections: section_models(self.sections@),
        }
    }
}

/// The mathematical value of a document ready to be rendered.
pub ghost struct DocumentModel {
    pub metadata: MetadataModel,
    pub sections: Seq<SectionModel>,
    pub fallback_markdown: Option<Seq<char>>,
    pub resolved_via: ResolvedVia,
    pub supports_tree: bool,
}

impl View for PaperDocument {
    type V = DocumentModel;

    open spec fn view(&self) -> DocumentModel {
        DocumentModel {
            metadata: self.metadata@,
            sections: section_models(self.sections@),
            fallback_markdown: opt_view(self.fallback_markdown),
            resolved_via: self.resolved_via,
            supports_tree: self.supports_tree,
        }
    }
}

pub ghost struct FrontmatterModel {
    pub title: Option<Seq<char>>,
    pub arxiv_id: Seq<char>,
    pub version: Option<Seq<char>>,
    pub authors: Seq<Seq<char>>,
    pub abstract_text: Option<Seq<char>>,
    pub categories: Seq<Seq<char>>,
    pub published: Option<Seq<char>>,
    pub updated: Option<Seq<char>>,
    pub abs_url: Seq<char>,
    pub resolved_via: Seq<char>,
}

impl View for Frontmatter {
    type V = FrontmatterModel;

    open spec fn view(&self) -> FrontmatterModel {
        FrontmatterModel {
            title: opt_view(self.title),
            arxiv_id: self.arxiv_id@,
            version: opt_view(self.version),
            authors: sviews(self.authors@),
            abstract_text: opt_view(self.abstract_text),
            categories: sviews(self.categories@),
            published: opt_view(self.published),
            updated: opt_view(self.updated),
            abs_url: self.abs_url@,
            resolved_via: self.resolved_via@,
        }
    }
}

// ------------------------------------------------------------- copying

pub fn copy_opt_string(o: &Option<String>) -> (r: Option<String>)
    ensures
        opt_view(r) == opt_view(*o),
{
    match o {
        Some(s) => Some(s.clone()),
        None => None,
    }
}

pub fn copy_strings(v: &Vec<String>) -> (r: Vec<String>)
    ensures
        sviews(r@) == sviews(v@),
{
    let mut r: Vec<String> = Vec::new();
    let mut i: usize = 0;
    while i < v.len()
        invariant
            i <= v.len(),
            sviews(r@) == sviews(v@).take(i as int),
        decreases v.len() - i,
    {
        let ghost before = r@;
        let x = v[i].clone();
        r.push(x);
        assert(sviews(r@) =~= sviews(before).push(x@));
        i = i + 1;
        assert(sviews(r@) =~= sviews(v@).take(i as int));
    }
    assert(sviews(v@).take(v.len() as int) =~= sviews(v@));
    r
}

pub fn copy_metadata(m: &PaperMetadata) -> (r: PaperMetadata)
    ensures
        r@ == m@,
{
    PaperMetadata {
        title: copy_opt_string(&m.title),
        authors: copy_strings(&m.authors),
        abstract_text: copy_opt_string(&m.abstract_text),
        categories: copy_strings(&m.categories),
        published: copy_opt_string(&m.published),
        updated: copy_opt_string(&m.updated),
    }
}

/// A deep copy of a section tree.
pub fn copy_section(n: &SectionNode) -> (r: SectionNode)
    ensures
        r@ == n@,
    decreases n,
{
    let children = copy_sections(&n.children);
    let r = SectionNode {
        title: n.title.clone(),
        level: n.level,
        anchor: copy_opt_string(&n.anchor),
        markdown: n.markdown.clone(),
        children,
    };
    assert forall|i: int| 0 <= i < n.children@.len() implies section_model(r.children@[i])
        == section_model(n.children@[i]) by {
        assert(section_models(r.children@).len() == r.children@.len());
        assert(section_models(r.children@)[i] == r.children@[i]@);
        assert(section_models(n.children@)[i] == n.children@[i]@);
        assert(section_models(r.children@)[i] == section_models(n.children@)[i]);
    }
    assert(r@ == section_model(r));
    assert(section_model(r).title == r.title@);
    assert(section_model(r).children.len() == r.children@.len());
    assert(section_model(*n).children.len() == n.children@.len());
    assert(section_models(r.children@).len() == section_models(n.children@).len());
    assert(r.children@.len() == n.children@.len());
    assert(r@.children.len() == n@.children.len());
    assert forall|i: int| 0 <= i < n.children@.len() implies r@.children[i] == n@.children[i] by {
        assert(r@.children[i] == section_model(r.children@[i]));
        assert(n@.children[i] == section_model(n.children@[i]));
    }
    assert(r@.children =~= n@.children);
    r
}

pub fn copy_sections(v: &Vec<SectionNode>) -> (r: Vec<SectionNode>)
    ensures
        section_models(r@) == section_models(v@),
    decreases v, 0int,
{
    let mut r: Vec<SectionNode> = Vec::new();
    let mut i: usize = 0;
    while i < v.len()
        invariant
            i <= v.len(),
            section_models(r@) == section_models(v@).take(i as int),
        decreases v.len() - i,
    {
        let ghost before = r@;
        let c = copy_section(&v[i]);
        r.push(c);
        assert(section_models(r@) =~= section_models(before).push(c@));
        i = i + 1;
        assert(section_models(r@) =~= section_models(v@).take(i as int));
    }
    assert(section_models(v@).take(v.len() as int) =~= section_models(v@));
    r
}

} // verus!
