//! The decisions of a conversion: which representation of a paper to fetch
//! next, when to fall back to the next one, and what document is rendered.
//! The fetching, caching, the external LaTeX converter, the PDF text
//! extractor and the writing of the result are done by the caller, who
//! performs each `Action` and hands back
//! what came of it as an `Event`.
use vstd::prelude::*;

use crate::cache::{build_policy, policy_spec};
use crate::error::{error_message, Arxiv2MdError};
use crate::html::{paper_of, parse_document, walk_visits};
use crate::dom::document_events;
use crate::id::{has_urls, parse_outcome, IdOutcome};
use crate::markdown::{
    cleanup_generated_markdown, cleanup_spec, markdown_sections_spec, parse_markdown_sections,
    remove_references_from_text, remove_references_spec, render, render_failure, render_spec,
};
use crate::metadata::{atom_outcome, parse_atom, AtomOutcome};
use crate::model::{
    copy_metadata, copy_opt_string, opt_view, section_models, ArxivId, CachePolicy, CliOptions,
    ConversionOutput, DocumentModel, FetchedBytes, FetchedText, HtmlPaper, MetadataModel,
    PaperDocument, PaperMetadata, PaperModel, ResolvedVia, SectionModel, SectionNode,
};
use crate::pdf::{extraction_outcome, normalized_pdf_text};
use crate::text::{
    ascii_lower, ascii_lowercase, chars_of, concat, contains, contains_exec, push_string, sviews,
};

verus! {

broadcast use vstd::string::group_string_axioms;

// ------------------------------------------------------------- documents

/// The metadata of the API completed by what the HTML page gives: the
/// page's title, authors and abstract stand in for those the API lacks.
pub open spec fn merged_metadata(m: MetadataModel, p: PaperModel) -> MetadataModel {
    MetadataModel {
        title: if m.title is None {
            p.title
        } else {
            m.title
        },
        authors: if m.authors.len() == 0 {
            p.authors
        } else {
            m.authors
        },
        abstract_text: if m.abstract_text is None {
            p.abstract_text
        } else {
            m.abstract_text
        },
        ..m
    }
}

/// The document of a paper read from HTML.
pub open spec fn html_document_model(m: MetadataModel, p: PaperModel, via: ResolvedVia) -> DocumentModel {
    DocumentModel {
        metadata: merged_metadata(m, p),
        sections: p.sections,
        fallback_markdown: None,
        resolved_via: via,
        supports_tree: true,
    }
}

/// `html_document`: see `html_document_model`.
pub fn html_document(metadata: PaperMetadata, parsed: HtmlPaper, resolved_via: ResolvedVia) -> (r:
    PaperDocument)
    ensures
        r@ == html_document_model(metadata@, parsed@, resolved_via),
{
    let mut merged = metadata;
    let HtmlPaper { title, authors, abstract_text, sections } = parsed;
    if merged.title.is_none() {
        merged.title = title;
    }
    if merged.authors.len() == 0 {
        merged.authors = authors;
    }
    if merged.abstract_text.is_none() {
        merged.abstract_text = abstract_text;
    }
    PaperDocument {
        metadata: merged,
        sections,
        fallback_markdown: None,
        resolved_via,
        supports_tree: true,
    }
}

/// The document of a paper converted from its LaTeX source to `markdown`:
/// the cleaned Markdown split into sections, or kept whole when it has no
/// heading.
pub open spec fn latex_document_model(m: MetadataModel, markdown: Seq<char>) -> DocumentModel {
    let cleaned = cleanup_spec(markdown);
    let sections = markdown_sections_spec(cleaned);
    DocumentModel {
        metadata: m,
        sections,
        fallback_markdown: if sections.len() == 0 {
            Some(cleaned)
        } else {
            None
        },
        resolved_via: ResolvedVia::LatexSource,
        supports_tree: true,
    }
}

/// The text of a paper read from its PDF, references dropped unless kept.
pub open spec fn pdf_body(options: CliOptions, raw: Seq<char>) -> Seq<char> {
    let text = normalized_pdf_text(raw);
    if !options.keep_refs {
        remove_references_spec(text)
    } else {
        text
    }
}

/// The document of a paper read from its PDF: its text, with no sections.
pub open spec fn pdf_document_model(m: MetadataModel, body: Seq<char>) -> DocumentModel {
    DocumentModel {
        metadata: m,
        sections: Seq::empty(),
        fallback_markdown: Some(body),
        resolved_via: ResolvedVia::Pdf,
        supports_tree: false,
    }
}

/// The warnings after a PDF fallback: the options it cannot honour.
pub open spec fn pdf_warnings(options: CliOptions, w: Seq<Seq<char>>) -> Seq<Seq<char>> {
    w + (if options.remove_inline_citations {
        seq![
            "inline citation removal is not supported for PDF fallback; returning raw extracted text"@,
        ]
    } else {
        Seq::empty()
    }) + (if options.include_tree || options.sections.len() > 0 {
        seq!["section tree and section filtering are not available for PDF fallback"@]
    } else {
        Seq::empty()
    })
}

/// The bytes `%PDF-`.
pub open spec fn pdf_magic() -> Seq<u8> {
    seq![0x25u8, 0x50u8, 0x44u8, 0x46u8, 0x2du8]
}

/// A fetched body is a PDF: its content type (in ASCII lowercase) mentions
/// `application/pdf`, or it starts with `%PDF-`.
pub open spec fn pdf_like(bytes: Seq<u8>, content_type: Option<Seq<char>>) -> bool {
    (content_type matches Some(c) && contains(ascii_lower(c), "application/pdf"@)) || (bytes.len()
        >= 5 && bytes.subrange(0, 5) == pdf_magic())
}

/// `looks_like_pdf`: see `pdf_like`.
pub fn looks_like_pdf(bytes: &[u8], content_type: Option<&str>) -> (b: bool)
    ensures
        b == pdf_like(
            bytes@,
            match content_type {
                Some(c) => Some(c@),
                None => None,
            },
        ),
{
    let by_type = match content_type {
        Some(c) => {
            let v = chars_of(c);
            let l = ascii_lowercase(&v);
            let p = chars_of("application/pdf");
            contains_exec(l.as_slice(), p.as_slice())
        },
        None => false,
    };
    if by_type {
        return true;
    }
    if bytes.len() < 5 {
        return false;
    }
    let m = bytes[0] == 0x25u8 && bytes[1] == 0x50u8 && bytes[2] == 0x44u8 && bytes[3] == 0x46u8
        && bytes[4] == 0x2du8;
    assert(m == (bytes@.subrange(0, 5) =~= pdf_magic()));
    m
}

// ----------------------------------------------------------- the machine

/// Where a conversion stands: what it waits for.
#[derive(Debug, Clone, Copy, PartialEq, Eq, Structural)]
pub enum Stage {
    /// the Atom metadata of the API
    Metadata,
    /// the arXiv HTML page
    Primary,
    /// the ar5iv HTML page
    Ar5iv,
    /// the source archive
    Source,
    /// the conversion of the source archive to Markdown
    Converting,
    /// the PDF
    Pdf,
    /// the text extracted from the PDF
    Extracting,
    /// nothing: the conversion is over
    Done,
}

/// A conversion in progress.
#[derive(Debug)]
pub struct Pipeline {
    pub id: ArxivId,
    pub options: CliOptions,
    pub policy: CachePolicy,
    pub stage: Stage,
    pub metadata: PaperMetadata,
    pub warnings: Vec<String>,
}

/// What the caller is asked to do next.
#[derive(Debug)]
pub enum Action {
    /// Fetch a text, from the cache file `cache_name` when it is fresh, else
    /// from `url` (storing a successful body in the cache); a response that
    /// is not a success gives no body.
    FetchText { cache_name: String, url: String },
    /// Fetch bytes in the same way, with the response's content type.
    FetchBytes { cache_name: String, url: String },
    /// Convert a source archive to Markdown with the converter at
    /// `pandoc_path`.
    ConvertSource { body: Vec<u8>, pandoc_path: String },
    /// Extract the text of a PDF.
    ExtractPdf { body: Vec<u8> },
    /// The conversion is over: write the output, or report the error.
    Finish(Result<ConversionOutput, Arxiv2MdError>),
}

/// What came of an action.
#[derive(Debug)]
pub enum Event {
    Text(Result<Option<FetchedText>, Arxiv2MdError>),
    Bytes(Result<Option<FetchedBytes>, Arxiv2MdError>),
    Converted(Result<String, Arxiv2MdError>),
    /// The text extracted from a PDF, or the message of the extractor's
    /// error.
    Extracted(Result<String, String>),
}

/// The event a stage waits for.
pub open spec fn expects(stage: Stage, event: Event) -> bool {
    match stage {
        Stage::Metadata | Stage::Primary | Stage::Ar5iv => event is Text,
        Stage::Source | Stage::Pdf => event is Bytes,
        Stage::Converting => event is Converted,
        Stage::Extracting => event is Extracted,
        Stage::Done => false,
    }
}

/// The URL of the Atom metadata of an identifier.
pub open spec fn metadata_url(id: ArxivId) -> Seq<char> {
    "https://export.arxiv.org/api/query?id_list="@ + id.normalized@
}

pub open spec fn fetches_text(a: Action, name: Seq<char>, url: Seq<char>) -> bool {
    a matches Action::FetchText { cache_name, url: u } && cache_name@ == name && u@ == url
}

pub open spec fn fetches_bytes(a: Action, name: Seq<char>, url: Seq<char>) -> bool {
    a matches Action::FetchBytes { cache_name, url: u } && cache_name@ == name && u@ == url
}

/// The conversion ends with the error `e`.
pub open spec fn ends_with_error(q: Pipeline, a: Action, e: Arxiv2MdError) -> bool {
    &&& q.stage == Stage::Done
    &&& a matches Action::Finish(Err(x)) && x == e
}

/// The conversion ends with `NotFound` for `url`.
pub open spec fn ends_not_found(q: Pipeline, a: Action, url: Seq<char>) -> bool {
    &&& q.stage == Stage::Done
    &&& a matches Action::Finish(Err(Arxiv2MdError::NotFound(u))) && u@ == url
}

/// The source archive is handed to the converter.
pub open spec fn converts(a: Action, b: FetchedBytes, options: CliOptions) -> bool {
    a matches Action::ConvertSource { body, pandoc_path } && body@ == b.body@ && pandoc_path@
        == options.pandoc_path@
}

/// The conversion ends with the rendering of `d`, with the warnings `w`.
pub open spec fn ends_rendering(
    q: Pipeline,
    a: Action,
    id: ArxivId,
    options: CliOptions,
    d: DocumentModel,
    w: Seq<Seq<char>>,
) -> bool {
    &&& q.stage == Stage::Done
    &&& match a {
        Action::Finish(Ok(out)) => render_spec(id, options, d) == Some(out.markdown@) && sviews(
            out.warnings@,
        ) == w,
        Action::Finish(Err(e)) => render_spec(id, options, d) is None && (e matches Arxiv2MdError::Markdown(
            m,
        ) && render_failure(id, options, d) == Some(m@)),
        _ => false,
    }
}

/// The conversion moves on to `stage`, its metadata kept and `w` its
/// warnings.
pub open spec fn moves_to(p: Pipeline, q: Pipeline, stage: Stage, w: Seq<Seq<char>>) -> bool {
    q.stage == stage && q.metadata@ == p.metadata@ && sviews(q.warnings@) == w
}

/// A step at an HTML stage: a page that reads as arXiv HTML is rendered,
/// one that does not is noted and the next representation is asked for, as
/// it is when there is no page.
pub open spec fn html_step(
    p: Pipeline,
    event: Event,
    q: Pipeline,
    a: Action,
    via: ResolvedVia,
    url: Seq<char>,
    next: Stage,
    asks_next: bool,
) -> bool {
    let w = sviews(p.warnings@);
    match event {
        Event::Text(Err(e)) => ends_with_error(q, a, e),
        Event::Text(Ok(None)) => moves_to(p, q, next, w) && asks_next,
        Event::Text(Ok(Some(t))) => match paper_of(
            walk_visits(document_events(t.body@)),
            p.options.remove_inline_citations,
        ) {
            Ok(m) => ends_rendering(
                q,
                a,
                p.id,
                p.options,
                html_document_model(p.metadata@, m, via),
                w,
            ),
            Err(_) => moves_to(p, q, next, w.push("ignoring non-arXiv HTML response from "@ + url))
                && asks_next,
        },
        _ => false,
    }
}

/// One step of a conversion: from the pipeline `p` and the event, the
/// pipeline `q` and the next action `a`.
pub open spec fn step_spec(p: Pipeline, event: Event, q: Pipeline, a: Action) -> bool {
    let id = p.id;
    let o = p.options;
    let w = sviews(p.warnings@);
    &&& q.id == p.id
    &&& q.options == p.options
    &&& q.policy == p.policy
    &&& match p.stage {
        Stage::Metadata => match event {
            Event::Text(Err(e)) => ends_with_error(q, a, e),
            Event::Text(Ok(None)) => ends_not_found(q, a, metadata_url(id)),
            Event::Text(Ok(Some(t))) => match atom_outcome(t.body@) {
                AtomOutcome::Parsed(m) => q.stage == Stage::Primary && q.metadata@ == m && sviews(
                    q.warnings@,
                ) == w && fetches_text(a, "primary.html"@, id.html_url@),
                AtomOutcome::MissingEntry => q.stage == Stage::Done && (a matches Action::Finish(
                    Err(Arxiv2MdError::Metadata(m)),
                ) && m@ == "atom feed missing entry"@),
                AtomOutcome::Unparsable(msg) => q.stage == Stage::Done && (a matches Action::Finish(
                    Err(Arxiv2MdError::Metadata(m)),
                ) && m@ == msg),
            },
            _ => false,
        },
        Stage::Primary => html_step(
            p,
            event,
            q,
            a,
            ResolvedVia::ArxivHtml,
            id.html_url@,
            Stage::Ar5iv,
            fetches_text(a, "ar5iv.html"@, id.ar5iv_url@),
        ),
        Stage::Ar5iv => html_step(
            p,
            event,
            q,
            a,
            ResolvedVia::Ar5iv,
            id.ar5iv_url@,
            Stage::Source,
            fetches_bytes(a, "source.bin"@, id.eprint_url@),
        ),
        Stage::Source => match event {
            Event::Bytes(Err(e)) => ends_with_error(q, a, e),
            Event::Bytes(Ok(Some(b))) if !pdf_like(b.body@, opt_view(b.content_type)) => moves_to(
                p,
                q,
                Stage::Converting,
                w,
            ) && converts(a, b, o),
            Event::Bytes(Ok(_)) => moves_to(p, q, Stage::Pdf, w) && fetches_bytes(
                a,
                "paper.pdf"@,
                id.pdf_url@,
            ),
            _ => false,
        },
        Stage::Converting => match event {
            Event::Converted(Ok(md)) => ends_rendering(
                q,
                a,
                id,
                o,
                latex_document_model(p.metadata@, md@),
                w,
            ),
            Event::Converted(Err(e)) => moves_to(
                p,
                q,
                Stage::Pdf,
                w.push(
                    "source fallback failed for "@ + id.normalized@ + " using "@ + o.pandoc_path@
                        + ": "@ + error_message(e),
                ),
            ) && fetches_bytes(a, "paper.pdf"@, id.pdf_url@),
            _ => false,
        },
        Stage::Pdf => match event {
            Event::Bytes(Err(e)) => ends_with_error(q, a, e),
            Event::Bytes(Ok(None)) => ends_not_found(q, a, id.pdf_url@),
            Event::Bytes(Ok(Some(b))) => moves_to(p, q, Stage::Extracting, w) && (a matches Action::ExtractPdf {
                body,
            } && body@ == b.body@),
            _ => false,
        },
        Stage::Extracting => match event {
            Event::Extracted(Err(m)) => q.stage == Stage::Done && (a matches Action::Finish(
                Err(Arxiv2MdError::Pdf(x)),
            ) && x@ == m@),
            Event::Extracted(Ok(raw)) => ends_rendering(
                q,
                a,
                id,
                o,
                pdf_document_model(p.metadata@, pdf_body(o, raw@)),
                pdf_warnings(o, w),
            ),
            _ => false,
        },
        Stage::Done => false,
    }
}


/// A step at one of the two HTML stages.
pub open spec fn html_stage_step(p: Pipeline, event: Event, q: Pipeline, a: Action) -> bool {
    match p.stage {
        Stage::Primary => html_step(
            p,
            event,
            q,
            a,
            ResolvedVia::ArxivHtml,
            p.id.html_url@,
            Stage::Ar5iv,
            fetches_text(a, "ar5iv.html"@, p.id.ar5iv_url@),
        ),
        _ => html_step(
            p,
            event,
            q,
            a,
            ResolvedVia::Ar5iv,
            p.id.ar5iv_url@,
            Stage::Source,
            fetches_bytes(a, "source.bin"@, p.id.eprint_url@),
        ),
    }
}

/// Metadata with nothing in it.
pub open spec fn no_metadata() -> MetadataModel {
    MetadataModel {
        title: None,
        authors: Seq::empty(),
        abstract_text: None,
        categories: Seq::empty(),
        published: None,
        updated: None,
    }
}

fn empty_metadata() -> (r: PaperMetadata)
    ensures
        r@ == no_metadata(),
{
    let authors: Vec<String> = Vec::new();
    let categories: Vec<String> = Vec::new();
    assert(sviews(authors@) =~= Seq::<Seq<char>>::empty());
    assert(sviews(categories@) =~= Seq::<Seq<char>>::empty());
    PaperMetadata {
        title: None,
        authors,
        abstract_text: None,
        categories,
        published: None,
        updated: None,
    }
}

/// The URL of the Atom metadata of an identifier.
fn metadata_url_exec(id: &ArxivId) -> (r: String)
    ensures
        r@ == metadata_url(*id),
{
    concat("https://export.arxiv.org/api/query?id_list=", id.normalized.as_str())
}

fn fetch_text_action(name: &str, url: &String) -> (a: Action)
    ensures
        fetches_text(a, name@, url@),
{
    Action::FetchText { cache_name: String::from_str(name), url: url.clone() }
}

fn fetch_bytes_action(name: &str, url: &String) -> (a: Action)
    ensures
        fetches_bytes(a, name@, url@),
{
    Action::FetchBytes { cache_name: String::from_str(name), url: url.clone() }
}

/// Starts a conversion: parses the identifier, works out the cache policy
/// and asks for the paper's metadata.
pub fn run(options: CliOptions) -> (r: Result<(Pipeline, Action), Arxiv2MdError>)
    ensures
        match parse_outcome(options.input@) {
            IdOutcome::Parsed(n, v, vi) => match r {
                Ok((p, a)) => {
                    &&& p.id.normalized@ == n
                    &&& opt_view(p.id.version) == v
                    &&& p.id.versioned_input == vi
                    &&& has_urls(p.id, n)
                    &&& p.options == options
                    &&& (options.cache_dir matches Some(d) ==> exists|sep: char|
                        (sep == '/' || sep == '\\') && policy_spec(
                        p.id,
                        d@,
                        sep,
                        options.refresh,
                        p.policy,
                    ))
                    &&& exists|base: Seq<char>, sep: char|
                        (sep == '/' || sep == '\\') && policy_spec(
                        p.id,
                        base,
                        sep,
                        options.refresh,
                        p.policy,
                    )
                    &&& p.stage == Stage::Metadata
                    &&& p.metadata@ == no_metadata()
                    &&& p.warnings@.len() == 0
                    &&& fetches_text(a, "metadata.xml"@, metadata_url(p.id))
                },
                Err(e) => options.cache_dir is None && (e matches Arxiv2MdError::Cache(x, y) && x@
                    == "project dirs"@ && y@ == "could not resolve cache dir"@),
            },
            IdOutcome::Invalid(s) => r matches Err(Arxiv2MdError::InvalidInput(x)) && x@ == s,
            IdOutcome::UnsupportedHost(s) => r matches Err(Arxiv2MdError::UnsupportedHost(x)) && x@
                == s,
        },
{
    let id = match crate::id::parse(options.input.as_str()) {
        Ok(id) => id,
        Err(e) => return Err(e),
    };
    let policy = match build_policy(&id, copy_opt_string(&options.cache_dir), options.refresh) {
        Ok(p) => p,
        Err(e) => return Err(e),
    };
    let url = metadata_url_exec(&id);
    let a = fetch_text_action("metadata.xml", &url);
    let p = Pipeline {
        id,
        options,
        policy,
        stage: Stage::Metadata,
        metadata: empty_metadata(),
        warnings: Vec::new(),
    };
    Ok((p, a))
}

impl Pipeline {
    /// Ends the conversion with the rendering of `doc`.
    fn finish(&mut self, doc: PaperDocument) -> (a: Action)
        ensures
            final(self).id == old(self).id,
            final(self).options == old(self).options,
            final(self).policy == old(self).policy,
            ends_rendering(
                *final(self),
                a,
                old(self).id,
                old(self).options,
                doc@,
                sviews(old(self).warnings@),
            ),
    {
        let warnings = crate::model::copy_strings(&self.warnings);
        let r = render(&self.id, &self.options, doc, warnings);
        self.stage = Stage::Done;
        Action::Finish(r)
    }

    fn on_metadata(&mut self, event: Event) -> (a: Action)
        requires
            old(self).stage == Stage::Metadata,
            event is Text,
        ensures
            step_spec(*old(self), event, *final(self), a),
    {
        match event {
            Event::Text(Err(e)) => {
                self.stage = Stage::Done;
                Action::Finish(Err(e))
            },
            Event::Text(Ok(None)) => {
                self.stage = Stage::Done;
                Action::Finish(Err(Arxiv2MdError::NotFound(metadata_url_exec(&self.id))))
            },
            Event::Text(Ok(Some(t))) => match parse_atom(t.body.as_str()) {
                Ok(m) => {
                    self.metadata = m;
                    self.stage = Stage::Primary;
                    fetch_text_action("primary.html", &self.id.html_url)
                },
                Err(e) => {
                    self.stage = Stage::Done;
                    Action::Finish(Err(e))
                },
            },
            _ => vstd::pervasive::unreached(),
        }
    }

    fn on_html(&mut self, event: Event) -> (a: Action)
        requires
            old(self).stage == Stage::Primary || old(self).stage == Stage::Ar5iv,
            event is Text,
        ensures
            final(self).id == old(self).id,
            final(self).options == old(self).options,
            final(self).policy == old(self).policy,
            html_stage_step(*old(self), event, *final(self), a),
    {
        let primary = self.stage == Stage::Primary;
        match event {
            Event::Text(Err(e)) => {
                self.stage = Stage::Done;
                Action::Finish(Err(e))
            },
            Event::Text(Ok(None)) => self.next_after_html(primary),
            Event::Text(Ok(Some(t))) => match parse_document(
                t.body.as_str(),
                self.options.remove_inline_citations,
            ) {
                Ok(parsed) => {
                    let via = if primary {
                        ResolvedVia::ArxivHtml
                    } else {
                        ResolvedVia::Ar5iv
                    };
                    let metadata = copy_metadata(&self.metadata);
                    let doc = html_document(metadata, parsed, via);
                    self.finish(doc)
                },
                Err(_) => {
                    let url = if primary {
                        self.id.html_url.as_str()
                    } else {
                        self.id.ar5iv_url.as_str()
                    };
                    let note = concat("ignoring non-arXiv HTML response from ", url);
                    push_string(&mut self.warnings, note);
                    self.next_after_html(primary)
                },
            },
            _ => vstd::pervasive::unreached(),
        }
    }

    /// Asks for the representation that follows an HTML stage.
    fn next_after_html(&mut self, primary: bool) -> (a: Action)
        ensures
            final(self).id == old(self).id,
            final(self).options == old(self).options,
            final(self).policy == old(self).policy,
            final(self).metadata == old(self).metadata,
            final(self).warnings == old(self).warnings,
            primary ==> final(self).stage == Stage::Ar5iv && fetches_text(
                a,
                "ar5iv.html"@,
                old(self).id.ar5iv_url@,
            ),
            !primary ==> final(self).stage == Stage::Source && fetches_bytes(
                a,
                "source.bin"@,
                old(self).id.eprint_url@,
            ),
    {
        if primary {
            self.stage = Stage::Ar5iv;
            fetch_text_action("ar5iv.html", &self.id.ar5iv_url)
        } else {
            self.stage = Stage::Source;
            fetch_bytes_action("source.bin", &self.id.eprint_url)
        }
    }

    fn on_source(&mut self, event: Event) -> (a: Action)
        requires
            old(self).stage == Stage::Source,
            event is Bytes,
        ensures
            step_spec(*old(self), event, *final(self), a),
    {
        match event {
            Event::Bytes(Err(e)) => {
                self.stage = Stage::Done;
                Action::Finish(Err(e))
            },
            Event::Bytes(Ok(Some(b))) => {
                let ct = match &b.content_type {
                    Some(c) => Some(c.as_str()),
                    None => None,
                };
                if !looks_like_pdf(b.body.as_slice(), ct) {
                    self.stage = Stage::Converting;
                    Action::ConvertSource { body: b.body, pandoc_path: self.options.pandoc_path.clone() }
                } else {
                    self.stage = Stage::Pdf;
                    fetch_bytes_action("paper.pdf", &self.id.pdf_url)
                }
            },
            Event::Bytes(Ok(None)) => {
                self.stage = Stage::Pdf;
                fetch_bytes_action("paper.pdf", &self.id.pdf_url)
            },
            _ => vstd::pervasive::unreached(),
        }
    }

    fn on_converted(&mut self, event: Event) -> (a: Action)
        requires
            old(self).stage == Stage::Converting,
            event is Converted,
        ensures
            step_spec(*old(self), event, *final(self), a),
    {
        match event {
            Event::Converted(Ok(markdown)) => {
                let cleaned = cleanup_generated_markdown(markdown.as_str());
                let sections = parse_markdown_sections(cleaned.as_str());
                let fallback_markdown = if sections.len() == 0 {
                    Some(cleaned)
                } else {
                    None
                };
                let doc = PaperDocument {
                    metadata: copy_metadata(&self.metadata),
                    sections,
                    fallback_markdown,
                    resolved_via: ResolvedVia::LatexSource,
                    supports_tree: true,
                };
                self.finish(doc)
            },
            Event::Converted(Err(e)) => {
                let a = concat("source fallback failed for ", self.id.normalized.as_str());
                let b = concat(a.as_str(), " using ");
                let c = concat(b.as_str(), self.options.pandoc_path.as_str());
                let d = concat(c.as_str(), ": ");
                let msg = e.message();
                let note = concat(d.as_str(), msg.as_str());
                push_string(&mut self.warnings, note);
                self.stage = Stage::Pdf;
                fetch_bytes_action("paper.pdf", &self.id.pdf_url)
            },
            _ => vstd::pervasive::unreached(),
        }
    }

    fn on_pdf(&mut self, event: Event) -> (a: Action)
        requires
            old(self).stage == Stage::Pdf,
            event is Bytes,
        ensures
            step_spec(*old(self), event, *final(self), a),
    {
        match event {
            Event::Bytes(Err(e)) => {
                self.stage = Stage::Done;
                Action::Finish(Err(e))
            },
            Event::Bytes(Ok(None)) => {
                self.stage = Stage::Done;
                Action::Finish(Err(Arxiv2MdError::NotFound(self.id.pdf_url.clone())))
            },
            Event::Bytes(Ok(Some(b))) => {
                self.stage = Stage::Extracting;
                Action::ExtractPdf { body: b.body }
            },
            _ => vstd::pervasive::unreached(),
        }
    }

    fn on_extracted(&mut self, event: Event) -> (a: Action)
        requires
            old(self).stage == Stage::Extracting,
            event is Extracted,
        ensures
            step_spec(*old(self), event, *final(self), a),
    {
        match event {
            Event::Extracted(extracted) => match extraction_outcome(extracted) {
                Err(e) => {
                    self.stage = Stage::Done;
                    Action::Finish(Err(e))
                },
                Ok(raw) => {
                    let text = if !self.options.keep_refs {
                        remove_references_from_text(raw.as_str())
                    } else {
                        raw
                    };
                    let ghost w0 = sviews(self.warnings@);
                    if self.options.remove_inline_citations {
                        push_string(
                            &mut self.warnings,
                            String::from_str(
                                "inline citation removal is not supported for PDF fallback; returning raw extracted text",
                            ),
                        );
                    }
                    if self.options.include_tree || self.options.sections.len() > 0 {
                        push_string(
                            &mut self.warnings,
                            String::from_str(
                                "section tree and section filtering are not available for PDF fallback",
                            ),
                        );
                    }
                    assert(sviews(self.warnings@) =~= pdf_warnings(self.options, w0));
                    let sections: Vec<SectionNode> = Vec::new();
                    assert(section_models(sections@) =~= Seq::<SectionModel>::empty());
                    let doc = PaperDocument {
                        metadata: copy_metadata(&self.metadata),
                        sections,
                        fallback_markdown: Some(text),
                        resolved_via: ResolvedVia::Pdf,
                        supports_tree: false,
                    };
                    self.finish(doc)
                },
            },
            _ => vstd::pervasive::unreached(),
        }
    }

    /// Whether the pipeline waits for this kind of event.
    pub fn expects_event(&self, event: &Event) -> (b: bool)
        ensures
            b == expects(self.stage, *event),
    {
        match self.stage {
            Stage::Metadata | Stage::Primary | Stage::Ar5iv => matches!(event, Event::Text(_)),
            Stage::Source | Stage::Pdf => matches!(event, Event::Bytes(_)),
            Stage::Converting => matches!(event, Event::Converted(_)),
            Stage::Extracting => matches!(event, Event::Extracted(_)),
            Stage::Done => false,
        }
    }

    /// The next action of a conversion, from what came of the last one
    /// (see `step_spec`).
    pub fn step(&mut self, event: Event) -> (a: Action)
        requires
            expects(old(self).stage, event),
        ensures
            step_spec(*old(self), event, *final(self), a),
    {
        match self.stage {
            Stage::Metadata => self.on_metadata(event),
            Stage::Primary | Stage::Ar5iv => self.on_html(event),
            Stage::Source => self.on_source(event),
            Stage::Converting => self.on_converted(event),
            Stage::Pdf => self.on_pdf(event),
            Stage::Extracting => self.on_extracted(event),
            Stage::Done => vstd::pervasive::unreached(),
        }
    }
}


// ------------------------------------------------------------------- laws

/// The order in which a conversion goes through its stages.
pub open spec fn stage_rank(s: Stage) -> nat {
    match s {
        Stage::Metadata => 0,
        Stage::Primary => 1,
        Stage::Ar5iv => 2,
        Stage::Source => 3,
        Stage::Converting => 4,
        Stage::Pdf => 5,
        Stage::Extracting => 6,
        Stage::Done => 7,
    }
}

/// The action asked for is the one the new stage waits on: a text for the
/// HTML stages, bytes for the source and the PDF, a conversion, or the end.
pub open spec fn action_fits(s: Stage, a: Action) -> bool {
    match a {
        Action::FetchText { .. } => s == Stage::Primary || s == Stage::Ar5iv,
        Action::FetchBytes { .. } => s == Stage::Source || s == Stage::Pdf,
        Action::ConvertSource { .. } => s == Stage::Converting,
        Action::ExtractPdf { .. } => s == Stage::Extracting,
        Action::Finish(_) => s == Stage::Done,
    }
}

/// Every step moves a conversion to a later stage and asks for what that
/// stage waits on; so a conversion ends after at most seven steps, each fed
/// the event its stage expects.
pub proof fn law_step_moves_forward(p: Pipeline, event: Event, q: Pipeline, a: Action)
    requires
        expects(p.stage, event),
        step_spec(p, event, q, a),
    ensures
        stage_rank(q.stage) > stage_rank(p.stage),
        action_fits(q.stage, a),
{
}

} // verus!

