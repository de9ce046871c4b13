use arxiv2md::error::Arxiv2MdError;
use arxiv2md::model::{CliOptions, FetchedBytes, FetchedText, HtmlPaper, PaperMetadata, ResolvedVia, SectionFilterMode};
use arxiv2md::pipeline::{html_document, looks_like_pdf, run, Action, Event, Pipeline, Stage};

const ATOM: &str = r#"<feed xmlns="http://www.w3.org/2005/Atom"><entry>
  <title>Api Title</title>
  <author><name>Alice</name></author>
  <category term="cs.CL" />
</entry></feed>"#;

const PAGE: &str = r#"<html><body><article class="ltx_document">
  <h1 class="ltx_title_document">Page Title</h1>
  <div class="ltx_abstract"><p>Page abstract.</p></div>
  <section><h2>1 Intro</h2><p>Hello.</p></section>
</article></body></html>"#;

fn options(cache: &str) -> CliOptions {
    CliOptions {
        input: "2501.11120v1".into(),
        output: "-".into(),
        frontmatter: false,
        keep_refs: false,
        keep_toc: false,
        remove_inline_citations: false,
        include_tree: false,
        refresh: false,
        sections: vec![],
        section_filter_mode: SectionFilterMode::Exclude,
        cache_dir: Some(cache.into()),
        pandoc_path: "pandoc".into(),
    }
}

fn text(body: &str) -> Event {
    Event::Text(Ok(Some(FetchedText { body: body.into() })))
}

fn expect_text(a: &Action, name: &str, url: &str) {
    match a {
        Action::FetchText { cache_name, url: u } => {
            assert_eq!(cache_name, name);
            assert_eq!(u, url);
        }
        other => panic!("unexpected: {:?}", other),
    }
}

fn expect_bytes(a: &Action, name: &str, url: &str) {
    match a {
        Action::FetchBytes { cache_name, url: u } => {
            assert_eq!(cache_name, name);
            assert_eq!(u, url);
        }
        other => panic!("unexpected: {:?}", other),
    }
}

fn started() -> Pipeline {
    let (p, a) = run(options("/tmp/arxiv2md-cache")).expect("starts");
    expect_text(&a, "metadata.xml", "https://export.arxiv.org/api/query?id_list=2501.11120v1");
    assert_eq!(p.stage, Stage::Metadata);
    assert_eq!(p.policy.dir, "/tmp/arxiv2md-cache/2501.11120v1");
    assert_eq!(p.policy.ttl_secs, None);
    p
}

#[test]
fn run_refuses_invalid_input() {
    let mut o = options("/tmp/x");
    o.input = "nonsense".into();
    match run(o) {
        Err(Arxiv2MdError::InvalidInput(v)) => assert_eq!(v, "nonsense"),
        other => panic!("unexpected: {:?}", other.map(|(p, _)| p.stage)),
    }
}

#[test]
fn arxiv_html_page_is_rendered() {
    let mut p = started();
    let a = p.step(text(ATOM));
    expect_text(&a, "primary.html", "https://arxiv.org/html/2501.11120v1");
    assert_eq!(p.stage, Stage::Primary);
    match p.step(text(PAGE)) {
        Action::Finish(Ok(out)) => {
            assert!(out.markdown.contains("# Api Title"));
            assert!(out.markdown.contains("## Abstract"));
            assert!(out.markdown.contains("Page abstract."));
            assert!(out.markdown.contains("## 1 Intro"));
            assert!(out.warnings.is_empty());
        }
        other => panic!("unexpected: {:?}", other),
    }
    assert_eq!(p.stage, Stage::Done);
}

#[test]
fn falls_back_through_every_representation() {
    let mut p = started();
    let _ = p.step(text(ATOM));
    assert_eq!(p.stage, Stage::Primary);
    let a = p.step(text("<html><body><p>not latexml</p></body></html>"));
    assert_eq!(p.stage, Stage::Ar5iv);
    expect_text(&a, "ar5iv.html", "https://ar5iv.labs.arxiv.org/html/2501.11120v1");
    assert_eq!(p.warnings, vec!["ignoring non-arXiv HTML response from https://arxiv.org/html/2501.11120v1".to_string()]);
    let a = p.step(Event::Text(Ok(None)));
    expect_bytes(&a, "source.bin", "https://arxiv.org/e-print/2501.11120v1");
    assert_eq!(p.stage, Stage::Source);
    let pdf_like = FetchedBytes { body: b"%PDF-1.5 ...".to_vec(), content_type: None };
    let a = p.step(Event::Bytes(Ok(Some(pdf_like))));
    expect_bytes(&a, "paper.pdf", "https://arxiv.org/pdf/2501.11120v1.pdf");
    assert_eq!(p.stage, Stage::Pdf);
    match p.step(Event::Bytes(Ok(None))) {
        Action::Finish(Err(Arxiv2MdError::NotFound(url))) => {
            assert_eq!(url, "https://arxiv.org/pdf/2501.11120v1.pdf")
        }
        other => panic!("unexpected: {:?}", other),
    }
    assert_eq!(p.stage, Stage::Done);
}

#[test]
fn source_archive_is_converted_and_rendered() {
    let mut p = started();
    let _ = p.step(text(ATOM));
    let _ = p.step(Event::Text(Ok(None)));
    let _ = p.step(Event::Text(Ok(None)));
    let archive = FetchedBytes { body: vec![1, 2, 3], content_type: Some("application/x-tar".into()) };
    match p.step(Event::Bytes(Ok(Some(archive)))) {
        Action::ConvertSource { body, pandoc_path } => {
            assert_eq!(body, vec![1, 2, 3]);
            assert_eq!(pandoc_path, "pandoc");
        }
        other => panic!("unexpected: {:?}", other),
    }
    match p.step(Event::Converted(Ok("## Intro\n\nFrom source.\n\n## References\n[1] x".into()))) {
        Action::Finish(Ok(out)) => {
            assert!(out.markdown.contains("## Intro"));
            assert!(out.markdown.contains("From source."));
            assert!(!out.markdown.contains("References"));
        }
        other => panic!("unexpected: {:?}", other),
    }
}

#[test]
fn failed_conversion_is_noted_and_pdf_asked() {
    let mut p = started();
    let _ = p.step(text(ATOM));
    let _ = p.step(Event::Text(Ok(None)));
    let _ = p.step(Event::Text(Ok(None)));
    let archive = FetchedBytes { body: vec![0; 4], content_type: None };
    let _ = p.step(Event::Bytes(Ok(Some(archive))));
    assert_eq!(p.stage, Stage::Converting);
    let a = p.step(Event::Converted(Err(Arxiv2MdError::Latex("boom".into()))));
    expect_bytes(&a, "paper.pdf", "https://arxiv.org/pdf/2501.11120v1.pdf");
    assert_eq!(
        p.warnings,
        vec!["source fallback failed for 2501.11120v1 using pandoc: latex conversion failed: boom".to_string()]
    );
}

#[test]
fn missing_metadata_and_fetch_errors_end_the_run() {
    let mut p = started();
    match p.step(Event::Text(Ok(None))) {
        Action::Finish(Err(Arxiv2MdError::NotFound(url))) => {
            assert_eq!(url, "https://export.arxiv.org/api/query?id_list=2501.11120v1")
        }
        other => panic!("unexpected: {:?}", other),
    }
    let mut p = started();
    match p.step(Event::Text(Err(Arxiv2MdError::Network("down".into())))) {
        Action::Finish(Err(Arxiv2MdError::Network(m))) => assert_eq!(m, "down"),
        other => panic!("unexpected: {:?}", other),
    }
    let mut p = started();
    match p.step(text("<feed/>")) {
        Action::Finish(Err(Arxiv2MdError::Metadata(_))) => {}
        other => panic!("unexpected: {:?}", other),
    }
}

#[test]
fn unreadable_pdf_ends_with_pdf_error() {
    let mut p = started();
    let _ = p.step(text(ATOM));
    let _ = p.step(Event::Text(Ok(None)));
    let _ = p.step(Event::Text(Ok(None)));
    let _ = p.step(Event::Bytes(Ok(None)));
    assert_eq!(p.stage, Stage::Pdf);
    match p.step(Event::Bytes(Ok(Some(FetchedBytes { body: b"not a pdf".to_vec(), content_type: None })))) {
        Action::ExtractPdf { body } => assert_eq!(body, b"not a pdf".to_vec()),
        other => panic!("unexpected: {:?}", other),
    }
    assert_eq!(p.stage, Stage::Extracting);
    match p.step(Event::Extracted(Err("invalid file header".into()))) {
        Action::Finish(Err(Arxiv2MdError::Pdf(m))) => assert_eq!(m, "invalid file header"),
        other => panic!("unexpected: {:?}", other),
    }
    assert_eq!(p.stage, Stage::Done);
}

#[test]
fn extracted_pdf_text_is_rendered_with_warnings() {
    let mut o = options("/tmp/arxiv2md-cache");
    o.remove_inline_citations = true;
    o.include_tree = true;
    let (mut p, _) = run(o).expect("starts");
    let _ = p.step(text(ATOM));
    let _ = p.step(Event::Text(Ok(None)));
    let _ = p.step(Event::Text(Ok(None)));
    let _ = p.step(Event::Bytes(Ok(None)));
    let _ = p.step(Event::Bytes(Ok(Some(FetchedBytes { body: vec![1], content_type: None }))));
    match p.step(Event::Extracted(Ok("Body text.\r\n\nReferences\n[1] x".into()))) {
        Action::Finish(Ok(out)) => {
            assert!(out.markdown.contains("# Api Title"));
            assert!(out.markdown.contains("Body text."));
            assert!(!out.markdown.contains("[1] x"));
            assert_eq!(out.warnings.len(), 2);
        }
        other => panic!("unexpected: {:?}", other),
    }
}

#[test]
fn recognizes_pdf_bodies() {
    assert!(looks_like_pdf(b"%PDF-1.7", None));
    assert!(looks_like_pdf(b"xx", Some("Application/PDF; charset=binary")));
    assert!(!looks_like_pdf(b"%PDF", None));
    assert!(!looks_like_pdf(b"\x1f\x8b", Some("application/gzip")));
}

#[test]
fn html_fills_in_missing_metadata() {
    let metadata = PaperMetadata {
        title: None,
        authors: vec![],
        abstract_text: Some("From the API".into()),
        categories: vec!["cs.AI".into()],
        published: None,
        updated: None,
    };
    let parsed = HtmlPaper {
        title: Some("From the page".into()),
        authors: vec!["Ann".into()],
        abstract_text: Some("From the page".into()),
        sections: vec![],
    };
    let doc = html_document(metadata, parsed, ResolvedVia::Ar5iv);
    assert_eq!(doc.metadata.title.as_deref(), Some("From the page"));
    assert_eq!(doc.metadata.authors, vec!["Ann".to_string()]);
    assert_eq!(doc.metadata.abstract_text.as_deref(), Some("From the API"));
    assert_eq!(doc.metadata.categories, vec!["cs.AI".to_string()]);
    assert_eq!(doc.resolved_via, ResolvedVia::Ar5iv);
    assert!(doc.supports_tree);
    assert!(doc.fallback_markdown.is_none());
}
