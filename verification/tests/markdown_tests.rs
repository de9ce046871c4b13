use arxiv2md::markdown::{
    cleanup_generated_markdown, collapse_blank_lines, filter_sections, parse_markdown_sections,
    remove_references_from_text, render,
};
use arxiv2md::model::{
    CliOptions, PaperDocument, PaperMetadata, ResolvedVia, SectionFilterMode, SectionNode,
};

fn options() -> CliOptions {
    CliOptions {
        input: "1706.03762".into(),
        output: "-".into(),
        frontmatter: true,
        keep_refs: false,
        keep_toc: false,
        remove_inline_citations: false,
        include_tree: false,
        refresh: false,
        sections: vec![],
        section_filter_mode: SectionFilterMode::Exclude,
        cache_dir: None,
        pandoc_path: "pandoc".into(),
    }
}

fn section(title: &str, level: u8, markdown: &str, children: Vec<SectionNode>) -> SectionNode {
    SectionNode {
        title: title.into(),
        level,
        anchor: None,
        markdown: markdown.into(),
        children,
    }
}

fn document(sections: Vec<SectionNode>, fallback: Option<String>) -> PaperDocument {
    PaperDocument {
        metadata: PaperMetadata {
            title: Some("Attention Is All You Need".into()),
            authors: vec!["A".into(), "B".into()],
            abstract_text: Some("Abstract text".into()),
            categories: vec!["cs.CL".into()],
            published: Some("2017-06-12T17:57:26Z".into()),
            updated: Some("2017-12-05T17:57:26Z".into()),
        },
        sections,
        fallback_markdown: fallback,
        resolved_via: ResolvedVia::ArxivHtml,
        supports_tree: true,
    }
}

#[test]
fn parses_markdown_heading_tree() {
    let sections =
        parse_markdown_sections("## Intro\nHello\n### Background\nWorld\n## Methods\nDone");
    assert_eq!(sections.len(), 2);
    assert_eq!(sections[0].title, "Intro");
    assert_eq!(sections[0].children[0].title, "Background");
    assert_eq!(sections[1].title, "Methods");
}

#[test]
fn strips_references_tail() {
    let output = remove_references_from_text("## Intro\nBody\n\nReferences\n[1] test");
    assert_eq!(output, "## Intro\nBody");
}

#[test]
fn renders_frontmatter_and_filters_refs() {
    let id = arxiv2md::id::parse("1706.03762").expect("valid id");
    let doc = document(
        vec![
            section("1 Introduction", 2, "Intro body", vec![]),
            section("References", 2, "[1] Ref", vec![]),
        ],
        None,
    );
    let rendered = render(&id, &options(), doc, vec![]).expect("render succeeds");
    assert!(rendered.markdown.contains("resolved_via: arxiv_html"));
    assert!(rendered.markdown.contains("# Attention Is All You Need"));
    assert!(rendered.markdown.contains("## Abstract"));
    assert!(rendered.markdown.contains("## 1 Introduction"));
    assert!(!rendered.markdown.contains("References"));
}

#[test]
fn keeps_references_when_asked() {
    let id = arxiv2md::id::parse("1706.03762").expect("valid id");
    let mut opts = options();
    opts.keep_refs = true;
    opts.frontmatter = false;
    let doc = document(
        vec![
            section("1 Introduction", 2, "Intro body", vec![]),
            section("References", 2, "[1] Ref", vec![]),
        ],
        None,
    );
    let rendered = render(&id, &opts, doc, vec!["w".into()]).expect("render succeeds");
    assert!(rendered.markdown.contains("## References"));
    assert!(!rendered.markdown.contains("resolved_via"));
    assert_eq!(rendered.warnings, vec!["w".to_string()]);
}

#[test]
fn renders_fallback_text() {
    let id = arxiv2md::id::parse("1706.03762").expect("valid id");
    let mut opts = options();
    opts.frontmatter = false;
    let doc = document(vec![], Some("  Plain body text.  ".into()));
    let rendered = render(&id, &opts, doc, vec![]).expect("render succeeds");
    assert!(rendered.markdown.contains("# Attention Is All You Need"));
    assert!(rendered.markdown.contains("Plain body text."));
}

#[test]
fn parses_heading_levels_into_nested_tree() {
    let sections = parse_markdown_sections("# Top\nA\n## Mid\nB\n#### Deep\nC\n## Next\nD");
    assert_eq!(sections.len(), 1);
    assert_eq!(sections[0].title, "Top");
    assert_eq!(sections[0].children.len(), 2);
    assert_eq!(sections[0].children[0].title, "Mid");
    assert_eq!(sections[0].children[0].children[0].title, "Deep");
    assert_eq!(sections[0].children[0].children[0].level, 4);
    assert_eq!(sections[0].children[1].title, "Next");
}

#[test]
fn collapses_blank_lines() {
    assert_eq!(collapse_blank_lines("\n\na\n\n\n\nb\n\n"), "a\n\nb");
    assert_eq!(collapse_blank_lines("a\nb"), "a\nb");
}

#[test]
fn collapsed_text_has_no_double_blank_line() {
    let out = collapse_blank_lines("x\n\n\n\n\ny\n\n\n\nz");
    assert!(!out.contains("\n\n\n"));
    assert_eq!(out, "x\n\ny\n\nz");
}

#[test]
fn cleans_generated_markdown() {
    let cleaned = cleanup_generated_markdown(
        "Intro\r\n<figure>\n<img src=\"x\">\n</figure>\n<span>kept</span>\n\n\n\n$$x+y$$",
    );
    assert!(!cleaned.contains("<figure>"));
    assert!(!cleaned.contains("<span>"));
    assert!(cleaned.contains("kept"));
    assert!(!cleaned.contains('\r'));
    assert!(!cleaned.contains("\n\n\n"));
}

#[test]
fn exclude_filter_drops_selected_sections_at_any_depth() {
    let tree = vec![
        section("Intro", 2, "a", vec![section("Related Work", 3, "b", vec![])]),
        section("related work", 2, "c", vec![]),
    ];
    let filtered = filter_sections(&tree, &vec!["Related   Work".to_string()], SectionFilterMode::Exclude);
    assert_eq!(filtered.len(), 1);
    assert_eq!(filtered[0].title, "Intro");
    assert!(filtered[0].children.is_empty());
}

#[test]
fn include_filter_keeps_selected_sections_and_their_parents() {
    let tree = vec![
        section("Intro", 2, "a", vec![section("Setup", 3, "b", vec![])]),
        section("Methods", 2, "c", vec![]),
    ];
    let filtered = filter_sections(&tree, &vec!["setup".to_string()], SectionFilterMode::Include);
    assert_eq!(filtered.len(), 1);
    assert_eq!(filtered[0].title, "Intro");
    assert_eq!(filtered[0].children.len(), 1);
    assert_eq!(filtered[0].children[0].title, "Setup");
}

#[test]
fn excluding_the_abstract_drops_it() {
    let id = arxiv2md::id::parse("1706.03762").expect("valid id");
    let mut opts = options();
    opts.sections = vec!["Abstract".into()];
    let doc = document(vec![section("1 Introduction", 2, "Intro body", vec![])], None);
    let out = render(&id, &opts, doc, vec![]).expect("render succeeds");
    assert!(!out.markdown.contains("## Abstract"));
    assert!(!out.markdown.contains("Abstract text"));
    assert!(out.markdown.contains("## 1 Introduction"));
}

#[test]
fn including_only_the_abstract_keeps_it() {
    let id = arxiv2md::id::parse("1706.03762").expect("valid id");
    let mut opts = options();
    opts.frontmatter = false;
    opts.sections = vec!["abstract".into()];
    opts.section_filter_mode = SectionFilterMode::Include;
    let doc = document(vec![section("1 Introduction", 2, "Intro body", vec![])], None);
    let out = render(&id, &opts, doc, vec![]).expect("render succeeds");
    assert!(out.markdown.contains("## Abstract"));
    assert!(!out.markdown.contains("Introduction"));
}

#[test]
fn frontmatter_carries_the_abstract() {
    let id = arxiv2md::id::parse("1706.03762").expect("valid id");
    let doc = document(vec![], None);
    let out = render(&id, &options(), doc, vec![]).expect("render succeeds");
    assert!(out.markdown.starts_with("---\n"));
    assert!(out.markdown.contains("abstract: Abstract text"));
    assert!(out.markdown.contains("title: Attention Is All You Need"));
}

#[test]
fn titles_match_with_or_without_section_numbers() {
    let tree = vec![section("2 Related Work", 2, "rw", vec![]), section("A.1 Proofs", 2, "p", vec![])];
    let kept = filter_sections(&tree, &vec!["Related Work".to_string()], SectionFilterMode::Include);
    assert_eq!(kept.len(), 1);
    assert_eq!(kept[0].title, "2 Related Work");
    assert_eq!(kept[0].markdown, "rw");
    let kept = filter_sections(&tree, &vec!["proofs".to_string()], SectionFilterMode::Exclude);
    assert_eq!(kept.len(), 1);
    assert_eq!(kept[0].title, "2 Related Work");
    assert_eq!(arxiv2md::markdown::normalize_section_title("  Related   Work "), "related work");
    assert_eq!(arxiv2md::markdown::normalize_section_title("3.2. Results"), "results");
    assert_eq!(arxiv2md::markdown::normalize_section_title("A Study"), "study");
    assert_eq!(arxiv2md::markdown::normalize_section_title("IV Results"), "results");
    assert_eq!(arxiv2md::markdown::normalize_section_title("iv.2 Results"), "results");
    assert_eq!(arxiv2md::markdown::normalize_section_title("Vivid Results"), "vivid results");
    let tree = vec![section("IV Results", 2, "r", vec![])];
    let kept = filter_sections(&tree, &vec!["Results".to_string()], SectionFilterMode::Include);
    assert_eq!(kept.len(), 1);
}

#[test]
fn collapsing_twice_changes_nothing() {
    let once = collapse_blank_lines("  \n\na\n\n\n\nb\n\n\n c \n\n");
    assert_eq!(once, "a\n\nb\n\n\n c".replace("\n\n\n", "\n\n"));
    assert_eq!(collapse_blank_lines(&once), once);
    assert_eq!(once.trim(), once);
}

#[test]
fn rendering_equals_rendering_prefiltered_sections() {
    let id = arxiv2md::id::parse("1706.03762").expect("valid id");
    let mut opts = options();
    opts.sections = vec!["Methods".into()];
    let all = vec![
        section("1 Introduction", 2, "Intro body", vec![]),
        section("2 Methods", 2, "How", vec![]),
        section("References", 2, "[1] Ref", vec![]),
    ];
    let direct = render(&id, &opts, document(all, None), vec![]).expect("render succeeds");
    let mut plain = options();
    plain.keep_refs = true;
    let pre = vec![section("1 Introduction", 2, "Intro body", vec![])];
    let again = render(&id, &plain, document(pre, None), vec![]).expect("render succeeds");
    assert_eq!(direct.markdown, again.markdown);
}
