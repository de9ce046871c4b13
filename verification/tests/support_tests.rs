use arxiv2md::cache::{build_policy, is_fresh, join_path_exec, policy_in, sanitize_key, VERSIONLESS_TTL_SECS};
use arxiv2md::cli::{parse as parse_cli, CliArgs};
use arxiv2md::error::Arxiv2MdError;
use arxiv2md::latex::{select_main_tex, TexCandidate};
use arxiv2md::model::{SectionFilterMode, SectionNode};
use arxiv2md::pdf::{extraction_outcome, normalize_pdf_text};
use arxiv2md::sections::{build_tree, FlatSection};

fn args() -> CliArgs {
    CliArgs {
        input: "2501.11120".into(),
        output: "out.md".into(),
        frontmatter: true,
        keep_refs: false,
        keep_toc: true,
        remove_inline_citations: false,
        include_tree: false,
        refresh: true,
        sections: Some(" Intro, ,Methods ".into()),
        section: vec!["Results".into(), "  ".into()],
        section_filter_mode: SectionFilterMode::Include,
        cache_dir: None,
        pandoc_path: "/usr/bin/pandoc".into(),
    }
}

#[test]
fn cli_collects_selected_sections() {
    let options = parse_cli(args());
    assert_eq!(options.sections, vec!["Intro", "Methods", "Results"]);
    assert_eq!(options.input, "2501.11120");
    assert!(options.refresh);
    assert_eq!(options.section_filter_mode, SectionFilterMode::Include);
    assert_eq!(options.pandoc_path, "/usr/bin/pandoc");
}

#[test]
fn cache_keys_and_paths() {
    assert_eq!(sanitize_key("hep-th/9901001"), "hep-th__9901001");
    assert_eq!(join_path_exec("/tmp/cache", "x", '/'), "/tmp/cache/x");
    assert_eq!(join_path_exec("/tmp/cache/", "x", '/'), "/tmp/cache/x");
    assert_eq!(join_path_exec("", "x", '/'), "x");
    assert_eq!(join_path_exec("C:\\cache", "x", '\\'), "C:\\cache\\x");
    assert_eq!(join_path_exec("C:\\cache/", "x", '\\'), "C:\\cache/x");
}

#[test]
fn versionless_identifiers_expire_after_a_day() {
    let id = arxiv2md::id::parse("hep-th/9901001").expect("valid id");
    let policy = policy_in(&id, "/c", '/', false);
    assert_eq!(policy.dir, "/c/hep-th__9901001");
    assert_eq!(policy.ttl_secs, Some(VERSIONLESS_TTL_SECS));
    assert_eq!(VERSIONLESS_TTL_SECS, 86400);
    let versioned = arxiv2md::id::parse("2501.11120v2").expect("valid id");
    let policy = build_policy(&versioned, Some("/c".into()), true).expect("policy");
    assert_eq!(policy.dir, "/c/2501.11120v2");
    assert_eq!(policy.ttl_secs, None);
    assert!(policy.refresh);
}

#[test]
fn freshness_decision() {
    assert!(!is_fresh(true, true, None, 0));
    assert!(!is_fresh(false, false, None, 0));
    assert!(is_fresh(false, true, None, u128::MAX));
    assert!(is_fresh(false, true, Some(10), 10_000_000_000));
    assert!(!is_fresh(false, true, Some(10), 10_000_000_001));
}

#[test]
fn main_tex_prefers_document_class_then_name_then_size() {
    let cands = vec![
        TexCandidate { stem: "appendix".into(), contents: "\\documentclass{article} long long long".into() },
        TexCandidate { stem: "notes".into(), contents: "no class here, but very long text".into() },
        TexCandidate { stem: "Main".into(), contents: "\\documentclass{x}".into() },
        TexCandidate { stem: "other".into(), contents: "\\documentclass{article} longer".into() },
    ];
    assert_eq!(select_main_tex(&cands).expect("found"), 2);
    let cands = vec![
        TexCandidate { stem: "a".into(), contents: "\\documentclass{a}".into() },
        TexCandidate { stem: "b".into(), contents: "\\documentclass{a} bigger".into() },
    ];
    assert_eq!(select_main_tex(&cands).expect("found"), 1);
    match select_main_tex(&vec![]) {
        Err(Arxiv2MdError::Latex(m)) => assert_eq!(m, "no .tex files found"),
        other => panic!("unexpected: {:?}", other),
    }
}

#[test]
fn pdf_text_is_tidied() {
    assert_eq!(normalize_pdf_text("a  \r\nb\t\n\n\n\nc  "), "a\nb\n\nc");
    match extraction_outcome(Err("bad xref".into())) {
        Err(Arxiv2MdError::Pdf(m)) => assert_eq!(m, "bad xref"),
        other => panic!("unexpected: {:?}", other),
    }
    assert_eq!(extraction_outcome(Ok("x \r\n\n\n\ny".into())).expect("text"), "x\n\ny");
}

#[test]
fn error_messages() {
    let cases = vec![
        (Arxiv2MdError::InvalidInput("x".into()), "invalid arXiv identifier or URL: x"),
        (Arxiv2MdError::UnsupportedHost("h".into()), "unsupported host: h"),
        (Arxiv2MdError::NotFound("u".into()), "paper not found: u"),
        (Arxiv2MdError::Network("n".into()), "network error: n"),
        (Arxiv2MdError::UnexpectedResponse("u".into(), "s".into()), "unexpected response from u: s"),
        (Arxiv2MdError::Cache("p".into(), "m".into()), "cache error for p: m"),
        (Arxiv2MdError::Metadata("m".into()), "failed to parse metadata: m"),
        (Arxiv2MdError::Html("m".into()), "failed to parse HTML: m"),
        (Arxiv2MdError::Markdown("m".into()), "failed to render markdown: m"),
        (Arxiv2MdError::Latex("m".into()), "latex conversion failed: m"),
        (Arxiv2MdError::Pdf("m".into()), "pdf extraction failed: m"),
        (Arxiv2MdError::Output("p".into(), "m".into()), "failed to write output to p: m"),
    ];
    for (error, text) in cases {
        assert_eq!(error.message(), text);
    }
}

fn flat(level: u8, title: &str) -> FlatSection {
    FlatSection { level, title: title.into(), anchor: None, markdown: String::new() }
}

fn titles(ns: &[SectionNode], out: &mut Vec<(String, u8)>) {
    for n in ns {
        out.push((n.title.clone(), n.level));
        titles(&n.children, out);
    }
}

#[test]
fn section_tree_keeps_document_order() {
    let tree = build_tree(vec![flat(2, "A"), flat(4, "B"), flat(3, "C"), flat(2, "D"), flat(1, "E")]);
    assert_eq!(tree.len(), 3);
    assert_eq!(tree[0].children.len(), 2);
    assert_eq!(tree[0].children[0].title, "B");
    assert_eq!(tree[0].children[1].title, "C");
    let mut order = Vec::new();
    titles(&tree, &mut order);
    let names: Vec<&str> = order.iter().map(|(t, _)| t.as_str()).collect();
    assert_eq!(names, vec!["A", "B", "C", "D", "E"]);
    fn deeper(ns: &[SectionNode]) -> bool {
        ns.iter().all(|n| n.children.iter().all(|c| c.level > n.level) && deeper(&n.children))
    }
    assert!(deeper(&tree));
}

#[test]
fn versionless_cache_lasts_exactly_a_day() {
    let id = arxiv2md::id::parse("2501.11120").expect("valid id");
    let policy = policy_in(&id, "/c", '/', false);
    let day_nanos: u128 = 86_400 * 1_000_000_000;
    assert!(is_fresh(policy.refresh, true, policy.ttl_secs, day_nanos));
    assert!(!is_fresh(policy.refresh, true, policy.ttl_secs, day_nanos + 1));
    let refreshing = policy_in(&id, "/c", '/', true);
    assert!(!is_fresh(refreshing.refresh, true, refreshing.ttl_secs, 0));
}

#[test]
fn cache_keys_of_distinct_ids_differ() {
    let ids = ["hep-th/9901001", "2501.11120", "2501.11120v2", "math/0101001"];
    let keys: Vec<String> = ids.iter().map(|i| sanitize_key(i)).collect();
    for (i, a) in keys.iter().enumerate() {
        assert!(!a.contains('/'));
        for b in keys.iter().skip(i + 1) {
            assert_ne!(a, b);
        }
    }
}

#[test]
fn anchors_do_not_change_the_tree() {
    let with = build_tree(vec![
        FlatSection { level: 2, title: "A".into(), anchor: Some("S1".into()), markdown: "a".into() },
        FlatSection { level: 3, title: "B".into(), anchor: Some("S1.1".into()), markdown: "b".into() },
    ]);
    let without = build_tree(vec![flat(2, "A"), flat(3, "B")]);
    assert_eq!(with.len(), without.len());
    assert_eq!(with[0].children.len(), without[0].children.len());
    assert_eq!(with[0].anchor.as_deref(), Some("S1"));
    assert_eq!(with[0].children[0].anchor.as_deref(), Some("S1.1"));
    assert!(without[0].anchor.is_none());
}
