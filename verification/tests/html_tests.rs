use arxiv2md::dom::DomEvent;
use arxiv2md::error::Arxiv2MdError;
use arxiv2md::html::{
    clean_author_text, clean_inline_text, convert_fragment_to_markdown, keep_author,
    paper_from_events, parse_document,
};

#[test]
fn parses_html_sections_and_math() {
    let html = r#"
<html>
  <body>
    <article class="ltx_document">
      <h1 class="ltx_title ltx_title_document">Sample Title</h1>
      <div class="ltx_authors">
        <span class="ltx_text ltx_font_bold">Alice<sup>1</sup></span>
        <span class="ltx_text ltx_font_bold">Bob<sup>2</sup></span>
      </div>
      <div class="ltx_abstract"><p>Abstract text.</p></div>
      <section class="ltx_section" id="S1">
        <h2 class="ltx_title ltx_title_section">1 Intro</h2>
        <p>Equation <math><annotation encoding="application/x-tex">x+y</annotation></math></p>
      </section>
      <section class="ltx_section" id="S2">
        <h2 class="ltx_title ltx_title_section">2 Results</h2>
        <figure>
          <table class="ltx_tabular">
            <tr><th>A</th><th>B</th></tr>
            <tr><td>1</td><td>2</td></tr>
          </table>
          <figcaption>Table caption.</figcaption>
        </figure>
      </section>
    </article>
  </body>
</html>
"#;

    let parsed = parse_document(html, false).expect("html parses");
    assert_eq!(parsed.title.as_deref(), Some("Sample Title"));
    assert_eq!(parsed.authors, vec!["Alice 1", "Bob 2"]);
    assert_eq!(parsed.abstract_text.as_deref(), Some("Abstract text."));
    assert_eq!(parsed.sections.len(), 2);
    assert!(parsed.sections[0].markdown.contains("$x+y$"));
    assert!(parsed.sections[1].markdown.contains("| A | B |"));
    assert!(parsed.sections[1].markdown.contains("_Table caption._"));
}

#[test]
fn section_markdown_and_anchors() {
    let html = r#"<html><body><article class="ltx_document">
      <section class="ltx_section" id="S1">
        <h2 class="ltx_title" id="S1.title">1 Intro</h2>
        <p>First <em>para</em>.</p>
        <section class="ltx_subsection"><h3>1.1 Detail</h3><p>Inner.</p></section>
      </section>
    </article></body></html>"#;
    let parsed = parse_document(html, false).expect("html parses");
    assert_eq!(parsed.sections.len(), 1);
    let intro = &parsed.sections[0];
    assert_eq!(intro.title, "1 Intro");
    assert_eq!(intro.level, 2);
    assert_eq!(intro.anchor.as_deref(), Some("S1.title"));
    assert_eq!(intro.markdown, "First *para*.");
    assert_eq!(intro.children.len(), 1);
    assert_eq!(intro.children[0].title, "1.1 Detail");
    assert_eq!(intro.children[0].level, 3);
    assert_eq!(intro.children[0].markdown, "Inner.");
}

#[test]
fn skips_navigation_and_abstract_headings() {
    let html = r#"<html><body><article class="ltx_document">
      <nav><h2>Contents</h2></nav>
      <div class="ltx_abstract"><h6>Abstract</h6><p>Text.</p></div>
      <section><h2>Real</h2><p>Body.</p></section>
    </article></body></html>"#;
    let parsed = parse_document(html, false).expect("html parses");
    assert_eq!(parsed.sections.len(), 1);
    assert_eq!(parsed.sections[0].title, "Real");
}

#[test]
fn refuses_pages_that_are_not_arxiv_html() {
    match parse_document("<html><body><p>Hello</p></body></html>", false) {
        Err(Arxiv2MdError::Html(message)) => {
            assert_eq!(message, "page does not look like arXiv HTML")
        }
        other => panic!("unexpected: {:?}", other),
    }
}

#[test]
fn refuses_a_tree_without_root() {
    match paper_from_events(&vec![], false) {
        Err(Arxiv2MdError::Html(message)) => assert_eq!(message, "missing article/body root"),
        other => panic!("unexpected: {:?}", other),
    }
}

#[test]
fn converts_lists_links_and_citations() {
    let md = convert_fragment_to_markdown(
        r##"<ul><li>One <a href="https://example.org">site</a></li><li>Two<ul><li>Inner</li></ul></li></ul><p>See <a href="#bib.bib1">[1]</a> and <a href="https://arxiv.org/html/x#S2">Sec 2</a>.</p>"##,
        false,
    );
    assert_eq!(
        md,
        "- One [site](https://example.org)\n- Two\n  - Inner\n\nSee [1] and Sec 2."
    );
    let without = convert_fragment_to_markdown(
        r##"<p>See <a href="#bib.bib1">[1]</a> here.</p>"##,
        true,
    );
    assert_eq!(without, "See here.");
}

#[test]
fn converts_headings_quotes_and_equations() {
    let md = convert_fragment_to_markdown(
        r#"<h1>Top</h1><blockquote>Said <strong>this</strong></blockquote><table class="ltx_equationgroup"><tr><td>a = b</td></tr></table><script>x</script>"#,
        false,
    );
    assert_eq!(md, "## Top\n\n> Said **this**\n\n$$ a = b $$");
}

#[test]
fn cleans_inline_whitespace() {
    assert_eq!(clean_inline_text("  a \t b  \n   c  "), "a b\nc");
    assert_eq!(clean_inline_text(""), "");
}

#[test]
fn author_lines_drop_emails_digits_and_notes() {
    let names = clean_author_text("Alice Smith\n&Bob Jones\n12\nalice@example.com\nEqual Contribution\n  ");
    assert_eq!(names, vec!["Alice Smith", "Bob Jones"]);
}

#[test]
fn author_decision_follows_its_inputs() {
    assert!(keep_author("Alice", false, "alice"));
    assert!(!keep_author("Alice", true, "alice"));
    assert!(!keep_author("", false, ""));
    assert!(!keep_author("2024", false, "2024"));
    assert!(!keep_author("Work performed at X", false, "work performed at x"));
    let long = "x".repeat(81);
    assert!(!keep_author(&long, false, &long));
    let exact = "x".repeat(80);
    assert!(keep_author(&exact, false, &exact));
}

#[test]
fn authors_are_named_once() {
    let html = r#"<html><body><article class="ltx_document">
      <div class="ltx_authors">
        <span class="ltx_creator"><span class="ltx_personname">Alice
Bob</span></span>
        <span class="ltx_creator">Alice</span>
      </div>
      <section class="ltx_section"><h2>1 A</h2></section>
    </article></body></html>"#;
    let parsed = parse_document(html, false).expect("html parses");
    assert_eq!(parsed.authors, vec!["Alice", "Bob"]);
}

fn open(name: &str, classes: &[&str]) -> DomEvent {
    DomEvent::Element(
        name.into(),
        classes.iter().map(|c| c.to_string()).collect(),
        None,
        None,
        None,
        format!("<{name}>"),
    )
}

fn text_event(t: &str) -> DomEvent {
    DomEvent::Text(t.into())
}

fn close() -> DomEvent {
    DomEvent::Close
}

#[test]
fn markdown_of_a_given_walk() {
    let events = vec![
        DomEvent::Other,
        open("html", &[]),
        open("p", &[]),
        text_event("Hello "),
        close(),
        open("strong", &[]),
        text_event("world"),
        close(),
        close(),
        close(),
        open("figcaption", &[]),
        text_event(" A  caption "),
        close(),
        close(),
        close(),
        close(),
    ];
    assert_eq!(
        arxiv2md::html::markdown_from_events(&events, false),
        "Hello **world**\n\n_A caption_"
    );
}

#[test]
fn paper_of_a_given_walk() {
    let events = vec![
        DomEvent::Other,
        open("html", &[]),
        open("body", &[]),
        open("div", &["ltx_abstract"]),
        text_event("Short abstract."),
        close(),
        close(),
        close(),
        close(),
        close(),
    ];
    let paper = paper_from_events(&events, false).expect("reads as arXiv HTML");
    assert_eq!(paper.abstract_text.as_deref(), Some("Short abstract."));
    assert!(paper.title.is_none());
    assert!(paper.authors.is_empty());
    assert!(paper.sections.is_empty());
}
