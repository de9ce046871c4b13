use arxiv2md::error::Arxiv2MdError;
use arxiv2md::metadata::parse_atom;

#[test]
fn parses_atom_metadata() {
    let xml = r#"<?xml version='1.0' encoding='UTF-8'?>
<feed xmlns="http://www.w3.org/2005/Atom">
  <entry>
    <title> Sample Title </title>
    <summary> Sample abstract. </summary>
    <published>2025-01-19T17:28:12Z</published>
    <updated>2025-01-20T17:28:12Z</updated>
    <author><name>Alice</name></author>
    <author><name>Bob</name></author>
    <category term="cs.CL" />
    <category term="cs.AI" />
  </entry>
</feed>"#;

    let metadata = parse_atom(xml).expect("metadata parses");
    assert_eq!(metadata.title.as_deref(), Some("Sample Title"));
    assert_eq!(metadata.abstract_text.as_deref(), Some("Sample abstract."));
    assert_eq!(metadata.authors, vec!["Alice", "Bob"]);
    assert_eq!(metadata.categories, vec!["cs.CL", "cs.AI"]);
}

#[test]
fn reads_dates_and_normalizes_whitespace() {
    let xml = r#"<feed xmlns="http://www.w3.org/2005/Atom"><entry>
      <title>A
         multi-line   title</title>
      <published>2025-01-19T17:28:12Z</published>
      <updated> 2025-01-20T17:28:12Z </updated>
    </entry></feed>"#;
    let metadata = parse_atom(xml).expect("metadata parses");
    assert_eq!(metadata.title.as_deref(), Some("A multi-line title"));
    assert_eq!(metadata.published.as_deref(), Some("2025-01-19T17:28:12Z"));
    assert_eq!(metadata.updated.as_deref(), Some("2025-01-20T17:28:12Z"));
    assert!(metadata.authors.is_empty());
    assert!(metadata.abstract_text.is_none());
}

#[test]
fn refuses_feed_without_entry() {
    match parse_atom(r#"<feed xmlns="http://www.w3.org/2005/Atom"></feed>"#) {
        Err(Arxiv2MdError::Metadata(message)) => assert_eq!(message, "atom feed missing entry"),
        other => panic!("unexpected: {:?}", other),
    }
}

#[test]
fn refuses_text_that_is_not_xml() {
    let expected = roxmltree::Document::parse("this is <not xml").unwrap_err().to_string();
    match parse_atom("this is <not xml") {
        Err(Arxiv2MdError::Metadata(message)) => assert_eq!(message, expected),
        other => panic!("unexpected: {:?}", other),
    }
}

fn node(element: bool, name: &str, text: Option<&str>, attrs: Vec<(&str, &str)>, children: Vec<usize>) -> arxiv2md::metadata::XmlNode {
    arxiv2md::metadata::XmlNode {
        element,
        name: name.into(),
        text: text.map(|t| t.to_string()),
        attrs: attrs.into_iter().map(|(k, v)| (k.to_string(), v.to_string())).collect(),
        children,
    }
}

#[test]
fn metadata_from_given_nodes() {
    let nodes = vec![
        node(false, "", None, vec![], vec![1]),
        node(true, "feed", None, vec![], vec![2]),
        node(true, "entry", None, vec![], vec![3, 5, 7]),
        node(true, "title", Some("  T  "), vec![], vec![4]),
        node(false, "", Some("  T  "), vec![], vec![]),
        node(true, "author", None, vec![], vec![6]),
        node(true, "name", Some("Ann"), vec![], vec![]),
        node(true, "category", None, vec![("term", "math.CO")], vec![]),
    ];
    let m = arxiv2md::metadata::metadata_from_nodes(&nodes).expect("has entry");
    assert_eq!(m.title.as_deref(), Some("T"));
    assert_eq!(m.authors, vec!["Ann".to_string()]);
    assert_eq!(m.categories, vec!["math.CO".to_string()]);
    assert!(m.published.is_none());
    assert!(arxiv2md::metadata::metadata_from_nodes(&vec![node(true, "feed", None, vec![], vec![])]).is_none());
}
