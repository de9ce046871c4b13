use arxiv2md::error::Arxiv2MdError;
use arxiv2md::id::{normalize_id, parse};

#[test]
fn parses_bare_id() {
    let parsed = parse("2501.11120v1").expect("valid id");
    assert_eq!(parsed.normalized, "2501.11120v1");
    assert_eq!(parsed.version.as_deref(), Some("v1"));
}

#[test]
fn parses_old_style_id() {
    let parsed = parse("hep-th/9901001").expect("valid id");
    assert_eq!(parsed.normalized, "hep-th/9901001");
    assert!(parsed.version.is_none());
}

#[test]
fn parses_pdf_url() {
    let parsed = parse("https://arxiv.org/pdf/2501.11120v2.pdf").expect("valid id");
    assert_eq!(parsed.normalized, "2501.11120v2");
    assert_eq!(parsed.version.as_deref(), Some("v2"));
}

#[test]
fn builds_representation_urls() {
    let parsed = parse("  1706.03762 ").expect("valid id");
    assert_eq!(parsed.normalized, "1706.03762");
    assert!(!parsed.versioned_input);
    assert_eq!(parsed.abs_url, "https://arxiv.org/abs/1706.03762");
    assert_eq!(parsed.html_url, "https://arxiv.org/html/1706.03762");
    assert_eq!(parsed.ar5iv_url, "https://ar5iv.labs.arxiv.org/html/1706.03762");
    assert_eq!(parsed.pdf_url, "https://arxiv.org/pdf/1706.03762.pdf");
    assert_eq!(parsed.eprint_url, "https://arxiv.org/e-print/1706.03762");
}

#[test]
fn parses_prefixed_and_abs_url_inputs() {
    let parsed = parse("arXiv:2501.11120v3").expect("valid id");
    assert_eq!(parsed.normalized, "2501.11120v3");
    let parsed = parse("https://arxiv.org/abs/2501.11120").expect("valid id");
    assert_eq!(parsed.normalized, "2501.11120");
    assert!(parsed.version.is_none());
}

#[test]
fn rejects_invalid_identifier() {
    match parse("not-an-arxiv-id") {
        Err(Arxiv2MdError::InvalidInput(value)) => assert_eq!(value, "not-an-arxiv-id"),
        other => panic!("unexpected: {:?}", other),
    }
    match parse("   ") {
        Err(Arxiv2MdError::InvalidInput(_)) => {}
        other => panic!("unexpected: {:?}", other),
    }
}

#[test]
fn rejects_other_hosts() {
    match parse("https://example.com/abs/2501.11120") {
        Err(Arxiv2MdError::UnsupportedHost(host)) => assert_eq!(host, "example.com"),
        other => panic!("unexpected: {:?}", other),
    }
}

#[test]
fn parsing_a_normalized_identifier_gives_it_back() {
    let first = parse("https://arxiv.org/pdf/2501.11120v2.pdf").expect("valid id");
    let again = parse(&first.normalized).expect("valid id");
    assert_eq!(again.normalized, first.normalized);
    assert_eq!(again.version, first.version);
}

#[test]
fn normalizes_identifier_with_version() {
    let (normalized, version) = normalize_id(" 2501.11120v12 ").expect("valid id");
    assert_eq!(normalized, "2501.11120v12");
    assert_eq!(version.as_deref(), Some("v12"));
    assert!(normalize_id("2501.111").is_err());
}

#[test]
fn identifier_from_given_url_parts() {
    let parts = Some((
        "arxiv.org".to_string(),
        Some(vec!["abs".to_string(), "2501.11120v4".to_string()]),
    ));
    let (normalized, version, versioned) =
        arxiv2md::id::id_from_url_parts("arxiv.org/abs/2501.11120v4", parts).expect("valid");
    assert_eq!(normalized, "2501.11120v4");
    assert_eq!(version.as_deref(), Some("v4"));
    assert!(versioned);
    let pdf = Some((
        "export.arxiv.org".to_string(),
        Some(vec!["pdf".to_string(), "".to_string(), "2501.11120.pdf".to_string()]),
    ));
    let (normalized, version, _) =
        arxiv2md::id::id_from_url_parts("x", pdf).expect("valid");
    assert_eq!(normalized, "2501.11120");
    assert!(version.is_none());
    match arxiv2md::id::id_from_url_parts("raw", Some(("arxiv.org".into(), Some(vec!["abs".into()])))) {
        Err(Arxiv2MdError::InvalidInput(v)) => assert_eq!(v, "raw"),
        other => panic!("unexpected: {:?}", other),
    }
    match arxiv2md::id::id_from_url_parts("raw", Some(("example.org".into(), None))) {
        Err(Arxiv2MdError::UnsupportedHost(h)) => assert_eq!(h, "example.org"),
        other => panic!("unexpected: {:?}", other),
    }
    match arxiv2md::id::id_from_url_parts("raw", None) {
        Err(Arxiv2MdError::InvalidInput(v)) => assert_eq!(v, "raw"),
        other => panic!("unexpected: {:?}", other),
    }
}

#[test]
fn old_style_identifiers_are_read_from_urls() {
    let parsed = parse("https://arxiv.org/abs/hep-th/9901001").expect("valid id");
    assert_eq!(parsed.normalized, "hep-th/9901001");
    let parsed = parse("https://arxiv.org/pdf/hep-th/9901001v2.pdf").expect("valid id");
    assert_eq!(parsed.normalized, "hep-th/9901001v2");
    assert_eq!(parsed.version.as_deref(), Some("v2"));
    let bare = parse("hep-th/9901001").expect("valid id");
    let again = parse(&bare.abs_url).expect("valid id");
    assert_eq!(again.normalized, bare.normalized);
    assert_eq!(again.version, bare.version);
}

#[test]
fn surrounding_space_and_prefix_are_ignored() {
    let plain = parse("2501.11120v1").expect("valid id");
    let decorated = parse("  arXiv:2501.11120v1\n").expect("valid id");
    assert_eq!(decorated.normalized, plain.normalized);
    assert_eq!(decorated.version, plain.version);
}

#[test]
fn abs_url_segments_name_the_identifier_again() {
    for n in ["hep-th/9901001v3", "2501.11120", "math-ph/0101001"] {
        let mut segs = vec!["abs".to_string()];
        segs.extend(n.split('/').map(|x| x.to_string()));
        let (normalized, version, versioned) =
            arxiv2md::id::id_from_url_parts("raw", Some(("arxiv.org".into(), Some(segs)))).expect("valid");
        assert_eq!(normalized, n);
        assert_eq!(versioned, version.is_some());
    }
}
