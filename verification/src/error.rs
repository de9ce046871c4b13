//! The errors of a conversion.
use vstd::prelude::*;

verus! {

/// What can go wrong while converting a paper.
#[derive(Debug)]
pub enum Arxiv2MdError {
    InvalidInput(String),
    UnsupportedHost(String),
    NotFound(String),
    Network(String),
    UnexpectedResponse(String, String),
    Cache(String, String),
    Metadata(String),
    Html(String),
    Markdown(String),
    Latex(String),
    Pdf(String),
    Output(String, String),
}

/// The text shown for an error.
pub open spec fn error_message(e: Arxiv2MdError) -> Seq<char> {
    match e {
        Arxiv2MdError::InvalidInput(a) => "invalid arXiv identifier or URL: "@ + a@,
        Arxiv2MdError::UnsupportedHost(a) => "unsupported host: "@ + a@,
        Arxiv2MdError::NotFound(a) => "paper not found: "@ + a@,
        Arxiv2MdError::Network(a) => "network error: "@ + a@,
        Arxiv2MdError::UnexpectedResponse(a, b) => "unexpected response from "@ + a@ + ": "@
            + b@,
        Arxiv2MdError::Cache(a, b) => "cache error for "@ + a@ + ": "@ + b@,
        Arxiv2MdError::Metadata(a) => "failed to parse metadata: "@ + a@,
        Arxiv2MdError::Html(a) => "failed to parse HTML: "@ + a@,
        Arxiv2MdError::Markdown(a) => "failed to render markdown: "@ + a@,
        Arxiv2MdError::Latex(a) => "latex conversion failed: "@ + a@,
        Arxiv2MdError::Pdf(a) => "pdf extraction failed: "@ + a@,
        Arxiv2MdError::Output(a, b) => "failed to write output to "@ + a@ + ": "@ + b@,
    }
}

fn prefixed(prefix: &str, a: &String) -> (r: String)
    ensures
        r@ == prefix@ + a@,
{
    let mut r = String::from_str(prefix);
    r.append(a.as_str());
    r
}

fn prefixed2(prefix: &str, a: &String, mid: &str, b: &String) -> (r: String)
    ensures
        r@ == prefix@ + a@ + mid@ + b@,
{
    let mut r = String::from_str(prefix);
    r.append(a.as_str());
    r.append(mid);
    r.append(b.as_str());
    r
}

impl Arxiv2MdError {
    /// The text shown for this error.
    pub fn message(&self) -> (r: String)
        ensures
            r@ == error_message(*self),
    {
        match self {
            Arxiv2MdError::InvalidInput(a) => prefixed("invalid arXiv identifier or URL: ", a),
            Arxiv2MdError::UnsupportedHost(a) => prefixed("unsupported host: ", a),
            Arxiv2MdError::NotFound(a) => prefixed("paper not found: ", a),
            Arxiv2MdError::Network(a) => prefixed("network error: ", a),
            Arxiv2MdError::UnexpectedResponse(a, b) => prefixed2(
                "unexpected response from ",
                a,
                ": ",
                b,
            ),
            Arxiv2MdError::Cache(a, b) => prefixed2("cache error for ", a, ": ", b),
            Arxiv2MdError::Metadata(a) => prefixed("failed to parse metadata: ", a),
            Arxiv2MdError::Html(a) => prefixed("failed to parse HTML: ", a),
            Arxiv2MdError::Markdown(a) => prefixed("failed to render markdown: ", a),
            Arxiv2MdError::Latex(a) => prefixed("latex conversion failed: ", a),
            Arxiv2MdError::Pdf(a) => prefixed("pdf extraction failed: ", a),
            Arxiv2MdError::Output(a, b) => prefixed2("failed to write output to ", a, ": ", b),
        }
    }
}

} // verus!
