//! Text of a paper taken from its PDF. The extraction itself is done by the
//! caller (it may panic on malformed files); this module tidies its result.
use vstd::prelude::*;

use crate::error::Arxiv2MdError;
use crate::markdown::{collapse_chars, collapse_spec};
use crate::text::{join, join_exec, lines, lines_exec, string_of, trim_end, trim_end_chars, vviews};

verus! {

broadcast use vstd::string::group_string_axioms;

/// `s` without carriage returns.
pub open spec fn without_cr(s: Seq<char>) -> Seq<char> {
    s.filter(|c: char| c != '\r')
}

/// Extracted text made tidy: carriage returns dropped, trailing whitespace
/// of each line dropped, blank lines collapsed.
pub open spec fn normalized_pdf_text(text: Seq<char>) -> Seq<char> {
    collapse_spec(
        join(lines(without_cr(text)).map_values(|l: Seq<char>| trim_end(l)), seq!['\n']),
    )
}

pub fn normalize_pdf_text(text: &str) -> (r: String)
    ensures
        r@ == normalized_pdf_text(text@),
{
    let v = crate::text::chars_of(text);
    let mut clean: Vec<char> = Vec::new();
    let mut i: usize = 0;
    while i < v.len()
        invariant
            i <= v.len(),
            clean@ == without_cr(v@.take(i as int)),
        decreases v.len() - i,
    {
        proof {
            reveal_with_fuel(Seq::filter, 1);
            assert(v@.take(i + 1).drop_last() =~= v@.take(i as int));
        }
        if v[i] != '\r' {
            clean.push(v[i]);
        }
        i = i + 1;
    }
    assert(v@.take(v.len() as int) =~= v@);
    let ls = lines_exec(clean.as_slice());
    let mut trimmed: Vec<Vec<char>> = Vec::new();
    let mut k: usize = 0;
    while k < ls.len()
        invariant
            k <= ls.len(),
            vviews(trimmed@) == vviews(ls@).take(k as int).map_values(|l: Seq<char>| trim_end(l)),
        decreases ls.len() - k,
    {
        let ghost before = vviews(trimmed@);
        let t = trim_end_chars(ls[k].as_slice());
        trimmed.push(t);
        assert(vviews(trimmed@) =~= before.push(t@));
        k = k + 1;
        assert(vviews(ls@).take(k as int).map_values(|l: Seq<char>| trim_end(l)) =~= vviews(
            ls@,
        ).take(k - 1).map_values(|l: Seq<char>| trim_end(l)).push(trim_end(vviews(ls@)[k - 1])));
    }
    assert(vviews(ls@).take(ls.len() as int) =~= vviews(ls@));
    let nl = vec!['\n'];
    assert(nl@ =~= seq!['\n']);
    let joined = join_exec(&trimmed, nl.as_slice());
    let c = collapse_chars(joined.as_slice());
    string_of(c.as_slice())
}

/// The outcome of extracting the text of a PDF, given what the extractor
/// gave (its text, or the message of its error): the tidied text, or a PDF
/// error with that message.
pub fn extraction_outcome(extracted: Result<String, String>) -> (r: Result<String, Arxiv2MdError>)
    ensures
        match extracted {
            Ok(raw) => r matches Ok(t) && t@ == normalized_pdf_text(raw@),
            Err(m) => r matches Err(Arxiv2MdError::Pdf(x)) && x@ == m@,
        },
{
    match extracted {
        Ok(text) => Ok(normalize_pdf_text(text.as_str())),
        Err(message) => Err(Arxiv2MdError::Pdf(message)),
    }
}

} // verus!
