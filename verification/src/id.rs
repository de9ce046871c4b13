//! arXiv identifiers: the identifier grammar, URLs that name a paper, and
//! the URLs of a paper's representations.
use vstd::prelude::*;

use crate::error::Arxiv2MdError;
use crate::model::{opt_view, ArxivId};
use crate::text::{
    back_ws, chars_eq, chars_of, concat, copy_range, ends_with, ends_with_exec, is_ascii_alpha,
    is_decimal, is_decimal_digit, is_ws, lemma_back_ws, lemma_skip_ws, lemma_trim_fixed,
    lemma_trim_padded, push_all, skip_ws, split, split_from, starts_with, starts_with_exec,
    string_of, sviews, trim, trim_chars, vviews,
};

verus! {

broadcast use vstd::string::group_string_axioms;

// ------------------------------------------------------------------ grammar

pub open spec fn all_decimal(s: Seq<char>) -> bool {
    forall|i: int| 0 <= i < s.len() ==> is_decimal(#[trigger] s[i])
}

/// A character of an old-style archive name, `[A-Za-z-]`.
pub open spec fn is_archive_char(c: char) -> bool {
    is_ascii_alpha(c) || c == '-'
}

/// A new-style base identifier: four digits, a dot, four or five digits.
pub open spec fn new_style_base(b: Seq<char>) -> bool {
    &&& (b.len() == 9 || b.len() == 10)
    &&& all_decimal(b.subrange(0, 4))
    &&& b[4] == '.'
    &&& all_decimal(b.subrange(5, b.len() as int))
}

/// An old-style base identifier: an archive name, a slash, seven digits.
pub open spec fn old_style_base_at(b: Seq<char>, k: int) -> bool {
    &&& 1 <= k
    &&& b.len() == k + 8
    &&& forall|i: int| 0 <= i < k ==> is_archive_char(#[trigger] b[i])
    &&& b[k] == '/'
    &&& all_decimal(b.subrange(k + 1, b.len() as int))
}

pub open spec fn old_style_base(b: Seq<char>) -> bool {
    exists|k: int| old_style_base_at(b, k)
}

/// A version suffix: `v` and one or more digits.
pub open spec fn is_version(v: Seq<char>) -> bool {
    v.len() >= 2 && v[0] == 'v' && all_decimal(v.subrange(1, v.len() as int))
}

/// `t` splits at `p` into a base identifier and an optional version.
pub open spec fn id_split(t: Seq<char>, p: int) -> bool {
    &&& 0 < p <= t.len()
    &&& (new_style_base(t.subrange(0, p)) || old_style_base(t.subrange(0, p)))
    &&& (p == t.len() || is_version(t.subrange(p, t.len() as int)))
}

/// The identifier grammar
/// `^(\d{4}\.\d{4,5}|[A-Za-z-]+/\d{7})(v\d+)?$`.
pub open spec fn is_arxiv_id(t: Seq<char>) -> bool {
    exists|p: int| id_split(t, p)
}

/// The version suffix of an identifier, if it has one.
pub open spec fn id_version(t: Seq<char>) -> Option<Seq<char>> {
    let p = choose|p: int| id_split(t, p);
    if p < t.len() {
        Some(t.subrange(p, t.len() as int))
    } else {
        None
    }
}

/// The position of the first `/` in `s`, or its length.
pub open spec fn first_slash(s: Seq<char>, i: int) -> int
    decreases s.len() - i,
{
    if i < 0 || i >= s.len() {
        s.len() as int
    } else if s[i] == '/' {
        i
    } else {
        first_slash(s, i + 1)
    }
}

proof fn lemma_first_slash(s: Seq<char>, i: int)
    requires
        0 <= i <= s.len(),
    ensures
        i <= first_slash(s, i) <= s.len(),
        forall|j: int| i <= j < first_slash(s, i) ==> s[j] != '/',
        first_slash(s, i) < s.len() ==> s[first_slash(s, i)] == '/',
    decreases s.len() - i,
{
    if i < s.len() && s[i] != '/' {
        lemma_first_slash(s, i + 1);
    }
}

/// The only place where an identifier can split.
pub open spec fn base_len(t: Seq<char>) -> int {
    if t.len() > 0 && is_decimal(t[0]) {
        if t.len() >= 10 && is_decimal(t[9]) {
            10
        } else {
            9
        }
    } else {
        first_slash(t, 0) + 8
    }
}

proof fn lemma_split_unique(t: Seq<char>, p: int)
    requires
        id_split(t, p),
    ensures
        p == base_len(t),
{
    lemma_first_slash(t, 0);
    let b = t.subrange(0, p);
    if new_style_base(b) {
        assert(is_decimal(b.subrange(0, 4)[0]));
        if p == 9 && t.len() >= 10 {
            let v = t.subrange(p, t.len() as int);
            assert(v[0] == 'v');
            assert(!is_decimal(t[9]));
        }
        if p == 10 {
            assert(is_decimal(b.subrange(5, 10)[4]));
        }
    } else {
        let k = choose|k: int| old_style_base_at(b, k);
        assert(is_archive_char(b[0]));
        assert(!is_decimal(t[0]));
        assert forall|j: int| 0 <= j < k implies t[j] != '/' by {
            assert(is_archive_char(b[j]));
        }
        if first_slash(t, 0) < k {
            assert(t[first_slash(t, 0)] != '/');
        }
        if first_slash(t, 0) > k {
            assert(t[k] == '/');
        }
    }
}

/// Whether `t` splits at `p`, decided.
fn id_split_exec(t: &[char], p: usize) -> (b: bool)
    requires
        p <= t.len(),
    ensures
        b == id_split(t@, p as int),
{
    if p == 0 {
        return false;
    }
    let base = copy_range(t, 0, p);
    let ghost bv = base@;
    let base_ok = if p >= 1 && is_decimal_digit(base[0]) {
        if (p == 9 || p == 10) && all_decimal_exec(&base, 0, 4) && base[4] == '.'
            && all_decimal_exec(&base, 5, p) {
            true
        } else {
            proof {
                if old_style_base(bv) {
                    let k = choose|k: int| old_style_base_at(bv, k);
                    assert(is_archive_char(bv[0]));
                }
            }
            false
        }
    } else {
        let k = first_slash_exec(&base);
        proof {
            lemma_first_slash(bv, 0);
        }
        let ok = k >= 1 && p >= 8 && k == p - 8 && all_archive_exec(&base, k) && all_decimal_exec(
            &base,
            k + 1,
            p,
        );
        proof {
            if ok {
                assert(old_style_base_at(bv, k as int));
            }
            if old_style_base(bv) {
                let j = choose|j: int| old_style_base_at(bv, j);
                assert forall|m: int| 0 <= m < j implies bv[m] != '/' by {
                    assert(is_archive_char(bv[m]));
                }
                if (k as int) < j {
                    assert(bv[k as int] != '/');
                }
                if (k as int) > j {
                    assert(bv[j] == '/');
                }
                assert(k == j);
                assert forall|m: int| 0 <= m < k implies is_archive_char(#[trigger] bv[m]) by {}
                assert(bv.subrange(k + 1, p as int) =~= bv.subrange(j + 1, bv.len() as int));
            }
            if new_style_base(bv) {
                assert(is_decimal(bv.subrange(0, 4)[0]));
            }
        }
        ok
    };
    if !base_ok {
        return false;
    }
    if p == t.len() {
        return true;
    }
    let rest = copy_range(t, p, t.len());
    rest.len() >= 2 && rest[0] == 'v' && all_decimal_exec(&rest, 1, rest.len())
}

fn all_decimal_exec(v: &Vec<char>, a: usize, b: usize) -> (r: bool)
    requires
        a <= b <= v.len(),
    ensures
        r == all_decimal(v@.subrange(a as int, b as int)),
{
    let mut i = a;
    while i < b
        invariant
            a <= i <= b <= v.len(),
            forall|j: int| a <= j < i ==> is_decimal(v@[j]),
        decreases b - i,
    {
        if !is_decimal_digit(v[i]) {
            assert(!is_decimal(v@.subrange(a as int, b as int)[i - a]));
            return false;
        }
        i = i + 1;
    }
    assert forall|j: int| 0 <= j < b - a implies is_decimal(
        #[trigger] v@.subrange(a as int, b as int)[j],
    ) by {
        assert(is_decimal(v@[a + j]));
    }
    true
}

fn all_archive_exec(v: &Vec<char>, k: usize) -> (r: bool)
    requires
        k <= v.len(),
    ensures
        r == forall|i: int| 0 <= i < k ==> is_archive_char(#[trigger] v@[i]),
{
    let mut i: usize = 0;
    while i < k
        invariant
            i <= k <= v.len(),
            forall|j: int| 0 <= j < i ==> is_archive_char(#[trigger] v@[j]),
        decreases k - i,
    {
        let c = v[i];
        if !(('a' <= c && c <= 'z') || ('A' <= c && c <= 'Z') || c == '-') {
            return false;
        }
        i = i + 1;
    }
    true
}

fn first_slash_exec(v: &Vec<char>) -> (r: usize)
    ensures
        r == first_slash(v@, 0),
{
    let mut i: usize = 0;
    while i < v.len() && v[i] != '/'
        invariant
            i <= v.len(),
            first_slash(v@, i as int) == first_slash(v@, 0),
        decreases v.len() - i,
    {
        i = i + 1;
    }
    i
}

/// Where the identifier `t` splits, or `None` when `t` is no identifier.
fn find_id_split(t: &[char]) -> (r: Option<usize>)
    ensures
        r is None <==> !is_arxiv_id(t@),
        r matches Some(p) ==> id_split(t@, p as int),
{
    let p: usize = if t.len() > 0 && is_decimal_digit(t[0]) {
        if t.len() >= 10 && is_decimal_digit(t[9]) {
            10
        } else {
            9
        }
    } else {
        let mut i: usize = 0;
        while i < t.len() && t[i] != '/'
            invariant
                i <= t.len(),
                first_slash(t@, i as int) == first_slash(t@, 0),
            decreases t.len() - i,
        {
            i = i + 1;
        }
        if t.len() < 8 || i > t.len() - 8 {
            proof {
                if is_arxiv_id(t@) {
                    let q = choose|q: int| id_split(t@, q);
                    lemma_split_unique(t@, q);
                }
            }
            return None;
        }
        i + 8
    };
    assert(p == base_len(t@));
    if p <= t.len() && id_split_exec(t, p) {
        Some(p)
    } else {
        proof {
            if is_arxiv_id(t@) {
                let q = choose|q: int| id_split(t@, q);
                lemma_split_unique(t@, q);
            }
        }
        None
    }
}

// ------------------------------------------------------------------ outcomes

/// What parsing an identifier or URL comes to.
pub ghost enum IdOutcome {
    Invalid(Seq<char>),
    UnsupportedHost(Seq<char>),
    Parsed(Seq<char>, Option<Seq<char>>, bool),
}

/// `normalize_id`: the trimmed value when it is an identifier, with its
/// version; the value itself in the error otherwise.
pub open spec fn normalize_outcome(value: Seq<char>) -> IdOutcome {
    let t = trim(value);
    if is_arxiv_id(t) {
        IdOutcome::Parsed(t, id_version(t), id_version(t) is Some)
    } else {
        IdOutcome::Invalid(value)
    }
}

pub open spec fn outcome_of<T>(
    r: Result<T, Arxiv2MdError>,
    ok: spec_fn(T) -> (Seq<char>, Option<Seq<char>>, bool),
) -> IdOutcome {
    match r {
        Ok(x) => IdOutcome::Parsed(ok(x).0, ok(x).1, ok(x).2),
        Err(Arxiv2MdError::UnsupportedHost(h)) => IdOutcome::UnsupportedHost(h@),
        Err(Arxiv2MdError::InvalidInput(m)) => IdOutcome::Invalid(m@),
        Err(_) => IdOutcome::Invalid(Seq::empty()),
    }
}

pub open spec fn triple_outcome(r: Result<(String, Option<String>, bool), Arxiv2MdError>) -> IdOutcome {
    outcome_of(r, |x: (String, Option<String>, bool)| (x.0@, opt_view(x.1), x.2))
}

pub open spec fn pair_outcome(r: Result<(String, Option<String>), Arxiv2MdError>) -> IdOutcome {
    outcome_of(r, |x: (String, Option<String>)| (x.0@, opt_view(x.1), opt_view(x.1) is Some))
}

/// `normalize_id`: matches the trimmed value against the identifier grammar.
pub fn normalize_id(value: &str) -> (r: Result<(String, Option<String>), Arxiv2MdError>)
    ensures
        pair_outcome(r) == normalize_outcome(value@),
        r is Err ==> r matches Err(Arxiv2MdError::InvalidInput(_)),
{
    let v = chars_of(value);
    let t = trim_chars(v.as_slice());
    match find_id_split(t.as_slice()) {
        None => Err(Arxiv2MdError::InvalidInput(String::from_str(value))),
        Some(p) => {
            proof {
                lemma_split_unique(t@, p as int);
                let q = choose|q: int| id_split(t@, q);
                lemma_split_unique(t@, q);
            }
            let normalized = string_of(t.as_slice());
            let version = if p < t.len() {
                let suffix = copy_range(t.as_slice(), p, t.len());
                Some(string_of(suffix.as_slice()))
            } else {
                None
            };
            Ok((normalized, version))
        },
    }
}

// ---------------------------------------------------------------- URLs

/// The name of what `reqwest::Url::parse` gives for a string, reduced to the
/// parts read here: the host (`host_str`, empty when absent) and the path
/// segments (`path_segments`, absent for URLs that cannot be a base).
pub uninterp spec fn parsed_url(value: Seq<char>) -> Option<(Seq<char>, Option<Seq<Seq<char>>>)>;

/// Calls `reqwest::Url::parse`; `None` when it refuses the string.
#[verifier::external_body]
fn url_parts(value: &str) -> (r: Option<(String, Option<Vec<String>>)>)
    ensures
        match r {
            None => parsed_url(value@) is None,
            Some((host, segments)) => parsed_url(value@) == Some(
                (
                    host@,
                    match segments {
                        Some(v) => Some(sviews(v@)),
                        None => None,
                    },
                ),
            ),
        },
{
    let url = reqwest::Url::parse(value).ok()?;
    let host = url.host_str().unwrap_or_default().to_owned();
    let segments = url.path_segments().map(|s| s.map(|x| x.to_owned()).collect());
    Some((host, segments))
}

/// `value` with the scheme and host added that a bare `arxiv.org/...` or
/// `abs/...` reference leaves out.
pub open spec fn url_candidate(raw: Seq<char>) -> Seq<char> {
    let v = if starts_with(raw, "arxiv.org/"@) {
        "https://"@ + raw
    } else {
        raw
    };
    if !starts_with(v, "http://"@) && !starts_with(v, "https://"@) {
        "https://arxiv.org/"@ + v
    } else {
        v
    }
}

/// The segments of a path that are not empty, in order.
pub open spec fn nonempty_segments(segs: Seq<Seq<char>>) -> Seq<Seq<char>> {
    segs.filter(|s: Seq<char>| s.len() > 0)
}

pub open spec fn is_view_segment(s: Seq<char>) -> bool {
    s == "abs"@ || s == "html"@ || s == "pdf"@
}

/// An old-style archive name such as `hep-th`: one or more of `[A-Za-z-]`.
pub open spec fn is_archive_name(s: Seq<char>) -> bool {
    s.len() > 0 && forall|i: int| 0 <= i < s.len() ==> is_archive_char(#[trigger] s[i])
}

/// A path segment without its `.pdf` extension.
pub open spec fn without_pdf(s: Seq<char>) -> Seq<char> {
    if ends_with(s, ".pdf"@) {
        s.subrange(0, s.len() - ".pdf"@.len())
    } else {
        s
    }
}

/// The identifier part of a URL's path, `None` when the path names none:
/// after `abs`, `html` or `pdf`, the next segment, or the archive name and
/// the number of an old-style identifier (`abs/hep-th/9901001`) together.
pub open spec fn url_id_candidate(parts: Seq<Seq<char>>) -> Option<Seq<char>> {
    if parts.len() == 0 {
        None
    } else if is_view_segment(parts[0]) {
        if parts.len() < 2 {
            None
        } else if parts.len() >= 3 && is_archive_name(parts[1]) {
            Some(parts[1] + seq!['/'] + without_pdf(parts[2]))
        } else {
            Some(without_pdf(parts[1]))
        }
    } else {
        Some(parts[0])
    }
}

fn is_archive_name_exec(s: &Vec<char>) -> (b: bool)
    ensures
        b == is_archive_name(s@),
{
    if s.len() == 0 {
        return false;
    }
    let mut i: usize = 0;
    while i < s.len()
        invariant
            i <= s.len(),
            forall|k: int| 0 <= k < i ==> is_archive_char(#[trigger] s@[k]),
        decreases s.len() - i,
    {
        let c = s[i];
        if !(('a' <= c && c <= 'z') || ('A' <= c && c <= 'Z') || c == '-') {
            return false;
        }
        i = i + 1;
    }
    true
}

fn without_pdf_exec(s: &Vec<char>) -> (r: Vec<char>)
    ensures
        r@ == without_pdf(s@),
{
    let ext = lit(".pdf");
    if ends_with_exec(s.as_slice(), ext.as_slice()) {
        copy_range(s.as_slice(), 0, s.len() - ext.len())
    } else {
        let r = copy_range(s.as_slice(), 0, s.len());
        assert(r@ =~= s@);
        r
    }
}

/// What a URL comes to, given what URL parsing gave for it.
pub open spec fn url_outcome(
    raw: Seq<char>,
    parsed: Option<(Seq<char>, Option<Seq<Seq<char>>>)>,
) -> IdOutcome {
    match parsed {
        None => IdOutcome::Invalid(raw),
        Some((host, segs)) => if !ends_with(host, "arxiv.org"@) {
            IdOutcome::UnsupportedHost(host)
        } else {
            let parts = nonempty_segments(
                match segs {
                    Some(s) => s,
                    None => Seq::empty(),
                },
            );
            match url_id_candidate(parts) {
                None => IdOutcome::Invalid(raw),
                Some(c) => normalize_outcome(c),
            }
        },
    }
}

pub open spec fn parsed_view(p: Option<(String, Option<Vec<String>>)>) -> Option<
    (Seq<char>, Option<Seq<Seq<char>>>),
> {
    match p {
        None => None,
        Some((h, s)) => Some(
            (
                h@,
                match s {
                    Some(v) => Some(sviews(v@)),
                    None => None,
                },
            ),
        ),
    }
}

fn lit(s: &str) -> (v: Vec<char>)
    ensures
        v@ == s@,
{
    chars_of(s)
}

fn nonempty_parts(segs: &Option<Vec<String>>) -> (r: Vec<Vec<char>>)
    ensures
        vviews(r@) == nonempty_segments(
            match segs {
                Some(v) => sviews(v@),
                None => Seq::empty(),
            },
        ),
{
    let mut r: Vec<Vec<char>> = Vec::new();
    match segs {
        None => {
            assert(nonempty_segments(Seq::empty()) =~= Seq::empty());
        },
        Some(v) => {
            let ghost all = sviews(v@);
            let mut i: usize = 0;
            while i < v.len()
                invariant
                    i <= v.len(),
                    all == sviews(v@),
                    vviews(r@) == nonempty_segments(all.take(i as int)),
                decreases v.len() - i,
            {
                let ghost before = vviews(r@);
                let c = chars_of(v[i].as_str());
                proof {
                    assert(all.take(i + 1).drop_last() =~= all.take(i as int));
                    reveal_with_fuel(Seq::filter, 1);
                }
                if c.len() > 0 {
                    r.push(c);
                    assert(vviews(r@) =~= before.push(c@));
                }
                i = i + 1;
            }
            assert(all.take(v.len() as int) =~= all);
        },
    }
    r
}

fn is_view_segment_exec(s: &Vec<char>) -> (b: bool)
    ensures
        b == is_view_segment(s@),
{
    let abs = lit("abs");
    let html = lit("html");
    let pdf = lit("pdf");
    chars_eq(s.as_slice(), abs.as_slice()) || chars_eq(s.as_slice(), html.as_slice()) || chars_eq(
        s.as_slice(),
        pdf.as_slice(),
    )
}

/// The identifier named by a URL, given what URL parsing gave for it.
pub fn id_from_url_parts(raw: &str, parsed: Option<(String, Option<Vec<String>>)>) -> (r: Result<
    (String, Option<String>, bool),
    Arxiv2MdError,
>)
    ensures
        triple_outcome(r) == url_outcome(raw@, parsed_view(parsed)),
        r is Err ==> (r matches Err(Arxiv2MdError::InvalidInput(_)) || r matches Err(
            Arxiv2MdError::UnsupportedHost(_),
        )),
{
    match parsed {
        None => Err(Arxiv2MdError::InvalidInput(String::from_str(raw))),
        Some((host, segs)) => {
            let hv = chars_of(host.as_str());
            let suffix = lit("arxiv.org");
            if !ends_with_exec(hv.as_slice(), suffix.as_slice()) {
                return Err(Arxiv2MdError::UnsupportedHost(host));
            }
            let parts = nonempty_parts(&segs);
            if parts.len() == 0 {
                return Err(Arxiv2MdError::InvalidInput(String::from_str(raw)));
            }
            let candidate: Vec<char> = if is_view_segment_exec(&parts[0]) {
                if parts.len() < 2 {
                    return Err(Arxiv2MdError::InvalidInput(String::from_str(raw)));
                }
                if parts.len() >= 3 && is_archive_name_exec(&parts[1]) {
                    let mut c = copy_range(parts[1].as_slice(), 0, parts[1].len());
                    c.push('/');
                    let n = without_pdf_exec(&parts[2]);
                    push_all(&mut c, n.as_slice());
                    assert(c@ =~= parts@[1]@ + seq!['/'] + without_pdf(parts@[2]@));
                    c
                } else {
                    without_pdf_exec(&parts[1])
                }
            } else {
                let c = copy_range(parts[0].as_slice(), 0, parts[0].len());
                assert(c@ =~= parts@[0]@);
                c
            };
            let cs = string_of(candidate.as_slice());
            match normalize_id(cs.as_str()) {
                Ok((normalized, version)) => {
                    let versioned = version.is_some();
                    Ok((normalized, version, versioned))
                },
                Err(e) => Err(e),
            }
        },
    }
}

/// The URL to parse for a URL-like reference.
fn url_candidate_exec(raw: &str) -> (r: String)
    ensures
        r@ == url_candidate(raw@),
{
    let rv = chars_of(raw);
    let arxiv = lit("arxiv.org/");
    let http = lit("http://");
    let https = lit("https://");
    let mut v: Vec<char> = Vec::new();
    if starts_with_exec(rv.as_slice(), arxiv.as_slice()) {
        push_all(&mut v, https.as_slice());
    }
    push_all(&mut v, rv.as_slice());
    if !starts_with_exec(v.as_slice(), http.as_slice()) && !starts_with_exec(
        v.as_slice(),
        https.as_slice(),
    ) {
        let mut w = lit("https://arxiv.org/");
        push_all(&mut w, v.as_slice());
        return string_of(w.as_slice());
    }
    string_of(v.as_slice())
}

/// `extract_from_url`: the identifier named by a URL.
pub fn extract_from_url(raw: &str) -> (r: Result<(String, Option<String>, bool), Arxiv2MdError>)
    ensures
        triple_outcome(r) == url_outcome(raw@, parsed_url(url_candidate(raw@))),
        r is Err ==> (r matches Err(Arxiv2MdError::InvalidInput(_)) || r matches Err(
            Arxiv2MdError::UnsupportedHost(_),
        )),
{
    let value = url_candidate_exec(raw);
    let parsed = url_parts(value.as_str());
    id_from_url_parts(raw, parsed)
}

/// Whether a reference is to be read as a URL rather than a bare identifier.
pub open spec fn looks_like_url_spec(v: Seq<char>) -> bool {
    ||| starts_with(v, "http://"@)
    ||| starts_with(v, "https://"@)
    ||| starts_with(v, "arxiv.org/"@)
    ||| is_view_segment(v.subrange(0, first_slash(v, 0)))
}

pub fn looks_like_url(value: &str) -> (b: bool)
    ensures
        b == looks_like_url_spec(value@),
{
    let v = chars_of(value);
    let http = lit("http://");
    let https = lit("https://");
    let arxiv = lit("arxiv.org/");
    if starts_with_exec(v.as_slice(), http.as_slice()) || starts_with_exec(
        v.as_slice(),
        https.as_slice(),
    ) || starts_with_exec(v.as_slice(), arxiv.as_slice()) {
        return true;
    }
    let k = first_slash_exec(&v);
    proof {
        lemma_first_slash(v@, 0);
    }
    let first = copy_range(v.as_slice(), 0, k);
    is_view_segment_exec(&first)
}

// ------------------------------------------------------------------ parse

/// A reference without its `arXiv:` or `arxiv:` prefix.
pub open spec fn strip_id_prefix(raw: Seq<char>) -> Seq<char> {
    if starts_with(raw, "arXiv:"@) || starts_with(raw, "arxiv:"@) {
        raw.subrange(6, raw.len() as int)
    } else {
        raw
    }
}

/// What `parse` comes to for an input.
pub open spec fn parse_outcome(input: Seq<char>) -> IdOutcome {
    let raw = trim(input);
    if raw.len() == 0 {
        IdOutcome::Invalid(input)
    } else {
        let stripped = strip_id_prefix(raw);
        if looks_like_url_spec(stripped) {
            url_outcome(stripped, parsed_url(url_candidate(stripped)))
        } else {
            normalize_outcome(stripped)
        }
    }
}

/// The URLs of each representation of the paper `n`.
pub open spec fn has_urls(id: ArxivId, n: Seq<char>) -> bool {
    &&& id.abs_url@ == "https://arxiv.org/abs/"@ + n
    &&& id.html_url@ == "https://arxiv.org/html/"@ + n
    &&& id.ar5iv_url@ == "https://ar5iv.labs.arxiv.org/html/"@ + n
    &&& id.pdf_url@ == "https://arxiv.org/pdf/"@ + n + ".pdf"@
    &&& id.eprint_url@ == "https://arxiv.org/e-print/"@ + n
}

pub open spec fn id_outcome(r: Result<ArxivId, Arxiv2MdError>) -> IdOutcome {
    outcome_of(r, |x: ArxivId| (x.normalized@, opt_view(x.version), x.versioned_input))
}

/// Parses an arXiv identifier or URL (`2501.11120v1`, `hep-th/9901001`,
/// `arXiv:...`, `https://arxiv.org/abs/...`, `arxiv.org/pdf/....pdf`).
pub fn parse(input: &str) -> (r: Result<ArxivId, Arxiv2MdError>)
    ensures
        id_outcome(r) == parse_outcome(input@),
        r matches Ok(id) ==> has_urls(id, id.normalized@),
        r is Err ==> (r matches Err(Arxiv2MdError::InvalidInput(_)) || r matches Err(
            Arxiv2MdError::UnsupportedHost(_),
        )),
{
    let iv = chars_of(input);
    let rv = trim_chars(iv.as_slice());
    if rv.len() == 0 {
        return Err(Arxiv2MdError::InvalidInput(String::from_str(input)));
    }
    let upper = lit("arXiv:");
    let lower = lit("arxiv:");
    proof {
        reveal_strlit("arXiv:");
        reveal_strlit("arxiv:");
    }
    let stripped_v = if starts_with_exec(rv.as_slice(), upper.as_slice()) || starts_with_exec(
        rv.as_slice(),
        lower.as_slice(),
    ) {
        copy_range(rv.as_slice(), 6, rv.len())
    } else {
        copy_range(rv.as_slice(), 0, rv.len())
    };
    assert(rv@.subrange(0, rv@.len() as int) =~= rv@);
    let stripped = string_of(stripped_v.as_slice());
    let (normalized, version, versioned_input) = if looks_like_url(stripped.as_str()) {
        extract_from_url(stripped.as_str())?
    } else {
        let (id, version) = normalize_id(stripped.as_str())?;
        let versioned = version.is_some();
        (id, version, versioned)
    };
    let n = normalized.as_str();
    Ok(
        ArxivId {
            abs_url: concat("https://arxiv.org/abs/", n),
            html_url: concat("https://arxiv.org/html/", n),
            ar5iv_url: concat("https://ar5iv.labs.arxiv.org/html/", n),
            pdf_url: {
                let u = concat("https://arxiv.org/pdf/", n);
                concat(u.as_str(), ".pdf")
            },
            eprint_url: concat("https://arxiv.org/e-print/", n),
            normalized,
            version,
            versioned_input,
        },
    )
}

} // verus!

verus! {

// ------------------------------------------------------------------- laws

/// Every character of an identifier is a digit, an archive-name character,
/// `.`, `/` or `v`.
pub open spec fn id_char(c: char) -> bool {
    is_decimal(c) || is_archive_char(c) || c == '.' || c == '/'
}

pub proof fn lemma_id_chars(t: Seq<char>)
    requires
        is_arxiv_id(t),
    ensures
        forall|i: int| 0 <= i < t.len() ==> id_char(#[trigger] t[i]),
{
    let p = choose|p: int| id_split(t, p);
    let b = t.subrange(0, p);
    assert forall|i: int| 0 <= i < t.len() implies id_char(#[trigger] t[i]) by {
        if i < p {
            if new_style_base(b) {
                if i < 4 {
                    assert(is_decimal(b.subrange(0, 4)[i]));
                } else if i > 4 {
                    assert(is_decimal(b.subrange(5, b.len() as int)[i - 5]));
                }
            } else {
                let k = choose|k: int| old_style_base_at(b, k);
                if i < k {
                    assert(is_archive_char(b[i]));
                } else if i > k {
                    assert(is_decimal(b.subrange(k + 1, b.len() as int)[i - k - 1]));
                }
            }
        } else {
            let v = t.subrange(p, t.len() as int);
            if i > p {
                assert(is_decimal(v.subrange(1, v.len() as int)[i - p - 1]));
            } else {
                assert(v[0] == 'v');
            }
        }
    }
}

proof fn lemma_decimal_not_ws(c: char)
    requires
        is_decimal(c),
    ensures
        !is_ws(c),
        c != ':',
{
}

proof fn lemma_trim_id(t: Seq<char>)
    requires
        is_arxiv_id(t),
    ensures
        trim(t) == t,
        strip_id_prefix(t) == t,
{
    lemma_id_chars(t);
    assert forall|i: int| 0 <= i < t.len() implies !is_ws(#[trigger] t[i]) && t[i] != ':' by {
        if is_decimal(t[i]) {
            lemma_decimal_not_ws(t[i]);
        }
    }
    lemma_skip_ws(t, 0);
    assert(skip_ws(t, 0) == 0);
    let s = t.subrange(0, t.len() as int);
    assert(s =~= t);
    lemma_back_ws(t, t.len() as int);
    assert(back_ws(t, t.len() as int) == t.len());
    assert(trim(t) =~= t);
    reveal_strlit("arXiv:");
    reveal_strlit("arxiv:");
    if t.len() >= 6 {
        assert(t.subrange(0, 6)[5] != ':');
    }
}

/// A bare identifier is taken as it stands: parsing an identifier that does
/// not read as a URL yields that identifier and its version.
pub proof fn law_identifier_parses_to_itself(t: Seq<char>)
    requires
        is_arxiv_id(t),
        !looks_like_url_spec(t),
    ensures
        parse_outcome(t) == IdOutcome::Parsed(t, id_version(t), id_version(t) is Some),
{
    lemma_trim_id(t);
    lemma_id_chars(t);
}

/// Parsing is idempotent: whatever a reference parses to is an identifier,
/// its `versioned_input` says whether it has a version, and parsing the
/// normalized form again (unless it reads as a URL) gives the same result.
pub proof fn law_parse_idempotent(input: Seq<char>)
    requires
        parse_outcome(input) is Parsed,
    ensures
        ({
            let (n, v, versioned) = match parse_outcome(input) {
                IdOutcome::Parsed(n, v, b) => (n, v, b),
                _ => (Seq::empty(), None, false),
            };
            &&& is_arxiv_id(n)
            &&& versioned == (v is Some)
            &&& v == id_version(n)
            &&& !looks_like_url_spec(n) ==> parse_outcome(n) == parse_outcome(input)
        }),
{
    let o = parse_outcome(input);
    let (n, v, versioned) = match o {
        IdOutcome::Parsed(n, v, b) => (n, v, b),
        _ => (Seq::empty(), None, false),
    };
    assert(is_arxiv_id(n));
    lemma_trim_id(n);
    if !looks_like_url_spec(n) {
        law_identifier_parses_to_itself(n);
    }
}

/// Whitespace around a reference, and one `arXiv:` or `arxiv:` prefix
/// before it, change nothing: the reference parses as it would alone.
pub proof fn law_parse_ignores_space_and_prefix(
    t: Seq<char>,
    prefix: Seq<char>,
    before: Seq<char>,
    after: Seq<char>,
)
    requires
        t.len() > 0,
        !is_ws(t[0]),
        !is_ws(t.last()),
        !starts_with(t, "arXiv:"@),
        !starts_with(t, "arxiv:"@),
        prefix == "arXiv:"@ || prefix == "arxiv:"@ || prefix.len() == 0,
        forall|k: int| 0 <= k < before.len() ==> is_ws(#[trigger] before[k]),
        forall|k: int| 0 <= k < after.len() ==> is_ws(#[trigger] after[k]),
    ensures
        parse_outcome(before + prefix + t + after) == parse_outcome(t),
{
    reveal_strlit("arXiv:");
    reveal_strlit("arxiv:");
    let m = prefix + t;
    assert(m.len() > 0);
    if prefix.len() > 0 {
        assert(m[0] == prefix[0]);
        assert(!is_ws(m[0]));
    } else {
        assert(m =~= t);
    }
    assert(m.last() == t.last());
    lemma_trim_padded(before, m, after);
    assert(before + prefix + t + after =~= before + m + after);
    lemma_trim_fixed(t);
    if prefix.len() > 0 {
        assert(m.subrange(0, 6) =~= prefix);
        assert(m.subrange(6, m.len() as int) =~= t);
        assert(strip_id_prefix(m) == t);
    } else {
        assert(strip_id_prefix(m) == t);
    }
}

proof fn lemma_split_run(s: Seq<char>, sep: char, i: int, j: int, cur: Seq<char>)
    requires
        0 <= i <= j <= s.len(),
        forall|k: int| i <= k < j ==> #[trigger] s[k] != sep,
    ensures
        split_from(s, sep, i, cur) == split_from(s, sep, j, cur + s.subrange(i, j)),
    decreases j - i,
{
    if i < j {
        lemma_split_run(s, sep, i + 1, j, cur.push(s[i]));
        assert(cur.push(s[i]) + s.subrange(i + 1, j) =~= cur + s.subrange(i, j));
    } else {
        assert(cur + s.subrange(i, j) =~= cur);
    }
}

proof fn lemma_all_nonempty(s: Seq<Seq<char>>)
    requires
        forall|k: int| 0 <= k < s.len() ==> (#[trigger] s[k]).len() > 0,
    ensures
        nonempty_segments(s) == s,
    decreases s.len(),
{
    reveal_with_fuel(Seq::filter, 1);
    if s.len() > 0 {
        lemma_all_nonempty(s.drop_last());
        assert(s.drop_last().push(s.last()) =~= s);
    } else {
        assert(s.filter(|x: Seq<char>| x.len() > 0) =~= s);
    }
}

/// A digit is not the `f` that ends `.pdf`, so a segment ending in a digit
/// keeps its name.
proof fn lemma_no_pdf_suffix(s: Seq<char>)
    requires
        s.len() > 0,
        is_decimal(s.last()),
    ensures
        without_pdf(s) == s,
{
    reveal_strlit(".pdf");
    if ends_with(s, ".pdf"@) {
        assert(s.subrange(s.len() - 4, s.len() as int)[3] == s.last());
        assert(!is_decimal('f'));
    }
}

/// The facts about an identifier's characters that its URL path rests on:
/// with no `/` it ends in a digit; otherwise it is an archive name, one
/// `/` and a part without `/` that ends in a digit.
proof fn lemma_id_shape(n: Seq<char>) -> (k: int)
    requires
        is_arxiv_id(n),
    ensures
        n.len() > 0 && is_decimal(n.last()),
        k == -1 ==> forall|i: int| 0 <= i < n.len() ==> #[trigger] n[i] != '/',
        k != -1 ==> {
            &&& 1 <= k < n.len() - 1
            &&& n[k] == '/'
            &&& is_archive_name(n.subrange(0, k))
            &&& forall|i: int| k < i < n.len() ==> #[trigger] n[i] != '/'
        },
{
    let p = choose|p: int| id_split(n, p);
    let b = n.subrange(0, p);
    assert(!is_decimal('/'));
    assert forall|i: int| p <= i < n.len() implies #[trigger] n[i] != '/' && (i > p ==> is_decimal(
        n[i],
    )) by {
        let v = n.subrange(p, n.len() as int);
        assert(is_version(v));
        if i == p {
            assert(n[i] == v[0]);
        } else {
            assert(n[i] == v.subrange(1, v.len() as int)[i - p - 1]);
        }
    }
    if p < n.len() {
        assert(n.len() - 1 > p);
    }
    if new_style_base(b) {
        assert forall|i: int| 0 <= i < n.len() implies #[trigger] n[i] != '/' by {
            if i < p {
                assert(n[i] == b[i]);
                if i < 4 {
                    assert(is_decimal(b.subrange(0, 4)[i]));
                } else if i > 4 {
                    assert(is_decimal(b.subrange(5, b.len() as int)[i - 5]));
                }
            }
        }
        if p == n.len() {
            assert(is_decimal(b.subrange(5, b.len() as int)[b.len() - 6]));
        }
        -1
    } else {
        assert(old_style_base(b));
        let k = choose|k: int| old_style_base_at(b, k);
        assert(n[k] == b[k]);
        assert forall|i: int| k < i < n.len() implies #[trigger] n[i] != '/' by {
            if i < p {
                assert(n[i] == b[i]);
                assert(is_decimal(b.subrange(k + 1, b.len() as int)[i - k - 1]));
            }
        }
        if p == n.len() {
            assert(is_decimal(b.subrange(k + 1, b.len() as int)[b.len() - k - 2]));
        }
        assert forall|i: int| 0 <= i < k implies is_archive_char(#[trigger] n.subrange(0, k)[i]) by {
            assert(n.subrange(0, k)[i] == b[i]);
        }
        k
    }
}

/// The path of a representation URL of `n`: `abs/<n>`, `html/<n>` or
/// `pdf/<n>.pdf`, as segments.
pub open spec fn view_suffix(view: Seq<char>) -> Seq<char> {
    if view == "pdf"@ {
        ".pdf"@
    } else {
        Seq::empty()
    }
}

pub open spec fn view_path(view: Seq<char>, n: Seq<char>) -> Seq<Seq<char>> {
    seq![view] + split(n + view_suffix(view), '/')
}

pub open spec fn is_view_name(view: Seq<char>) -> bool {
    view == "abs"@ || view == "html"@ || view == "pdf"@
}

proof fn lemma_without_suffix(x: Seq<char>, view: Seq<char>)
    requires
        x.len() > 0,
        is_decimal(x.last()),
        is_view_name(view),
    ensures
        without_pdf(x + view_suffix(view)) == x,
        forall|i: int|
            x.len() <= i < (x + view_suffix(view)).len() ==> #[trigger] (x + view_suffix(view))[i]
                != '/',
        (x + view_suffix(view)).len() > 0,
{
    reveal_strlit(".pdf");
    reveal_strlit("pdf");
    if view == "pdf"@ {
        let m = x + ".pdf"@;
        assert(m.subrange(m.len() - 4, m.len() as int) =~= ".pdf"@);
        assert(m.subrange(0, m.len() - 4) =~= x);
    } else {
        assert(x + Seq::<char>::empty() =~= x);
        lemma_no_pdf_suffix(x);
    }
}

proof fn lemma_view_segment(view: Seq<char>)
    requires
        is_view_name(view),
    ensures
        is_view_segment(view),
        view.len() > 0,
{
    reveal_strlit("abs");
    reveal_strlit("html");
    reveal_strlit("pdf");
}

proof fn lemma_view_path_plain(n: Seq<char>, view: Seq<char>)
    requires
        n.len() > 0,
        is_decimal(n.last()),
        forall|i: int| 0 <= i < n.len() ==> #[trigger] n[i] != '/',
        is_view_name(view),
    ensures
        url_id_candidate(nonempty_segments(view_path(view, n))) == Some(n),
{
    lemma_view_segment(view);
    lemma_without_suffix(n, view);
    let m = n + view_suffix(view);
    assert forall|i: int| 0 <= i < m.len() implies #[trigger] m[i] != '/' by {
        if i < n.len() {
            assert(m[i] == n[i]);
        }
    }
    lemma_split_run(m, '/', 0, m.len() as int, Seq::empty());
    assert(Seq::<char>::empty() + m.subrange(0, m.len() as int) =~= m);
    let segs = view_path(view, n);
    assert(segs =~= seq![view, m]);
    lemma_all_nonempty(segs);
}

proof fn lemma_split_at_slash(n: Seq<char>, k: int)
    requires
        0 <= k < n.len(),
        n[k] == '/',
        forall|i: int| 0 <= i < n.len() && i != k ==> #[trigger] n[i] != '/',
    ensures
        split(n, '/') == seq![n.subrange(0, k), n.subrange(k + 1, n.len() as int)],
{
    lemma_split_run(n, '/', 0, k, Seq::empty());
    lemma_split_run(n, '/', k + 1, n.len() as int, Seq::empty());
    assert(Seq::<char>::empty() + n.subrange(0, k) =~= n.subrange(0, k));
    assert(Seq::<char>::empty() + n.subrange(k + 1, n.len() as int) =~= n.subrange(
        k + 1,
        n.len() as int,
    ));
    assert(split(n, '/') =~= seq![n.subrange(0, k), n.subrange(k + 1, n.len() as int)]);
}

proof fn lemma_view_path_old(n: Seq<char>, k: int, view: Seq<char>)
    requires
        1 <= k < n.len() - 1,
        is_decimal(n.last()),
        n[k] == '/',
        is_archive_name(n.subrange(0, k)),
        forall|i: int| k < i < n.len() ==> #[trigger] n[i] != '/',
        is_view_name(view),
    ensures
        url_id_candidate(nonempty_segments(view_path(view, n))) == Some(n),
{
    lemma_view_segment(view);
    let sfx = view_suffix(view);
    let m = n + sfx;
    let arch = n.subrange(0, k);
    let num = n.subrange(k + 1, n.len() as int);
    assert(num.last() == n.last());
    lemma_without_suffix(num, view);
    assert forall|i: int| 0 <= i < m.len() && i != k implies #[trigger] m[i] != '/' by {
        if i < k {
            assert(m[i] == arch[i]);
            assert(is_archive_char(arch[i]));
        } else if i < n.len() {
            assert(m[i] == n[i]);
        } else {
            assert(m[i] == (num + sfx)[i - k - 1]);
        }
    }
    assert(m[k] == '/');
    lemma_split_at_slash(m, k);
    assert(m.subrange(0, k) =~= arch);
    assert(m.subrange(k + 1, m.len() as int) =~= num + sfx);
    let segs = view_path(view, n);
    assert(segs =~= seq![view, arch, num + sfx]);
    lemma_all_nonempty(segs);
    assert(arch + seq!['/'] + num =~= n);
}

/// Every representation URL of an identifier names it again: given the
/// host and the path segments that URL parsing gives for
/// `https://arxiv.org/abs/<n>`, `.../html/<n>` or `.../pdf/<n>.pdf` (the
/// view, then `n` split at `/`), the URL reads as `n`, with its version.
pub proof fn law_view_url_names_identifier(
    n: Seq<char>,
    view: Seq<char>,
    raw: Seq<char>,
    host: Seq<char>,
)
    requires
        is_arxiv_id(n),
        is_view_name(view),
        ends_with(host, "arxiv.org"@),
    ensures
        url_outcome(raw, Some((host, Some(view_path(view, n))))) == IdOutcome::Parsed(
            n,
            id_version(n),
            id_version(n) is Some,
        ),
{
    let k = lemma_id_shape(n);
    lemma_trim_id(n);
    if k == -1 {
        lemma_view_path_plain(n, view);
    } else {
        lemma_view_path_old(n, k, view);
    }
}

/// An identifier's abs URL names it again: given the host and path
/// segments that URL parsing gives for `https://arxiv.org/abs/<n>` (`abs`,
/// then `n` split at `/`), the URL reads as `n`, with its version.
pub proof fn law_abs_url_names_identifier(n: Seq<char>, raw: Seq<char>, host: Seq<char>)
    requires
        is_arxiv_id(n),
        ends_with(host, "arxiv.org"@),
    ensures
        url_outcome(raw, Some((host, Some(seq!["abs"@] + split(n, '/'))))) == IdOutcome::Parsed(
            n,
            id_version(n),
            id_version(n) is Some,
        ),
{
    reveal_strlit("abs");
    reveal_strlit("pdf");
    assert("abs"@[0] != "pdf"@[0]);
    assert(view_suffix("abs"@) =~= Seq::<char>::empty());
    assert(n + Seq::<char>::empty() =~= n);
    assert(view_path("abs"@, n) =~= seq!["abs"@] + split(n, '/'));
    law_view_url_names_identifier(n, "abs"@, raw, host);
}

} // verus!

