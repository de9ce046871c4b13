//! Markdown: cleanup of generated text, the heading tree of a Markdown
//! document, section filtering, and rendering of a paper.
use vstd::prelude::*;

use crate::error::Arxiv2MdError;
use serde_yaml::Value;
use crate::model::{
    copy_metadata, copy_opt_string, copy_sections, copy_strings, opt_view, section_models, ArxivId,
    CliOptions, ConversionOutput, DocumentModel, Frontmatter, FrontmatterModel, MetadataModel, PaperDocument,
    PaperMetadata, ResolvedVia, SectionFilterMode, SectionModel, SectionNode,
};
use crate::sections::{
    build_tree, flat_models, flat_of, forest, lemma_preorder_concat, preorder, FlatModel, FlatSection,
};
use crate::text::{
    lemma_trim_ends, lemma_trim_fixed, ascii_lower_char, chars_eq, chars_of, copy_range, is_ascii_alpha, is_decimal, is_decimal_digit,
    is_whitespace, is_ws, join, join_exec, join_strings, lemma_skip_ws, lines, lines_exec,
    lowercase, normalize_ws, normalize_ws_chars, occurs_at, occurs_at_exec, push_all, push_repeat,
    push_string, repeat, skip_ws, skip_ws_exec, starts_with, starts_with_exec, string_of, sviews,
    to_ascii_lower_char, to_lowercase, trim, trim_chars, trim_end, trim_end_chars, trim_str, vviews,
};

verus! {

broadcast use vstd::string::group_string_axioms;

// ---------------------------------------------------------- blank lines

/// `n` newlines, at most two: what a run of `n` newlines becomes.
pub open spec fn newline_run(n: nat) -> Seq<char> {
    if n >= 3 {
        seq!['\n', '\n']
    } else {
        Seq::new(n, |i: int| '\n')
    }
}

/// `s[i..]` with every run of three or more newlines made two, `run`
/// newlines having been read just before `i`.
pub open spec fn squeeze_from(s: Seq<char>, i: int, run: nat) -> Seq<char>
    decreases s.len() - i,
{
    if i < 0 || i >= s.len() {
        newline_run(run)
    } else if s[i] == '\n' {
        squeeze_from(s, i + 1, run + 1)
    } else {
        newline_run(run) + seq![s[i]] + squeeze_from(s, i + 1, 0)
    }
}

/// `collapse_blank_lines`: the trimmed text with every run of three or more
/// newlines replaced by two (the regex `\n{3,}` replaced by `\n\n`).
pub open spec fn collapse_spec(s: Seq<char>) -> Seq<char> {
    squeeze_from(trim(s), 0, 0)
}

fn push_newlines(out: &mut Vec<char>, run: usize)
    ensures
        final(out)@ == old(out)@ + newline_run(run as nat),
{
    if run >= 3 {
        out.push('\n');
        out.push('\n');
        assert(final(out)@ =~= old(out)@ + newline_run(run as nat));
    } else {
        let mut k: usize = 0;
        while k < run
            invariant
                k <= run < 3,
                out@ == old(out)@ + Seq::new(k as nat, |i: int| '\n'),
            decreases run - k,
        {
            out.push('\n');
            k = k + 1;
            assert(out@ =~= old(out)@ + Seq::new(k as nat, |i: int| '\n'));
        }
    }
}

pub fn collapse_chars(v: &[char]) -> (r: Vec<char>)
    ensures
        r@ == collapse_spec(v@),
{
    let t = trim_chars(v);
    let mut out: Vec<char> = Vec::new();
    let mut run: usize = 0;
    let mut i: usize = 0;
    while i < t.len()
        invariant
            i <= t.len(),
            run <= i,
            out@ + squeeze_from(t@, i as int, run as nat) == squeeze_from(t@, 0, 0),
        decreases t.len() - i,
    {
        if t[i] == '\n' {
            run = run + 1;
        } else {
            let ghost before = out@;
            push_newlines(&mut out, run);
            out.push(t[i]);
            run = 0;
            assert(out@ + squeeze_from(t@, i + 1, 0) =~= before + (newline_run(
                (out@.len() - before.len() - 1) as nat,
            ) + seq![t@[i as int]] + squeeze_from(t@, i + 1, 0))) by {
                assert(out@.len() - before.len() - 1 == newline_run(
                    (out@.len() - before.len() - 1) as nat,
                ).len());
            }
        }
        i = i + 1;
    }
    let ghost before = out@;
    push_newlines(&mut out, run);
    out
}

/// Trims the text and makes every run of three or more newlines two.
pub fn collapse_blank_lines(input: &str) -> (r: String)
    ensures
        r@ == collapse_spec(input@),
{
    let v = chars_of(input);
    let c = collapse_chars(v.as_slice());
    string_of(c.as_slice())
}


// ------------------------------------------------------------- searching

/// `c` matches the lowercase ASCII letter or symbol `l` under the regex
/// flag `i` (simple case folding).
pub open spec fn ci_char_eq(c: char, l: char) -> bool {
    ||| ascii_lower_char(c) == l
    ||| (l == 'k' && c == '\u{212a}')
    ||| (l == 's' && c == '\u{17f}')
}

fn ci_char_eq_exec(c: char, l: char) -> (b: bool)
    ensures
        b == ci_char_eq(c, l),
{
    to_ascii_lower_char(c) == l || (l == 'k' && c == '\u{212a}') || (l == 's' && c == '\u{17f}')
}

/// `p` (lowercase) occurs case-insensitively in `s` at `i`.
pub open spec fn occurs_ci_at(s: Seq<char>, p: Seq<char>, i: int) -> bool {
    0 <= i && i + p.len() <= s.len() && forall|k: int|
        0 <= k < p.len() ==> ci_char_eq(#[trigger] s[i + k], p[k])
}

fn occurs_ci_at_exec(s: &[char], p: &[char], i: usize) -> (b: bool)
    ensures
        b == occurs_ci_at(s@, p@, i as int),
{
    if i > s.len() || p.len() > s.len() - i {
        return false;
    }
    let mut k: usize = 0;
    while k < p.len()
        invariant
            i + p.len() <= s.len(),
            k <= p.len(),
            forall|j: int| 0 <= j < k ==> ci_char_eq(#[trigger] s@[i + j], p@[j]),
        decreases p.len() - k,
    {
        if !ci_char_eq_exec(s[i + k], p[k]) {
            return false;
        }
        k = k + 1;
    }
    true
}

/// The first position at or after `i` where `p` occurs in `s`, or -1.
pub open spec fn find_from(s: Seq<char>, p: Seq<char>, i: int) -> int
    decreases s.len() + 1 - i,
{
    if i < 0 || i > s.len() || i + p.len() > s.len() {
        -1
    } else if occurs_at(s, p, i) {
        i
    } else {
        find_from(s, p, i + 1)
    }
}

/// The first position at or after `i` where `p` occurs case-insensitively.
pub open spec fn find_ci_from(s: Seq<char>, p: Seq<char>, i: int) -> int
    decreases s.len() + 1 - i,
{
    if i < 0 || i > s.len() || i + p.len() > s.len() {
        -1
    } else if occurs_ci_at(s, p, i) {
        i
    } else {
        find_ci_from(s, p, i + 1)
    }
}

pub proof fn lemma_find_from(s: Seq<char>, p: Seq<char>, i: int)
    requires
        0 <= i,
    ensures
        find_from(s, p, i) == -1 || (i <= find_from(s, p, i) && occurs_at(
            s,
            p,
            find_from(s, p, i),
        ) && find_from(s, p, i) + p.len() <= s.len()),
        forall|j: int|
            i <= j && (find_from(s, p, i) == -1 || j < find_from(s, p, i)) ==> !occurs_at(
                s,
                p,
                j,
            ),
    decreases s.len() + 1 - i,
{
    if i <= s.len() && i + p.len() <= s.len() && !occurs_at(s, p, i) {
        lemma_find_from(s, p, i + 1);
    }
}

pub proof fn lemma_find_ci_from(s: Seq<char>, p: Seq<char>, i: int)
    requires
        0 <= i,
    ensures
        find_ci_from(s, p, i) == -1 || (i <= find_ci_from(s, p, i) && occurs_ci_at(
            s,
            p,
            find_ci_from(s, p, i),
        ) && find_ci_from(s, p, i) + p.len() <= s.len()),
    decreases s.len() + 1 - i,
{
    if i <= s.len() && i + p.len() <= s.len() && !occurs_ci_at(s, p, i) {
        lemma_find_ci_from(s, p, i + 1);
    }
}

fn find_exec(s: &[char], p: &[char], i: usize) -> (r: Option<usize>)
    requires
        i <= s.len(),
    ensures
        match r {
            Some(j) => j as int == find_from(s@, p@, i as int),
            None => find_from(s@, p@, i as int) == -1,
        },
{
    let mut j = i;
    while j < s.len() && p.len() <= s.len() - j
        invariant
            i <= j <= s.len(),
            find_from(s@, p@, j as int) == find_from(s@, p@, i as int),
        decreases s.len() - j,
    {
        if occurs_at_exec(s, p, j) {
            return Some(j);
        }
        j = j + 1;
    }
    if p.len() == 0 && j == s.len() {
        assert(s@.subrange(j as int, j as int) =~= p@);
        return Some(j);
    }
    None
}

fn find_ci_exec(s: &[char], p: &[char], i: usize) -> (r: Option<usize>)
    requires
        i <= s.len(),
    ensures
        match r {
            Some(j) => j as int == find_ci_from(s@, p@, i as int),
            None => find_ci_from(s@, p@, i as int) == -1,
        },
{
    let mut j = i;
    while j < s.len() && p.len() <= s.len() - j
        invariant
            i <= j <= s.len(),
            find_ci_from(s@, p@, j as int) == find_ci_from(s@, p@, i as int),
        decreases s.len() - j,
    {
        if occurs_ci_at_exec(s, p, j) {
            return Some(j);
        }
        j = j + 1;
    }
    if p.len() == 0 && j == s.len() {
        return Some(j);
    }
    None
}

// ---------------------------------------------------------------- CRLF

/// `s[i..]` with every `\r\n` made `\n`.
pub open spec fn crlf_from(s: Seq<char>, i: int) -> Seq<char>
    decreases s.len() - i,
{
    if i < 0 || i >= s.len() {
        Seq::empty()
    } else if s[i] == '\r' && i + 1 < s.len() && s[i + 1] == '\n' {
        seq!['\n'] + crlf_from(s, i + 2)
    } else {
        seq![s[i]] + crlf_from(s, i + 1)
    }
}

fn crlf_exec(s: &[char]) -> (r: Vec<char>)
    ensures
        r@ == crlf_from(s@, 0),
{
    let mut out: Vec<char> = Vec::new();
    let mut i: usize = 0;
    while i < s.len()
        invariant
            i <= s.len(),
            out@ + crlf_from(s@, i as int) == crlf_from(s@, 0),
        decreases s.len() - i,
    {
        let ghost before = out@;
        if s[i] == '\r' && i + 1 < s.len() && s[i + 1] == '\n' {
            out.push('\n');
            i = i + 2;
        } else {
            out.push(s[i]);
            i = i + 1;
        }
        assert(out@ + crlf_from(s@, i as int) =~= before + (seq![out@.last()] + crlf_from(
            s@,
            i as int,
        )));
    }
    assert(crlf_from(s@, i as int) =~= Seq::<char>::empty());
    assert(out@ + Seq::<char>::empty() =~= out@);
    out
}

// -------------------------------------------------------------- figures

/// `s[i..]` without `<figure ... </figure>` blocks (the regex
/// `(?is)<figure.*?</figure>` replaced by nothing).
pub open spec fn figures_from(s: Seq<char>, i: int) -> Seq<char>
    decreases s.len() - i,
{
    let p = find_ci_from(s, "<figure"@, i);
    if i < 0 || i > s.len() || p < 0 {
        s.subrange(i, s.len() as int)
    } else {
        let j = find_ci_from(s, "</figure>"@, p + "<figure"@.len());
        if j < 0 {
            s.subrange(i, s.len() as int)
        } else {
            proof {
                reveal_strlit("<figure");
                reveal_strlit("</figure>");
                lemma_find_ci_from(s, "<figure"@, i);
                lemma_find_ci_from(s, "</figure>"@, p + "<figure"@.len());
            }
            s.subrange(i, p) + figures_from(s, j + "</figure>"@.len())
        }
    }
}

fn remove_figures(s: &[char]) -> (r: Vec<char>)
    ensures
        r@ == figures_from(s@, 0),
{
    let open = chars_of("<figure");
    let close = chars_of("</figure>");
    proof {
        reveal_strlit("<figure");
        reveal_strlit("</figure>");
    }
    let mut out: Vec<char> = Vec::new();
    let mut i: usize = 0;
    loop
        invariant
            i <= s.len(),
            open@ == "<figure"@,
            close@ == "</figure>"@,
            open@.len() == 7,
            close@.len() == 9,
            out@ + figures_from(s@, i as int) == figures_from(s@, 0),
        decreases s.len() - i,
    {
        let ghost before = out@;
        proof {
            lemma_find_ci_from(s@, open@, i as int);
        }
        match find_ci_exec(s, open.as_slice(), i) {
            None => {
                let rest = copy_range(s, i, s.len());
                push_all(&mut out, rest.as_slice());
                return out;
            },
            Some(p) => {
                proof {
                    lemma_find_ci_from(s@, close@, (p + open@.len()) as int);
                }
                match find_ci_exec(s, close.as_slice(), p + open.len()) {
                    None => {
                        let rest = copy_range(s, i, s.len());
                        push_all(&mut out, rest.as_slice());
                        return out;
                    },
                    Some(j) => {
                        let keep = copy_range(s, i, p);
                        push_all(&mut out, keep.as_slice());
                        assert(out@ + figures_from(s@, (j + close.len()) as int) =~= before
                            + figures_from(s@, i as int));
                        i = j + close.len();
                    },
                }
            },
        }
    }
}

// ------------------------------------------------------------------ tags

/// The first `>` at or after `i`, or -1.
pub open spec fn find_gt(s: Seq<char>, i: int) -> int
    decreases s.len() - i,
{
    if i < 0 || i >= s.len() {
        -1
    } else if s[i] == '>' {
        i
    } else {
        find_gt(s, i + 1)
    }
}

pub proof fn lemma_find_gt(s: Seq<char>, i: int)
    requires
        0 <= i,
    ensures
        find_gt(s, i) == -1 || (i <= find_gt(s, i) < s.len() && s[find_gt(s, i)] == '>'),
    decreases s.len() - i,
{
    if i < s.len() && s[i] != '>' {
        lemma_find_gt(s, i + 1);
    }
}

/// `s[i..]` without HTML tags (the regex `(?is)<[^>]+>` replaced by
/// nothing): a `<`, at least one character other than `>`, then `>`.
pub open spec fn tags_from(s: Seq<char>, i: int) -> Seq<char>
    decreases s.len() - i,
{
    if i < 0 || i >= s.len() {
        Seq::empty()
    } else if s[i] == '<' && i + 1 < s.len() && s[i + 1] != '>' && find_gt(s, i + 1) > i + 1 {
        proof {
            lemma_find_gt(s, i + 1);
        }
        tags_from(s, find_gt(s, i + 1) + 1)
    } else {
        seq![s[i]] + tags_from(s, i + 1)
    }
}

fn find_gt_exec(s: &[char], i: usize) -> (r: Option<usize>)
    requires
        i <= s.len(),
    ensures
        match r {
            Some(j) => j as int == find_gt(s@, i as int),
            None => find_gt(s@, i as int) == -1,
        },
{
    let mut j = i;
    while j < s.len() && s[j] != '>'
        invariant
            i <= j <= s.len(),
            find_gt(s@, j as int) == find_gt(s@, i as int),
        decreases s.len() - j,
    {
        j = j + 1;
    }
    if j < s.len() {
        Some(j)
    } else {
        None
    }
}

fn remove_tags(s: &[char]) -> (r: Vec<char>)
    ensures
        r@ == tags_from(s@, 0),
{
    let mut out: Vec<char> = Vec::new();
    let mut i: usize = 0;
    while i < s.len()
        invariant
            i <= s.len(),
            out@ + tags_from(s@, i as int) == tags_from(s@, 0),
        decreases s.len() - i,
    {
        let ghost before = out@;
        let mut skipped = false;
        if s[i] == '<' && i + 1 < s.len() && s[i + 1] != '>' {
            proof {
                lemma_find_gt(s@, i + 1);
            }
            match find_gt_exec(s, i + 1) {
                Some(g) => {
                    i = g + 1;
                    skipped = true;
                },
                None => {},
            }
        }
        if !skipped {
            out.push(s[i]);
            assert(out@ + tags_from(s@, i + 1) =~= before + tags_from(s@, i as int));
            i = i + 1;
        }
    }
    assert(out@ + Seq::<char>::empty() =~= out@);
    out
}

// --------------------------------------------------------- display math

/// `$$...$$` at `p..e` stands alone on its lines.
pub open spec fn math_on_own_lines(s: Seq<char>, p: int, e: int) -> bool {
    &&& (p == 0 || s[p - 1] == '\n')
    &&& (e == s.len() || s[e] == '\n')
}

/// What the display formula `s[p..e]` (with its `$$` delimiters) becomes.
pub open spec fn math_replacement(s: Seq<char>, p: int, e: int) -> Seq<char> {
    if math_on_own_lines(s, p, e) {
        s.subrange(p, e)
    } else {
        "\n$$"@ + trim(s.subrange(p + 2, e - 2)) + "$$\n"@
    }
}

/// `s[i..]` with each display formula (the regex `(?s)\$\$(.+?)\$\$`) put
/// on lines of its own, formulas already alone on their lines kept as they
/// are.
pub open spec fn math_from(s: Seq<char>, i: int) -> Seq<char>
    decreases s.len() - i,
{
    let p = find_from(s, "$$"@, i);
    if i < 0 || i > s.len() || p < 0 {
        s.subrange(i, s.len() as int)
    } else {
        let j = find_from(s, "$$"@, p + 3);
        if j < 0 {
            s.subrange(i, s.len() as int)
        } else {
            proof {
                lemma_find_from(s, "$$"@, i);
                lemma_find_from(s, "$$"@, p + 3);
                reveal_strlit("$$");
            }
            s.subrange(i, p) + math_replacement(s, p, j + 2) + math_from(s, j + 2)
        }
    }
}

fn normalize_display_math(s: &[char]) -> (r: Vec<char>)
    ensures
        r@ == math_from(s@, 0),
{
    let delim = chars_of("$$");
    let open_nl = chars_of("\n$$");
    let close_nl = chars_of("$$\n");
    proof {
        reveal_strlit("$$");
    }
    let mut out: Vec<char> = Vec::new();
    let mut i: usize = 0;
    loop
        invariant
            i <= s.len(),
            delim@ == "$$"@,
            delim@.len() == 2,
            open_nl@ == "\n$$"@,
            close_nl@ == "$$\n"@,
            out@ + math_from(s@, i as int) == math_from(s@, 0),
        decreases s.len() - i,
    {
        let ghost before = out@;
        proof {
            lemma_find_from(s@, delim@, i as int);
        }
        let found = find_exec(s, delim.as_slice(), i);
        if found.is_none() {
            let rest = copy_range(s, i, s.len());
            push_all(&mut out, rest.as_slice());
            return out;
        }
        let p = found.unwrap();
        if s.len() < 3 || p > s.len() - 3 {
            proof {
                assert(find_from(s@, delim@, p + 3) == -1);
            }
            let rest = copy_range(s, i, s.len());
            push_all(&mut out, rest.as_slice());
            return out;
        }
        proof {
            lemma_find_from(s@, delim@, p + 3);
        }
        let closing = find_exec(s, delim.as_slice(), p + 3);
        if closing.is_none() {
            let rest = copy_range(s, i, s.len());
            push_all(&mut out, rest.as_slice());
            return out;
        }
        let j = closing.unwrap();
        let e = j + 2;
        let keep = copy_range(s, i, p);
        push_all(&mut out, keep.as_slice());
        let own = (p == 0 || s[p - 1] == '\n') && (e == s.len() || s[e] == '\n');
        if own {
            let m = copy_range(s, p, e);
            push_all(&mut out, m.as_slice());
        } else {
            let body = copy_range(s, p + 2, j);
            let tb = trim_chars(body.as_slice());
            push_all(&mut out, open_nl.as_slice());
            push_all(&mut out, tb.as_slice());
            push_all(&mut out, close_nl.as_slice());
        }
        assert(out@ + math_from(s@, e as int) =~= before + math_from(s@, i as int));
        i = e;
    }
}

// ------------------------------------------------------------ references

/// `s[e..k]` is all whitespace.
pub open spec fn ws_run(s: Seq<char>, e: int, k: int) -> bool {
    forall|m: int| e <= m < k ==> is_ws(#[trigger] s[m])
}

/// Only whitespace follows `e` up to the end of its line (`\s*$` with the
/// regex flag `m`).
pub open spec fn ws_to_eol(s: Seq<char>, e: int) -> bool {
    exists|k: int|
        #![trigger ws_run(s, e, k)]
        e <= k <= s.len() && (k == s.len() || s[k] == '\n') && ws_run(s, e, k)
}

/// The word `w` (lowercase, any case in `s`) stands at `q`, followed only by
/// whitespace to the end of its line.
pub open spec fn heading_word_at(s: Seq<char>, w: Seq<char>, q: int) -> bool {
    occurs_ci_at(s, w, q) && ws_to_eol(s, q + w.len())
}

/// A line of `s` starting at `p` is, after leading whitespace, the word
/// `references` or `bibliography` (any case) followed only by whitespace up
/// to the end of a line: the regex `(?im)^\s*(references|bibliography)\s*$`
/// matches at `p`.
pub open spec fn reference_heading_at(s: Seq<char>, p: int) -> bool {
    let q = skip_ws(s, p);
    &&& 0 <= p <= s.len()
    &&& (p == 0 || s[p - 1] == '\n')
    &&& (heading_word_at(s, "references"@, q) || heading_word_at(s, "bibliography"@, q))
}

/// `remove_references_from_text`: the text before the first references
/// heading with its trailing whitespace removed, or the whole text trimmed
/// when there is no such heading.
pub open spec fn remove_references_spec(s: Seq<char>) -> Seq<char> {
    if exists|p: int| reference_heading_at(s, p) {
        let p = choose|p: int|
            reference_heading_at(s, p) && forall|q: int| 0 <= q < p ==> !reference_heading_at(s, q);
        trim_end(s.subrange(0, p))
    } else {
        trim(s)
    }
}


/// The first position at or after `e` that holds a newline or a character
/// other than whitespace.
pub open spec fn blank_end(s: Seq<char>, e: int) -> int
    decreases s.len() - e,
{
    if 0 <= e < s.len() && is_ws(s[e]) && s[e] != '\n' {
        blank_end(s, e + 1)
    } else {
        e
    }
}

proof fn lemma_blank_end(s: Seq<char>, e: int)
    requires
        0 <= e <= s.len(),
    ensures
        e <= blank_end(s, e) <= s.len(),
        forall|m: int| e <= m < blank_end(s, e) ==> is_ws(#[trigger] s[m]) && s[m] != '\n',
        blank_end(s, e) < s.len() ==> !is_ws(s[blank_end(s, e)]) || s[blank_end(s, e)]
            == '\n',
    decreases s.len() - e,
{
    if e < s.len() && is_ws(s[e]) && s[e] != '\n' {
        lemma_blank_end(s, e + 1);
    }
}

/// Whether `w` (lowercase) stands at `q` followed only by whitespace to the
/// end of its line.
fn word_then_eol(s: &[char], w: &[char], q: usize) -> (b: bool)
    requires
        q <= s.len(),
    ensures
        b == heading_word_at(s@, w@, q as int),
{
    if !occurs_ci_at_exec(s, w, q) {
        return false;
    }
    let e = q + w.len();
    let mut k = e;
    while k < s.len() && is_whitespace(s[k]) && s[k] != '\n'
        invariant
            e <= k <= s.len(),
            blank_end(s@, k as int) == blank_end(s@, e as int),
        decreases s.len() - k,
    {
        k = k + 1;
    }
    proof {
        lemma_blank_end(s@, e as int);
    }
    let ok = k == s.len() || s[k] == '\n';
    proof {
        if ok {
            assert(ws_run(s@, e as int, k as int));
        } else {
            assert forall|k2: int|
                e <= k2 <= s.len() && (k2 == s.len() || s@[k2] == '\n') implies !ws_run(
                s@,
                e as int,
                k2,
            ) by {
                if k2 > k {
                    assert(!is_ws(s@[k as int]));
                }
            }
        }
    }
    ok
}

fn reference_heading_exec(s: &[char], p: usize) -> (b: bool)
    requires
        p <= s.len(),
        p == 0 || s@[p - 1] == '\n',
    ensures
        b == reference_heading_at(s@, p as int),
{
    let q = skip_ws_exec(s, p);
    proof {
        lemma_skip_ws(s@, p as int);
    }
    let refs = chars_of("references");
    let bib = chars_of("bibliography");
    let r1 = word_then_eol(s, refs.as_slice(), q);
    let r2 = word_then_eol(s, bib.as_slice(), q);
    r1 || r2
}

/// Cuts the text at the first line that reads `References` or
/// `Bibliography`, trimming what is left.
pub fn remove_references_chars(s: &[char]) -> (r: Vec<char>)
    ensures
        r@ == remove_references_spec(s@),
{
    let mut p: usize = 0;
    loop
        invariant
            p <= s.len(),
            p == 0 || s@[p - 1] == '\n',
            forall|q: int| 0 <= q < p ==> !reference_heading_at(s@, q),
        decreases s.len() - p,
    {
        if reference_heading_exec(s, p) {
            proof {
                let c = choose|c: int|
                    reference_heading_at(s@, c) && forall|q: int|
                        0 <= q < c ==> !reference_heading_at(s@, q);
                assert(reference_heading_at(s@, p as int) && forall|q: int|
                    0 <= q < p ==> !reference_heading_at(s@, q));
                if c < p {
                } else if c > p {
                }
                assert(c == p);
            }
            let head = copy_range(s, 0, p);
            return trim_end_chars(head.as_slice());
        }
        let mut j = p;
        while j < s.len() && s[j] != '\n'
            invariant
                p <= j <= s.len(),
                forall|m: int| p <= m < j ==> s@[m] != '\n',
            decreases s.len() - j,
        {
            j = j + 1;
        }
        if j == s.len() {
            proof {
                assert forall|q: int| 0 <= q implies !reference_heading_at(s@, q) by {
                    if q > p && q <= s.len() {
                        assert(s@[q - 1] != '\n');
                    }
                }
            }
            return trim_chars(s);
        }
        proof {
            assert forall|q: int| p < q <= j implies !reference_heading_at(s@, q) by {
                assert(s@[q - 1] != '\n');
            }
        }
        p = j + 1;
    }
}

/// Cuts the text at the first line that reads `References` or
/// `Bibliography` (any case, surrounded by whitespace only), trimming the
/// end of what is left; trims the whole text when there is no such line.
pub fn remove_references_from_text(body: &str) -> (r: String)
    ensures
        r@ == remove_references_spec(body@),
{
    let v = chars_of(body);
    let r = remove_references_chars(v.as_slice());
    string_of(r.as_slice())
}

/// The cleanup of Markdown produced by a converter.
pub open spec fn cleanup_spec(s: Seq<char>) -> Seq<char> {
    collapse_spec(math_from(tags_from(figures_from(crlf_from(s, 0), 0), 0), 0))
}

/// `\r\n` made `\n`, figures and HTML tags removed, display formulas put on
/// lines of their own, blank lines collapsed.
pub fn cleanup_generated_markdown(markdown: &str) -> (r: String)
    ensures
        r@ == cleanup_spec(markdown@),
{
    let v = chars_of(markdown);
    let a = crlf_exec(v.as_slice());
    let b = remove_figures(a.as_slice());
    let c = remove_tags(b.as_slice());
    let d = normalize_display_math(c.as_slice());
    let e = collapse_chars(d.as_slice());
    string_of(e.as_slice())
}

// ------------------------------------------------------ Markdown headings

/// The number of `#` at the start of `line`.
pub open spec fn hashes(line: Seq<char>, i: int) -> int
    decreases line.len() - i,
{
    if 0 <= i < line.len() && line[i] == '#' {
        hashes(line, i + 1)
    } else {
        i
    }
}

/// The level and title of a Markdown heading line (the regex
/// `^(#{1,6})\s+(.+?)\s*$`): one to six `#`, whitespace, then at least one
/// more character; the title is the rest, trimmed.
pub open spec fn heading_of(line: Seq<char>) -> Option<(u8, Seq<char>)> {
    let h = hashes(line, 0);
    if 1 <= h <= 6 && line.len() >= h + 2 && is_ws(line[h]) {
        Some((h as u8, trim(line.subrange(h, line.len() as int))))
    } else {
        None
    }
}

/// A heading being read: its level, title and the lines below it so far.
pub ghost struct OpenHeading {
    pub level: u8,
    pub title: Seq<char>,
    pub body: Seq<Seq<char>>,
}

pub open spec fn close_heading(h: OpenHeading) -> FlatModel {
    FlatModel { level: h.level, title: h.title, anchor: None, markdown: trim(join(h.body, seq!['\n'])) }
}

/// The headings of `ls[i..]` with the text under each, `cur` being the
/// heading whose text is being read; lines before the first heading are
/// dropped.
pub open spec fn headings_from(ls: Seq<Seq<char>>, i: int, cur: Option<OpenHeading>) -> Seq<
    FlatModel,
>
    decreases ls.len() - i,
{
    if i < 0 || i >= ls.len() {
        match cur {
            Some(h) => seq![close_heading(h)],
            None => Seq::empty(),
        }
    } else {
        match heading_of(ls[i]) {
            Some((level, title)) => {
                let next = OpenHeading { level, title, body: Seq::empty() };
                match cur {
                    Some(h) => seq![close_heading(h)] + headings_from(ls, i + 1, Some(next)),
                    None => headings_from(ls, i + 1, Some(next)),
                }
            },
            None => match cur {
                Some(h) => headings_from(
                    ls,
                    i + 1,
                    Some(OpenHeading { level: h.level, title: h.title, body: h.body.push(ls[i]) }),
                ),
                None => headings_from(ls, i + 1, None),
            },
        }
    }
}

/// The section tree of a Markdown document.
pub open spec fn markdown_sections_spec(md: Seq<char>) -> Seq<SectionModel> {
    let items = headings_from(lines(md), 0, None);
    forest(items, 0, items.len() as int)
}

fn heading_exec(line: &Vec<char>) -> (r: Option<(u8, Vec<char>)>)
    ensures
        match r {
            Some((l, t)) => heading_of(line@) == Some((l, t@)),
            None => heading_of(line@) is None,
        },
{
    let mut h: usize = 0;
    while h < line.len() && line[h] == '#'
        invariant
            h <= line.len(),
            hashes(line@, h as int) == hashes(line@, 0),
        decreases line.len() - h,
    {
        h = h + 1;
    }
    if 1 <= h && h <= 6 && line.len() >= h + 2 && is_whitespace(line[h]) {
        let rest = copy_range(line.as_slice(), h, line.len());
        let title = trim_chars(rest.as_slice());
        Some((h as u8, title))
    } else {
        None
    }
}

fn close_exec(level: u8, title: &Vec<char>, body: &Vec<Vec<char>>) -> (r: FlatSection)
    ensures
        r@ == close_heading(OpenHeading { level, title: title@, body: vviews(body@) }),
{
    let nl = vec!['\n'];
    assert(nl@ =~= seq!['\n']);
    let joined = join_exec(body, nl.as_slice());
    let md = trim_chars(joined.as_slice());
    FlatSection {
        level,
        title: string_of(title.as_slice()),
        anchor: None,
        markdown: string_of(md.as_slice()),
    }
}

/// The headings of a Markdown document with the text under each.
fn markdown_headings(md: &str) -> (r: Vec<FlatSection>)
    ensures
        flat_models(r@) == headings_from(lines(md@), 0, None),
{
    let v = chars_of(md);
    let ls = lines_exec(v.as_slice());
    let ghost lv = vviews(ls@);
    let mut out: Vec<FlatSection> = Vec::new();
    let mut open = false;
    let mut level: u8 = 0;
    let mut title: Vec<char> = Vec::new();
    let mut body: Vec<Vec<char>> = Vec::new();
    let mut i: usize = 0;
    while i < ls.len()
        invariant
            i <= ls.len(),
            lv == vviews(ls@),
            lv == lines(md@),
            flat_models(out@) + headings_from(
                lv,
                i as int,
                if open {
                    Some(OpenHeading { level, title: title@, body: vviews(body@) })
                } else {
                    None
                },
            ) == headings_from(lv, 0, None),
        decreases ls.len() - i,
    {
        let ghost before = flat_models(out@);
        assert(lv[i as int] == ls@[i as int]@);
        match heading_exec(&ls[i]) {
            Some((l, t)) => {
                if open {
                    let f = close_exec(level, &title, &body);
                    out.push(f);
                    assert(flat_models(out@) =~= before + seq![f@]);
                }
                open = true;
                level = l;
                title = t;
                body = Vec::new();
                assert(vviews(body@) =~= Seq::<Seq<char>>::empty());
            },
            None => {
                if open {
                    let ghost bb = vviews(body@);
                    let line = copy_range(ls[i].as_slice(), 0, ls[i].len());
                    assert(line@ =~= ls@[i as int]@);
                    body.push(line);
                    assert(vviews(body@) =~= bb.push(lv[i as int]));
                }
            },
        }
        i = i + 1;
    }
    if open {
        let ghost before = flat_models(out@);
        let f = close_exec(level, &title, &body);
        out.push(f);
        assert(flat_models(out@) =~= before + seq![f@]);
    } else {
        assert(flat_models(out@) + Seq::<FlatModel>::empty() =~= flat_models(out@));
    }
    out
}

/// The section tree of a Markdown document: each heading line (`#` to
/// `######`) opens a section holding the trimmed text up to the next
/// heading, and deeper headings nest under shallower ones.
pub fn parse_markdown_sections(markdown: &str) -> (r: Vec<SectionNode>)
    ensures
        section_models(r@) == markdown_sections_spec(markdown@),
{
    let flat = markdown_headings(markdown);
    build_tree(flat)
}

// ------------------------------------------------------ section filtering

/// A character that a section number may hold after its first one: a
/// digit or a dot.
pub open spec fn is_number_char(c: char) -> bool {
    is_decimal(c) || c == '.'
}

/// The end of the run of section-number characters from `i`.
pub open spec fn number_len(s: Seq<char>, i: int) -> int
    decreases s.len() - i,
{
    if 0 <= i < s.len() && is_number_char(s[i]) {
        number_len(s, i + 1)
    } else {
        i
    }
}

/// A letter of a roman section number (`I`, `IV`, `XII`).
pub open spec fn is_roman_char(c: char) -> bool {
    c == 'i' || c == 'v' || c == 'x' || c == 'I' || c == 'V' || c == 'X'
}

/// The end of the run of roman-numeral letters from `i`.
pub open spec fn roman_len(s: Seq<char>, i: int) -> int
    decreases s.len() - i,
{
    if 0 <= i < s.len() && is_roman_char(s[i]) {
        roman_len(s, i + 1)
    } else {
        i
    }
}

/// The end of a leading section number, 0 when there is none: a digit, a
/// roman numeral (`iv`) or a single letter (`a`), then digits and dots
/// (`2`, `3.1.`, `iv.2`, `a.1`).
pub open spec fn number_end(s: Seq<char>) -> int {
    if s.len() == 0 {
        0
    } else if is_roman_char(s[0]) {
        number_len(s, roman_len(s, 1))
    } else if is_decimal(s[0]) || is_ascii_alpha(s[0]) {
        number_len(s, 1)
    } else {
        0
    }
}

/// `s` without a leading section number and the whitespace after it; the
/// number is only dropped when whitespace follows it directly, so that an
/// ordinary first word (`related work`) stays.
pub open spec fn strip_number(s: Seq<char>) -> Seq<char> {
    let c = number_end(s);
    if 1 <= c < s.len() && is_ws(s[c]) {
        s.subrange(skip_ws(s, c), s.len() as int)
    } else {
        s
    }
}

/// The form in which section titles are compared: trimmed, lowercased,
/// without a leading section number, whitespace runs made single spaces.
pub open spec fn normalized_title(title: Seq<char>) -> Seq<char> {
    normalize_ws(strip_number(lowercase(trim(title))))
}

pub fn normalize_section_title(title: &str) -> (r: String)
    ensures
        r@ == normalized_title(title@),
{
    let t = trim_str(title);
    let lower = to_lowercase(t.as_str());
    let l = chars_of(lower.as_str());
    let mut c: usize = 0;
    if l.len() > 0 {
        let r0 = l[0];
        let roman0 = r0 == 'i' || r0 == 'v' || r0 == 'x' || r0 == 'I' || r0 == 'V' || r0 == 'X';
        let alpha0 = ('a' <= r0 && r0 <= 'z') || ('A' <= r0 && r0 <= 'Z');
        if roman0 || is_decimal_digit(r0) || alpha0 {
            c = 1;
            if roman0 {
                while c < l.len() && (l[c] == 'i' || l[c] == 'v' || l[c] == 'x' || l[c] == 'I'
                    || l[c] == 'V' || l[c] == 'X')
                    invariant
                        1 <= c <= l.len(),
                        roman_len(l@, c as int) == roman_len(l@, 1),
                    decreases l.len() - c,
                {
                    c = c + 1;
                }
            }
            let ghost c0 = c;
            while c < l.len() && (is_decimal_digit(l[c]) || l[c] == '.')
                invariant
                    1 <= c0 <= c <= l.len(),
                    number_len(l@, c as int) == number_len(l@, c0 as int),
                decreases l.len() - c,
            {
                c = c + 1;
            }
        }
    }
    assert(c == number_end(l@));
    let stripped = if 1 <= c && c < l.len() && is_whitespace(l[c]) {
        let k = skip_ws_exec(l.as_slice(), c);
        proof {
            lemma_skip_ws(l@, c as int);
        }
        copy_range(l.as_slice(), k, l.len())
    } else {
        copy_range(l.as_slice(), 0, l.len())
    };
    assert(l@.subrange(0, l@.len() as int) =~= l@);
    let n = normalize_ws_chars(stripped.as_slice());
    string_of(n.as_slice())
}

/// A section kept by the filter, with its kept subsections.
pub open spec fn filter_node(n: SectionModel, sel: Seq<Seq<char>>, mode: SectionFilterMode) -> Option<
    SectionModel,
>
    decreases n, 1int,
{
    let matches = sel.contains(normalized_title(n.title));
    let children = filter_list(n.children, sel, mode);
    let kept = SectionModel {
        title: n.title,
        level: n.level,
        anchor: n.anchor,
        markdown: n.markdown,
        children,
    };
    match mode {
        SectionFilterMode::Include => if matches || children.len() > 0 {
            Some(kept)
        } else {
            None
        },
        SectionFilterMode::Exclude => if matches {
            None
        } else {
            Some(kept)
        },
    }
}

/// The sections of `ns` that the filter keeps, in order.
pub open spec fn filter_list(ns: Seq<SectionModel>, sel: Seq<Seq<char>>, mode: SectionFilterMode) -> Seq<
    SectionModel,
>
    decreases ns, 0int,
{
    if ns.len() == 0 {
        Seq::empty()
    } else {
        let rest = filter_list(ns.drop_first(), sel, mode);
        match filter_node(ns[0], sel, mode) {
            Some(k) => seq![k] + rest,
            None => rest,
        }
    }
}

/// Include mode keeps the sections whose normalized title is selected and
/// the sections above them; exclude mode drops the selected sections with
/// everything under them. No selection keeps everything.
pub open spec fn filter_spec(ns: Seq<SectionModel>, selected: Seq<Seq<char>>, mode: SectionFilterMode) -> Seq<
    SectionModel,
> {
    if selected.len() == 0 {
        ns
    } else {
        filter_list(ns, selected.map_values(|t: Seq<char>| normalized_title(t)), mode)
    }
}

fn contains_string(v: &Vec<String>, x: &String) -> (b: bool)
    ensures
        b == sviews(v@).contains(x@),
{
    let xv = chars_of(x.as_str());
    let mut i: usize = 0;
    while i < v.len()
        invariant
            i <= v.len(),
            xv@ == x@,
            forall|j: int| 0 <= j < i ==> sviews(v@)[j] != x@,
        decreases v.len() - i,
    {
        let yv = chars_of(v[i].as_str());
        if chars_eq(yv.as_slice(), xv.as_slice()) {
            assert(sviews(v@)[i as int] == x@);
            return true;
        }
        i = i + 1;
    }
    false
}

fn filter_nodes(ns: &Vec<SectionNode>, sel: &Vec<String>, mode: SectionFilterMode) -> (r: Vec<
    SectionNode,
>)
    ensures
        section_models(r@) == filter_list(section_models(ns@), sviews(sel@), mode),
    decreases ns, 0int,
{
    let ghost all = section_models(ns@);
    let ghost sv = sviews(sel@);
    let mut out: Vec<SectionNode> = Vec::new();
    let mut i: usize = 0;
    assert(all.subrange(0, all.len() as int) =~= all);
    assert(section_models(out@) =~= Seq::<SectionModel>::empty());
    assert(Seq::<SectionModel>::empty() + filter_list(all, sv, mode) =~= filter_list(all, sv, mode));
    while i < ns.len()
        invariant
            i <= ns.len(),
            all == section_models(ns@),
            sv == sviews(sel@),
            section_models(out@) + filter_list(all.subrange(i as int, all.len() as int), sv, mode)
                == filter_list(all, sv, mode),
        decreases ns.len() - i,
    {
        let ghost prev = section_models(out@);
        let r = filter_section(&ns[i], sel, mode);
        proof {
            let sub = all.subrange(i as int, all.len() as int);
            assert(sub[0] == ns@[i as int]@);
            assert(sub.drop_first() =~= all.subrange(i + 1, all.len() as int));
        }
        match r {
            Some(k) => {
                out.push(k);
                assert(section_models(out@) =~= prev.push(k@));
                assert(section_models(out@) + filter_list(
                    all.subrange(i + 1, all.len() as int),
                    sv,
                    mode,
                ) =~= prev + (seq![k@] + filter_list(all.subrange(i + 1, all.len() as int), sv, mode)));
            },
            None => {},
        }
        i = i + 1;
    }
    assert(all.subrange(0, all.len() as int) =~= all);
    assert(section_models(out@) + Seq::<SectionModel>::empty() =~= section_models(out@));
    out
}

/// The section kept by the filter, or `None`; `sel` holds normalized
/// titles.
pub fn filter_section(section: &SectionNode, sel: &Vec<String>, mode: SectionFilterMode) -> (r: Option<
    SectionNode,
>)
    ensures
        match r {
            Some(k) => filter_node(section@, sviews(sel@), mode) == Some(k@),
            None => filter_node(section@, sviews(sel@), mode) is None,
        },
    decreases section, 1int,
{
    let title = normalize_section_title(section.title.as_str());
    let matches = contains_string(sel, &title);
    let children = filter_nodes(&section.children, sel, mode);
    let keep = match mode {
        SectionFilterMode::Include => matches || children.len() > 0,
        SectionFilterMode::Exclude => !matches,
    };
    if keep {
        let kept = SectionNode {
            title: section.title.clone(),
            level: section.level,
            anchor: copy_opt_string(&section.anchor),
            markdown: section.markdown.clone(),
            children,
        };
        proof {
            let kids = filter_list(section@.children, sviews(sel@), mode);
            assert(section_models(section.children@) =~= section@.children) by {
                assert forall|k: int| 0 <= k < section.children@.len() implies section_models(
                    section.children@,
                )[k] == section@.children[k] by {}
            }
            assert(section_models(kept.children@) == kids);
            assert forall|k: int| 0 <= k < kids.len() implies kept@.children[k] == kids[k] by {
                assert(section_models(kept.children@)[k] == kept.children@[k]@);
            }
            assert(kept@.children.len() == kids.len());
            assert(kept@.children =~= kids);
        }
        Some(kept)
    } else {
        proof {
            assert(section_models(section.children@) =~= section@.children) by {
                assert forall|k: int| 0 <= k < section.children@.len() implies section_models(
                    section.children@,
                )[k] == section@.children[k] by {}
            }
        }
        None
    }
}

/// Keeps or drops sections by title: see `filter_spec`.
pub fn filter_sections(sections: &Vec<SectionNode>, selected: &Vec<String>, mode: SectionFilterMode) -> (r: Vec<
    SectionNode,
>)
    ensures
        section_models(r@) == filter_spec(section_models(sections@), sviews(selected@), mode),
{
    let mut titles: Vec<String> = Vec::new();
    let mut i: usize = 0;
    while i < selected.len()
        invariant
            i <= selected.len(),
            sviews(titles@) == sviews(selected@).take(i as int).map_values(
                |t: Seq<char>| normalized_title(t),
            ),
        decreases selected.len() - i,
    {
        let ghost before = sviews(titles@);
        let t = normalize_section_title(selected[i].as_str());
        titles.push(t);
        assert(sviews(titles@) =~= before.push(t@));
        i = i + 1;
        assert(sviews(selected@).take(i as int).map_values(|t: Seq<char>| normalized_title(t))
            =~= sviews(selected@).take(i - 1).map_values(|t: Seq<char>| normalized_title(t)).push(
            normalized_title(sviews(selected@)[i - 1]),
        ));
    }
    assert(sviews(selected@).take(selected.len() as int) =~= sviews(selected@));
    if titles.len() == 0 {
        return copy_sections(sections);
    }
    filter_nodes(sections, &titles, mode)
}

// ---------------------------------------------------------------- rendering

pub open spec fn clamp_level(l: u8) -> nat {
    if l < 2 {
        2
    } else if l > 6 {
        6
    } else {
        l as nat
    }
}

/// The Markdown heading of a section, at level 2 to 6.
pub open spec fn heading_line(n: SectionModel) -> Seq<char> {
    repeat(seq!['#'], clamp_level(n.level)) + seq![' '] + trim(n.title)
}

/// The blocks of a section: its heading, its text when there is any, then
/// the blocks of its subsections.
pub open spec fn section_blocks(n: SectionModel) -> Seq<Seq<char>>
    decreases n, 1int,
{
    seq![heading_line(n)] + (if trim(n.markdown).len() > 0 {
        seq![trim(n.markdown)]
    } else {
        Seq::empty()
    }) + blocks_list(n.children)
}

pub open spec fn blocks_list(ns: Seq<SectionModel>) -> Seq<Seq<char>>
    decreases ns, 0int,
{
    if ns.len() == 0 {
        Seq::empty()
    } else {
        section_blocks(ns[0]) + blocks_list(ns.drop_first())
    }
}

/// The outline entry of a section.
pub open spec fn toc_entry(n: SectionModel, indent: nat) -> Seq<char> {
    repeat(seq![' ', ' '], indent) + seq!['-', ' '] + n.title
}

/// An outline of sections: one `- title` line each, indented two spaces per
/// level of nesting.
pub open spec fn toc_text(ns: Seq<SectionModel>, indent: nat) -> Seq<char>
    decreases ns, 1int,
{
    join(toc_lines(ns, indent), seq!['\n'])
}

pub open spec fn toc_lines(ns: Seq<SectionModel>, indent: nat) -> Seq<Seq<char>>
    decreases ns, 0int,
{
    if ns.len() == 0 {
        Seq::empty()
    } else {
        let nested = toc_text(ns[0].children, indent + 1);
        seq![toc_entry(ns[0], indent)] + (if nested.len() > 0 {
            seq![nested]
        } else {
            Seq::empty()
        }) + toc_lines(ns.drop_first(), indent)
    }
}

proof fn lemma_models_view(v: Seq<SectionNode>)
    ensures
        forall|k: int| 0 <= k < v.len() ==> #[trigger] section_models(v)[k] == v[k]@,
        section_models(v).len() == v.len(),
{
}

proof fn lemma_children_models(n: SectionNode)
    ensures
        section_models(n.children@) == n@.children,
{
    lemma_models_view(n.children@);
    assert(section_models(n.children@) =~= n@.children);
}

fn extend_strings(out: &mut Vec<String>, more: Vec<String>)
    ensures
        sviews(final(out)@) == sviews(old(out)@) + sviews(more@),
{
    let mut i: usize = 0;
    while i < more.len()
        invariant
            i <= more.len(),
            sviews(out@) == sviews(old(out)@) + sviews(more@).take(i as int),
        decreases more.len() - i,
    {
        push_string(out, more[i].clone());
        i = i + 1;
        assert(sviews(old(out)@) + sviews(more@).take(i as int) =~= sviews(old(out)@) + sviews(
            more@,
        ).take(i - 1).push(sviews(more@)[i - 1]));
    }
    assert(sviews(more@).take(more.len() as int) =~= sviews(more@));
}

/// The Markdown blocks of a section and its subsections.
pub fn render_section(section: &SectionNode) -> (r: Vec<String>)
    ensures
        sviews(r@) == section_blocks(section@),
    decreases section,
{
    let mut blocks: Vec<String> = Vec::new();
    let level: u8 = if section.level < 2 {
        2
    } else if section.level > 6 {
        6
    } else {
        section.level
    };
    let mut head: Vec<char> = Vec::new();
    let hash = vec!['#'];
    assert(hash@ =~= seq!['#']);
    assert(level as nat == clamp_level(section@.level));
    push_repeat(&mut head, hash.as_slice(), level as usize);
    head.push(' ');
    let title = chars_of(section.title.as_str());
    let tt = trim_chars(title.as_slice());
    push_all(&mut head, tt.as_slice());
    assert(head@ =~= heading_line(section@));
    push_string(&mut blocks, string_of(head.as_slice()));
    let md = chars_of(section.markdown.as_str());
    let tm = trim_chars(md.as_slice());
    if tm.len() > 0 {
        push_string(&mut blocks, string_of(tm.as_slice()));
    }
    let ghost first = sviews(blocks@);
    assert(first == seq![heading_line(section@)] + (if trim(section@.markdown).len() > 0 {
        seq![trim(section@.markdown)]
    } else {
        Seq::empty()
    }));
    let ghost kids = section@.children;
    proof {
        lemma_children_models(*section);
    }
    let mut i: usize = 0;
    assert(kids.subrange(0, kids.len() as int) =~= kids);
    while i < section.children.len()
        invariant
            i <= section.children.len(),
            kids == section_models(section.children@),
            sviews(blocks@) + blocks_list(kids.subrange(i as int, kids.len() as int)) == first
                + blocks_list(kids),
        decreases section.children.len() - i,
    {
        let ghost prev = sviews(blocks@);
        let child = render_section(&section.children[i]);
        extend_strings(&mut blocks, child);
        proof {
            let sub = kids.subrange(i as int, kids.len() as int);
            assert(sub[0] == section.children@[i as int]@);
            assert(sub.drop_first() =~= kids.subrange(i + 1, kids.len() as int));
            assert(sviews(blocks@) + blocks_list(kids.subrange(i + 1, kids.len() as int))
                =~= prev + blocks_list(sub));
        }
        i = i + 1;
    }
    assert(sviews(blocks@) + Seq::<Seq<char>>::empty() =~= sviews(blocks@));
    blocks
}

fn toc_with_prefix(sections: &Vec<SectionNode>, prefix: &Vec<char>, Ghost(indent): Ghost<nat>) -> (r: Vec<
    char,
>)
    requires
        prefix@ == repeat(seq![' ', ' '], indent),
    ensures
        r@ == toc_text(section_models(sections@), indent),
    decreases sections,
{
    let ghost all = section_models(sections@);
    let mut lines: Vec<Vec<char>> = Vec::new();
    let mut child_prefix = copy_range(prefix.as_slice(), 0, prefix.len());
    child_prefix.push(' ');
    child_prefix.push(' ');
    assert(child_prefix@ =~= repeat(seq![' ', ' '], indent + 1)) by {
        assert(prefix@.subrange(0, prefix@.len() as int) =~= prefix@);
    }
    proof {
        lemma_models_view(sections@);
    }
    let mut i: usize = 0;
    assert(all.subrange(0, all.len() as int) =~= all);
    assert(vviews(lines@) + toc_lines(all, indent) =~= toc_lines(all, indent));
    while i < sections.len()
        invariant
            i <= sections.len(),
            all == section_models(sections@),
            prefix@ == repeat(seq![' ', ' '], indent),
            child_prefix@ == repeat(seq![' ', ' '], indent + 1),
            vviews(lines@) + toc_lines(all.subrange(i as int, all.len() as int), indent)
                == toc_lines(all, indent),
        decreases sections.len() - i,
    {
        let ghost prev = vviews(lines@);
        let node = &sections[i];
        let mut entry = copy_range(prefix.as_slice(), 0, prefix.len());
        entry.push('-');
        entry.push(' ');
        let t = chars_of(node.title.as_str());
        push_all(&mut entry, t.as_slice());
        assert(entry@ =~= toc_entry(node@, indent)) by {
            assert(prefix@.subrange(0, prefix@.len() as int) =~= prefix@);
        }
        lines.push(entry);
        proof {
            lemma_children_models(*node);
        }
        let nested = toc_with_prefix(&node.children, &child_prefix, Ghost(indent + 1));
        let nonempty = nested.len() > 0;
        if nonempty {
            lines.push(nested);
        }
        proof {
            let sub = all.subrange(i as int, all.len() as int);
            assert(sub[0] == node@);
            assert(sub.drop_first() =~= all.subrange(i + 1, all.len() as int));
            let n = toc_text(node@.children, indent + 1);
            if nonempty {
                assert(vviews(lines@) =~= prev + seq![toc_entry(node@, indent)] + seq![n]);
            } else {
                assert(vviews(lines@) =~= prev + seq![toc_entry(node@, indent)]);
            }
            assert(vviews(lines@) + toc_lines(all.subrange(i + 1, all.len() as int), indent)
                =~= prev + toc_lines(sub, indent));
        }
        i = i + 1;
    }
    assert(vviews(lines@) + Seq::<Seq<char>>::empty() =~= vviews(lines@));
    let nl = vec!['\n'];
    assert(nl@ =~= seq!['\n']);
    join_exec(&lines, nl.as_slice())
}

/// An outline of the sections, indented by `indent` levels.
pub fn render_toc(sections: &Vec<SectionNode>, indent: usize) -> (r: String)
    ensures
        r@ == toc_text(section_models(sections@), indent as nat),
{
    let mut prefix: Vec<char> = Vec::new();
    let two = vec![' ', ' '];
    push_repeat(&mut prefix, two.as_slice(), indent);
    assert(two@ =~= seq![' ', ' ']);
    assert(prefix@ =~= repeat(seq![' ', ' '], indent as nat));
    let t = toc_with_prefix(sections, &prefix, Ghost(indent as nat));
    string_of(t.as_slice())
}

/// The section tree shown with `--include-tree`: the same outline.
pub fn render_tree(sections: &Vec<SectionNode>, indent: usize) -> (r: String)
    ensures
        r@ == toc_text(section_models(sections@), indent as nat),
{
    render_toc(sections, indent)
}

// ------------------------------------------------------------ frontmatter

/// A value written in the frontmatter: a text, nothing (YAML `null`), or a
/// list of texts.
#[derive(Debug)]
pub enum YamlValue {
    Text(String),
    Null,
    List(Vec<String>),
}

pub ghost enum YamlModel {
    Text(Seq<char>),
    Null,
    List(Seq<Seq<char>>),
}

pub open spec fn yaml_model(v: YamlValue) -> YamlModel {
    match v {
        YamlValue::Text(t) => YamlModel::Text(t@),
        YamlValue::Null => YamlModel::Null,
        YamlValue::List(l) => YamlModel::List(sviews(l@)),
    }
}

/// The keys and values of a mapping, by their views.
pub open spec fn entries_model(e: Seq<(String, YamlValue)>) -> Seq<(Seq<char>, YamlModel)> {
    e.map_values(|kv: (String, YamlValue)| (kv.0@, yaml_model(kv.1)))
}

/// The name of what `serde_yaml::to_string` gives for a mapping of these
/// keys to these values, in this order, or of the text of its error.
pub uninterp spec fn yaml_text(entries: Seq<(Seq<char>, YamlModel)>) -> Result<Seq<char>, Seq<char>>;

/// Serializes a mapping with `serde_yaml::to_string`: each key as a YAML
/// string, each value as a string, `null` or a sequence of strings, in the
/// order given; an error is turned into its text.
#[verifier::external_body]
fn yaml_mapping(entries: &Vec<(String, YamlValue)>) -> (r: Result<String, String>)
    ensures
        match r {
            Ok(t) => yaml_text(entries_model(entries@)) == Ok::<Seq<char>, Seq<char>>(t@),
            Err(m) => yaml_text(entries_model(entries@)) == Err::<Seq<char>, Seq<char>>(m@),
        },
{
    let map: serde_yaml::Mapping = entries.iter().map(|(k, v)| (Value::String(k.clone()), match v {
        YamlValue::Text(t) => Value::String(t.clone()),
        YamlValue::Null => Value::Null,
        YamlValue::List(l) => Value::Sequence(l.iter().map(|x| Value::String(x.clone())).collect()),
    })).collect();
    serde_yaml::to_string(&map).map_err(|e| e.to_string())
}

/// The name under which a representation is written (snake case).
pub open spec fn via_name(v: ResolvedVia) -> Seq<char> {
    match v {
        ResolvedVia::ArxivHtml => "arxiv_html"@,
        ResolvedVia::Ar5iv => "ar5iv"@,
        ResolvedVia::LatexSource => "latex_source"@,
        ResolvedVia::Pdf => "pdf"@,
    }
}

pub fn resolved_via_name(v: ResolvedVia) -> (r: String)
    ensures
        r@ == via_name(v),
{
    match v {
        ResolvedVia::ArxivHtml => String::from_str("arxiv_html"),
        ResolvedVia::Ar5iv => String::from_str("ar5iv"),
        ResolvedVia::LatexSource => String::from_str("latex_source"),
        ResolvedVia::Pdf => String::from_str("pdf"),
    }
}

pub open spec fn frontmatter_model(id: ArxivId, m: MetadataModel, via: ResolvedVia) -> FrontmatterModel {
    FrontmatterModel {
        title: m.title,
        arxiv_id: id.normalized@,
        version: opt_view(id.version),
        authors: m.authors,
        abstract_text: m.abstract_text,
        categories: m.categories,
        published: m.published,
        updated: m.updated,
        abs_url: id.abs_url@,
        resolved_via: via_name(via),
    }
}

/// Serialized YAML framed by `---` lines, without trailing whitespace.
pub open spec fn finish_yaml(y: Seq<char>) -> Seq<char> {
    trim_end(
        if starts_with(y, "---"@) {
            y
        } else {
            "---\n"@ + trim_end(y) + "\n---"@
        },
    )
}

pub open spec fn opt_yaml(o: Option<Seq<char>>) -> YamlModel {
    match o {
        Some(t) => YamlModel::Text(t),
        None => YamlModel::Null,
    }
}

/// The frontmatter as a YAML mapping: its fields in declaration order, each
/// under its own name but the abstract, which goes under `abstract`.
pub open spec fn frontmatter_entries(fm: FrontmatterModel) -> Seq<(Seq<char>, YamlModel)> {
    seq![
        ("title"@, opt_yaml(fm.title)),
        ("arxiv_id"@, YamlModel::Text(fm.arxiv_id)),
        ("version"@, opt_yaml(fm.version)),
        ("authors"@, YamlModel::List(fm.authors)),
        ("abstract"@, opt_yaml(fm.abstract_text)),
        ("categories"@, YamlModel::List(fm.categories)),
        ("published"@, opt_yaml(fm.published)),
        ("updated"@, opt_yaml(fm.updated)),
        ("abs_url"@, YamlModel::Text(fm.abs_url)),
        ("resolved_via"@, YamlModel::Text(fm.resolved_via)),
    ]
}

/// The frontmatter block, or the text of the serialization error.
pub open spec fn frontmatter_outcome(id: ArxivId, m: MetadataModel, via: ResolvedVia) -> Result<
    Seq<char>,
    Seq<char>,
> {
    match yaml_text(frontmatter_entries(frontmatter_model(id, m, via))) {
        Ok(y) => Ok(finish_yaml(y)),
        Err(e) => Err(e),
    }
}

/// The frontmatter block, `None` when serialization fails.
pub open spec fn frontmatter_spec(id: ArxivId, m: MetadataModel, via: ResolvedVia) -> Option<
    Seq<char>,
> {
    match frontmatter_outcome(id, m, via) {
        Ok(y) => Some(y),
        Err(_) => None,
    }
}

fn opt_yaml_exec(o: &Option<String>) -> (r: YamlValue)
    ensures
        yaml_model(r) == opt_yaml(opt_view(*o)),
{
    match o {
        Some(t) => YamlValue::Text(t.clone()),
        None => YamlValue::Null,
    }
}

fn push_entry(v: &mut Vec<(String, YamlValue)>, key: &str, value: YamlValue)
    ensures
        entries_model(final(v)@) == entries_model(old(v)@).push((key@, yaml_model(value))),
{
    let ghost before = entries_model(v@);
    let k = String::from_str(key);
    let ghost kv = (k@, yaml_model(value));
    v.push((k, value));
    assert(entries_model(v@) =~= before.push(kv));
}

/// `frontmatter_entries`.
fn frontmatter_entries_exec(fm: &Frontmatter) -> (r: Vec<(String, YamlValue)>)
    ensures
        entries_model(r@) == frontmatter_entries(fm@),
{
    let mut v: Vec<(String, YamlValue)> = Vec::new();
    assert(entries_model(v@) =~= Seq::<(Seq<char>, YamlModel)>::empty());
    push_entry(&mut v, "title", opt_yaml_exec(&fm.title));
    push_entry(&mut v, "arxiv_id", YamlValue::Text(fm.arxiv_id.clone()));
    push_entry(&mut v, "version", opt_yaml_exec(&fm.version));
    push_entry(&mut v, "authors", YamlValue::List(copy_strings(&fm.authors)));
    push_entry(&mut v, "abstract", opt_yaml_exec(&fm.abstract_text));
    push_entry(&mut v, "categories", YamlValue::List(copy_strings(&fm.categories)));
    push_entry(&mut v, "published", opt_yaml_exec(&fm.published));
    push_entry(&mut v, "updated", opt_yaml_exec(&fm.updated));
    push_entry(&mut v, "abs_url", YamlValue::Text(fm.abs_url.clone()));
    push_entry(&mut v, "resolved_via", YamlValue::Text(fm.resolved_via.clone()));
    assert(entries_model(v@) =~= frontmatter_entries(fm@));
    v
}

/// Frames serialized YAML with `---` lines unless it starts with one, and
/// drops trailing whitespace.
pub fn finish_frontmatter(yaml: String) -> (r: String)
    ensures
        r@ == finish_yaml(yaml@),
{
    let y = chars_of(yaml.as_str());
    let dashes = chars_of("---");
    let framed = if starts_with_exec(y.as_slice(), dashes.as_slice()) {
        y
    } else {
        let mut f = chars_of("---\n");
        let t = trim_end_chars(y.as_slice());
        push_all(&mut f, t.as_slice());
        let close = chars_of("\n---");
        push_all(&mut f, close.as_slice());
        f
    };
    let r = trim_end_chars(framed.as_slice());
    string_of(r.as_slice())
}

/// The YAML frontmatter of a paper.
pub fn generate_frontmatter(id: &ArxivId, metadata: &PaperMetadata, resolved_via: ResolvedVia) -> (r: Result<
    String,
    Arxiv2MdError,
>)
    ensures
        match frontmatter_outcome(*id, metadata@, resolved_via) {
            Ok(y) => r matches Ok(t) && t@ == y,
            Err(msg) => r matches Err(Arxiv2MdError::Markdown(m)) && m@ == msg,
        },
{
    let fm = Frontmatter {
        title: copy_opt_string(&metadata.title),
        arxiv_id: id.normalized.clone(),
        version: copy_opt_string(&id.version),
        authors: copy_strings(&metadata.authors),
        abstract_text: copy_opt_string(&metadata.abstract_text),
        categories: copy_strings(&metadata.categories),
        published: copy_opt_string(&metadata.published),
        updated: copy_opt_string(&metadata.updated),
        abs_url: id.abs_url.clone(),
        resolved_via: resolved_via_name(resolved_via),
    };
    assert(fm@ == frontmatter_model(*id, metadata@, resolved_via));
    let entries = frontmatter_entries_exec(&fm);
    match yaml_mapping(&entries) {
        Ok(yaml) => Ok(finish_frontmatter(yaml)),
        Err(message) => Err(Arxiv2MdError::Markdown(message)),
    }
}

// -------------------------------------------------------------- documents

/// The abstract is rendered: the section selection, where it applies,
/// keeps a section titled `Abstract` (compared in normalized form).
pub open spec fn abstract_shown(options: CliOptions, supports_tree: bool) -> bool {
    if options.sections.len() > 0 && supports_tree {
        let hit = sviews(options.sections@).map_values(|t: Seq<char>| normalized_title(t)).contains(
            normalized_title("Abstract"@),
        );
        match options.section_filter_mode {
            SectionFilterMode::Include => hit,
            SectionFilterMode::Exclude => !hit,
        }
    } else {
        true
    }
}

/// `abstract_shown`.
pub fn abstract_selected(options: &CliOptions, supports_tree: bool) -> (b: bool)
    ensures
        b == abstract_shown(*options, supports_tree),
{
    if options.sections.len() == 0 || !supports_tree {
        return true;
    }
    let ghost sel = sviews(options.sections@).map_values(|t: Seq<char>| normalized_title(t));
    let target = normalize_section_title("Abstract");
    let tv = chars_of(target.as_str());
    let mut hit = false;
    let mut i: usize = 0;
    while i < options.sections.len()
        invariant
            i <= options.sections.len(),
            sel == sviews(options.sections@).map_values(|t: Seq<char>| normalized_title(t)),
            sel.len() == options.sections@.len(),
            tv@ == normalized_title("Abstract"@),
            hit == (exists|j: int| 0 <= j < i && sel[j] == tv@),
        decreases options.sections.len() - i,
    {
        let n = normalize_section_title(options.sections[i].as_str());
        let nv = chars_of(n.as_str());
        assert(sel[i as int] == normalized_title(options.sections@[i as int]@));
        if chars_eq(nv.as_slice(), tv.as_slice()) {
            hit = true;
        }
        i = i + 1;
    }
    proof {
        if hit {
            let j = choose|j: int| 0 <= j < i && sel[j] == tv@;
            assert(sel.contains(tv@));
        }
        if sel.contains(tv@) {
            let j = choose|j: int| 0 <= j < sel.len() && sel[j] == tv@;
            assert(0 <= j < i && sel[j] == tv@);
        }
    }
    match options.section_filter_mode {
        SectionFilterMode::Include => hit,
        SectionFilterMode::Exclude => !hit,
    }
}

/// The metadata a rendering shows: without the abstract when the section
/// selection drops it.
pub open spec fn shown_metadata(m: MetadataModel, show_abstract: bool) -> MetadataModel {
    if show_abstract {
        m
    } else {
        MetadataModel { abstract_text: None, ..m }
    }
}

fn metadata_shown(m: &PaperMetadata, show_abstract: bool) -> (r: PaperMetadata)
    ensures
        r@ == shown_metadata(m@, show_abstract),
{
    let mut r = copy_metadata(m);
    if !show_abstract {
        r.abstract_text = None;
    }
    r
}

/// The title block, and the abstract blocks when `show_abstract`.
pub open spec fn head_blocks(m: MetadataModel, show_abstract: bool) -> Seq<Seq<char>> {
    (match m.title {
        Some(t) => seq!["# "@ + t],
        None => Seq::empty(),
    }) + (match m.abstract_text {
        Some(a) => if show_abstract {
            seq!["## Abstract"@, trim(a)]
        } else {
            Seq::empty()
        },
        None => Seq::empty(),
    })
}

/// A labelled outline block, present when the outline is not empty.
pub open spec fn outline_blocks(on: bool, label: Seq<char>, text: Seq<char>) -> Seq<Seq<char>> {
    if on && text.len() > 0 {
        seq![label, text]
    } else {
        Seq::empty()
    }
}

/// The Markdown of a paper with a section tree; `None` when the frontmatter
/// cannot be serialized.
pub open spec fn sectioned_spec(
    id: ArxivId,
    options: CliOptions,
    m: MetadataModel,
    sections: Seq<SectionModel>,
    supports_tree: bool,
    via: ResolvedVia,
) -> Option<Seq<char>> {
    let fm = frontmatter_spec(id, shown_metadata(m, abstract_shown(options, supports_tree)), via);
    if options.frontmatter && fm is None {
        None
    } else {
        let blocks = (if options.frontmatter {
            seq![fm->0]
        } else {
            Seq::empty()
        }) + head_blocks(m, abstract_shown(options, supports_tree)) + outline_blocks(
            options.keep_toc && supports_tree,
            "## Contents"@,
            toc_text(sections, 0),
        ) + outline_blocks(
            options.include_tree && supports_tree,
            "## Sections"@,
            toc_text(sections, 0),
        ) + blocks_list(sections);
        Some(collapse_spec(join(blocks, "\n\n"@)))
    }
}

/// The Markdown of a paper given as one body of text; a frontmatter that
/// cannot be serialized is left out.
pub open spec fn fallback_spec(
    id: ArxivId,
    options: CliOptions,
    m: MetadataModel,
    body: Seq<char>,
    supports_tree: bool,
    via: ResolvedVia,
) -> Seq<char> {
    let fm = frontmatter_spec(id, shown_metadata(m, abstract_shown(options, supports_tree)), via);
    let blocks = (if options.frontmatter && fm is Some {
        seq![fm->0]
    } else {
        Seq::empty()
    }) + head_blocks(m, abstract_shown(options, supports_tree)) + seq![trim(body)];
    collapse_spec(join(blocks, "\n\n"@))
}

fn push_head_blocks(blocks: &mut Vec<String>, metadata: &PaperMetadata, show_abstract: bool)
    ensures
        sviews(final(blocks)@) == sviews(old(blocks)@) + head_blocks(metadata@, show_abstract),
{
    let ghost start = sviews(blocks@);
    match &metadata.title {
        Some(title) => {
            let mut h = String::from_str("# ");
            h.append(title.as_str());
            push_string(blocks, h);
        },
        None => {},
    }
    let ghost mid = sviews(blocks@);
    match &metadata.abstract_text {
        Some(a) => {
            if show_abstract {
                push_string(blocks, String::from_str("## Abstract"));
                push_string(blocks, trim_str(a.as_str()));
            }
        },
        None => {},
    }
    assert(sviews(blocks@) =~= start + head_blocks(metadata@, show_abstract));
}

fn render_sectioned_document(
    id: &ArxivId,
    options: &CliOptions,
    metadata: &PaperMetadata,
    sections: &Vec<SectionNode>,
    supports_tree: bool,
    resolved_via: ResolvedVia,
) -> (r: Result<String, Arxiv2MdError>)
    ensures
        match r {
            Ok(t) => sectioned_spec(
                *id,
                *options,
                metadata@,
                section_models(sections@),
                supports_tree,
                resolved_via,
            ) == Some(t@),
            Err(e) => sectioned_spec(
                *id,
                *options,
                metadata@,
                section_models(sections@),
                supports_tree,
                resolved_via,
            ) is None && (e matches Arxiv2MdError::Markdown(m) && frontmatter_outcome(
                *id,
                shown_metadata(metadata@, abstract_shown(*options, supports_tree)),
                resolved_via,
            ) == Err::<Seq<char>, Seq<char>>(m@)),
        },
{
    let ghost ms = section_models(sections@);
    let show = abstract_selected(options, supports_tree);
    let shown = metadata_shown(metadata, show);
    let mut blocks: Vec<String> = Vec::new();
    if options.frontmatter {
        let fm = generate_frontmatter(id, &shown, resolved_via)?;
        push_string(&mut blocks, fm);
    }
    let ghost b0 = sviews(blocks@);
    let ghost fm = frontmatter_spec(*id, shown@, resolved_via);
    assert(b0 =~= (if options.frontmatter {
        seq![fm->0]
    } else {
        Seq::empty()
    }));
    push_head_blocks(&mut blocks, metadata, show);
    let ghost b1 = sviews(blocks@);
    if options.keep_toc && supports_tree {
        let toc = render_toc(sections, 0);
        let tv = chars_of(toc.as_str());
        if tv.len() > 0 {
            push_string(&mut blocks, String::from_str("## Contents"));
            push_string(&mut blocks, toc);
        }
    }
    let ghost b2 = sviews(blocks@);
    assert(b2 == b1 + outline_blocks(options.keep_toc && supports_tree, "## Contents"@, toc_text(ms, 0)));
    if options.include_tree && supports_tree {
        let tree = render_tree(sections, 0);
        let tv = chars_of(tree.as_str());
        if tv.len() > 0 {
            push_string(&mut blocks, String::from_str("## Sections"));
            push_string(&mut blocks, tree);
        }
    }
    let ghost b3 = sviews(blocks@);
    assert(b3 == b2 + outline_blocks(options.include_tree && supports_tree, "## Sections"@, toc_text(ms, 0)));
    let mut i: usize = 0;
    proof {
        lemma_models_view(sections@);
    }
    assert(ms.subrange(0, ms.len() as int) =~= ms);
    while i < sections.len()
        invariant
            i <= sections.len(),
            ms == section_models(sections@),
            sviews(blocks@) + blocks_list(ms.subrange(i as int, ms.len() as int)) == b3
                + blocks_list(ms),
        decreases sections.len() - i,
    {
        let ghost prev = sviews(blocks@);
        let more = render_section(&sections[i]);
        extend_strings(&mut blocks, more);
        proof {
            let sub = ms.subrange(i as int, ms.len() as int);
            assert(sub[0] == sections@[i as int]@);
            assert(sub.drop_first() =~= ms.subrange(i + 1, ms.len() as int));
            assert(sviews(blocks@) + blocks_list(ms.subrange(i + 1, ms.len() as int)) =~= prev
                + blocks_list(sub));
        }
        i = i + 1;
    }
    assert(sviews(blocks@) + Seq::<Seq<char>>::empty() =~= sviews(blocks@));
    assert(sviews(blocks@) =~= b0 + head_blocks(metadata@, abstract_shown(*options, supports_tree)) + outline_blocks(
        options.keep_toc && supports_tree,
        "## Contents"@,
        toc_text(ms, 0),
    ) + outline_blocks(options.include_tree && supports_tree, "## Sections"@, toc_text(ms, 0))
        + blocks_list(ms));
    let joined = join_strings(&blocks, "\n\n");
    Ok(collapse_blank_lines(joined.as_str()))
}

fn render_fallback_document(
    id: &ArxivId,
    options: &CliOptions,
    metadata: &PaperMetadata,
    body: &str,
    supports_tree: bool,
    resolved_via: ResolvedVia,
) -> (r: String)
    ensures
        r@ == fallback_spec(*id, *options, metadata@, body@, supports_tree, resolved_via),
{
    let show = abstract_selected(options, supports_tree);
    let shown = metadata_shown(metadata, show);
    let mut blocks: Vec<String> = Vec::new();
    if options.frontmatter {
        match generate_frontmatter(id, &shown, resolved_via) {
            Ok(fm) => push_string(&mut blocks, fm),
            Err(_) => {},
        }
    }
    let ghost fm = frontmatter_spec(*id, shown@, resolved_via);
    assert(sviews(blocks@) =~= (if options.frontmatter && fm is Some {
        seq![fm->0]
    } else {
        Seq::empty()
    }));
    push_head_blocks(&mut blocks, metadata, show);
    push_string(&mut blocks, trim_str(body));
    assert(sviews(blocks@) =~= (if options.frontmatter && fm is Some {
        seq![fm->0]
    } else {
        Seq::empty()
    }) + head_blocks(metadata@, show) + seq![trim(body@)]);
    let joined = join_strings(&blocks, "\n\n");
    collapse_blank_lines(joined.as_str())
}

/// The section titles dropped unless references are kept.
pub open spec fn reference_titles() -> Seq<Seq<char>> {
    seq!["references"@, "bibliography"@]
}

/// The sections that are rendered: references dropped unless kept, then
/// the selected sections where the document has a tree.
pub open spec fn rendered_sections(options: CliOptions, doc: DocumentModel) -> Seq<SectionModel> {
    let all = doc.sections;
    let s1 = if !options.keep_refs {
        filter_spec(all, reference_titles(), SectionFilterMode::Exclude)
    } else {
        all
    };
    if options.sections.len() > 0 && doc.supports_tree {
        filter_spec(s1, sviews(options.sections@), options.section_filter_mode)
    } else {
        s1
    }
}

/// The Markdown of a document; `None` when its frontmatter cannot be
/// serialized.
pub open spec fn render_spec(id: ArxivId, options: CliOptions, doc: DocumentModel) -> Option<
    Seq<char>,
> {
    match doc.fallback_markdown {
        Some(body) => Some(
            fallback_spec(id, options, doc.metadata, body, doc.supports_tree, doc.resolved_via),
        ),
        None => sectioned_spec(
            id,
            options,
            doc.metadata,
            rendered_sections(options, doc),
            doc.supports_tree,
            doc.resolved_via,
        ),
    }
}

/// The text of the error a rendering fails with: that of the frontmatter's
/// serialization, for a sectioned document with frontmatter.
pub open spec fn render_failure(id: ArxivId, options: CliOptions, doc: DocumentModel) -> Option<
    Seq<char>,
> {
    if doc.fallback_markdown is None && options.frontmatter {
        match frontmatter_outcome(
            id,
            shown_metadata(doc.metadata, abstract_shown(options, doc.supports_tree)),
            doc.resolved_via,
        ) {
            Err(m) => Some(m),
            Ok(_) => None,
        }
    } else {
        None
    }
}

/// Renders a document as Markdown: optional frontmatter, title, abstract,
/// optional outline and section tree, then the sections (references and
/// unselected sections filtered out) or the document's text.
pub fn render(id: &ArxivId, options: &CliOptions, document: PaperDocument, warnings: Vec<String>) -> (r: Result<
    ConversionOutput,
    Arxiv2MdError,
>)
    ensures
        match r {
            Ok(out) => render_spec(*id, *options, document@) == Some(out.markdown@) && sviews(
                out.warnings@,
            ) == sviews(warnings@),
            Err(e) => render_spec(*id, *options, document@) is None && (e matches Arxiv2MdError::Markdown(
                m,
            ) && render_failure(*id, *options, document@) == Some(m@)),
        },
{
    let mut sections = copy_sections(&document.sections);
    if !options.keep_refs {
        let mut refs: Vec<String> = Vec::new();
        push_string(&mut refs, String::from_str("references"));
        push_string(&mut refs, String::from_str("bibliography"));
        assert(sviews(refs@) =~= reference_titles());
        sections = filter_sections(&sections, &refs, SectionFilterMode::Exclude);
    }
    if options.sections.len() > 0 && document.supports_tree {
        sections = filter_sections(&sections, &options.sections, options.section_filter_mode);
    }
    assert(section_models(sections@) == rendered_sections(*options, document@));
    let markdown = match &document.fallback_markdown {
        Some(body) => render_fallback_document(
            id,
            options,
            &document.metadata,
            body.as_str(),
            document.supports_tree,
            document.resolved_via,
        ),
        None => render_sectioned_document(
            id,
            options,
            &document.metadata,
            &sections,
            document.supports_tree,
            document.resolved_via,
        )?,
    };
    Ok(ConversionOutput { markdown, warnings })
}
} // verus!


verus! {

// ------------------------------------------------------------------- laws

/// No section of the forest, at any depth, has a normalized title in `sel`.
pub open spec fn no_title_in(ns: Seq<SectionModel>, sel: Seq<Seq<char>>) -> bool
    decreases ns,
{
    ns.len() == 0 || {
        &&& !sel.contains(normalized_title(ns[0].title))
        &&& no_title_in(ns[0].children, sel)
        &&& no_title_in(ns.drop_first(), sel)
    }
}

/// Every section of the forest, at any depth, is selected or has
/// subsections.
pub open spec fn selected_or_parent(ns: Seq<SectionModel>, sel: Seq<Seq<char>>) -> bool
    decreases ns,
{
    ns.len() == 0 || {
        &&& (sel.contains(normalized_title(ns[0].title)) || ns[0].children.len() > 0)
        &&& selected_or_parent(ns[0].children, sel)
        &&& selected_or_parent(ns.drop_first(), sel)
    }
}

proof fn lemma_filter_list_props(
    ns: Seq<SectionModel>,
    sel: Seq<Seq<char>>,
    mode: SectionFilterMode,
    avoid: Seq<Seq<char>>,
)
    ensures
        mode == SectionFilterMode::Exclude ==> no_title_in(filter_list(ns, sel, mode), sel),
        mode == SectionFilterMode::Include ==> selected_or_parent(filter_list(ns, sel, mode), sel),
        no_title_in(ns, avoid) ==> no_title_in(filter_list(ns, sel, mode), avoid),
    decreases ns, 0int,
{
    if ns.len() > 0 {
        lemma_filter_node_props(ns[0], sel, mode, avoid);
        lemma_filter_list_props(ns.drop_first(), sel, mode, avoid);
        let rest = filter_list(ns.drop_first(), sel, mode);
        match filter_node(ns[0], sel, mode) {
            Some(k) => {
                let f = seq![k] + rest;
                assert(f[0] == k);
                assert(f.drop_first() =~= rest);
            },
            None => {},
        }
    }
}

proof fn lemma_filter_node_props(
    n: SectionModel,
    sel: Seq<Seq<char>>,
    mode: SectionFilterMode,
    avoid: Seq<Seq<char>>,
)
    ensures
        match filter_node(n, sel, mode) {
            Some(k) => {
                &&& k.title == n.title
                &&& mode == SectionFilterMode::Exclude ==> !sel.contains(normalized_title(k.title))
                    && no_title_in(k.children, sel)
                &&& mode == SectionFilterMode::Include ==> (sel.contains(normalized_title(k.title))
                    || k.children.len() > 0) && selected_or_parent(k.children, sel)
                &&& no_title_in(n.children, avoid) ==> no_title_in(k.children, avoid)
            },
            None => true,
        },
    decreases n, 1int,
{
    lemma_filter_list_props(n.children, sel, mode, avoid);
}

proof fn lemma_no_title_in_empty(ns: Seq<SectionModel>)
    ensures
        no_title_in(ns, Seq::empty()),
    decreases ns,
{
    if ns.len() > 0 {
        lemma_no_title_in_empty(ns[0].children);
        lemma_no_title_in_empty(ns.drop_first());
    }
}

/// In exclude mode, no section that is left, at any depth, has one of the
/// selected titles (compared in normalized form).
pub proof fn law_exclude_removes_selected(ns: Seq<SectionModel>, selected: Seq<Seq<char>>)
    ensures
        no_title_in(
            filter_spec(ns, selected, SectionFilterMode::Exclude),
            selected.map_values(|t: Seq<char>| normalized_title(t)),
        ),
{
    let sel = selected.map_values(|t: Seq<char>| normalized_title(t));
    if selected.len() == 0 {
        assert(sel =~= Seq::<Seq<char>>::empty());
        lemma_no_title_in_empty(ns);
    } else {
        lemma_filter_list_props(ns, sel, SectionFilterMode::Exclude, sel);
    }
}

/// In include mode with a selection, every section that is left is one of
/// the selected sections or contains one.
pub proof fn law_include_keeps_selected_and_parents(
    ns: Seq<SectionModel>,
    selected: Seq<Seq<char>>,
)
    requires
        selected.len() > 0,
    ensures
        selected_or_parent(
            filter_spec(ns, selected, SectionFilterMode::Include),
            selected.map_values(|t: Seq<char>| normalized_title(t)),
        ),
{
    let sel = selected.map_values(|t: Seq<char>| normalized_title(t));
    lemma_filter_list_props(ns, sel, SectionFilterMode::Include, sel);
}

proof fn lemma_filter_spec_keeps_absence(
    ns: Seq<SectionModel>,
    selected: Seq<Seq<char>>,
    mode: SectionFilterMode,
    avoid: Seq<Seq<char>>,
)
    requires
        no_title_in(ns, avoid),
    ensures
        no_title_in(filter_spec(ns, selected, mode), avoid),
{
    if selected.len() > 0 {
        lemma_filter_list_props(
            ns,
            selected.map_values(|t: Seq<char>| normalized_title(t)),
            mode,
            avoid,
        );
    }
}

/// Unless references are kept, no section left for rendering, at any depth,
/// is titled `References` or `Bibliography` (in normalized form), whatever
/// section selection is applied afterwards.
pub proof fn law_render_drops_references(options: CliOptions, doc: DocumentModel)
    requires
        !options.keep_refs,
    ensures
        no_title_in(
            rendered_sections(options, doc),
            reference_titles().map_values(|t: Seq<char>| normalized_title(t)),
        ),
{
    let all = doc.sections;
    law_exclude_removes_selected(all, reference_titles());
    let s1 = filter_spec(all, reference_titles(), SectionFilterMode::Exclude);
    if options.sections.len() > 0 && doc.supports_tree {
        lemma_filter_spec_keeps_absence(
            s1,
            sviews(options.sections@),
            options.section_filter_mode,
            reference_titles().map_values(|t: Seq<char>| normalized_title(t)),
        );
    }
}

/// `s` holds no three newlines in a row.
pub open spec fn no_blank_run(s: Seq<char>) -> bool {
    forall|i: int| 0 <= i && i + 2 < s.len() ==> !(#[trigger] s[i] == '\n' && s[i + 1] == '\n' && s[i + 2] == '\n')
}

proof fn lemma_squeeze_no_blank_run(s: Seq<char>, i: int, run: nat)
    ensures
        no_blank_run(squeeze_from(s, i, run)),
    decreases s.len() - i,
{
    if i < 0 || i >= s.len() {
    } else if s[i] == '\n' {
        lemma_squeeze_no_blank_run(s, i + 1, run + 1);
    } else {
        lemma_squeeze_no_blank_run(s, i + 1, 0);
        let a = newline_run(run);
        let b = squeeze_from(s, i + 1, 0);
        let r = a + seq![s[i]] + b;
        assert(a.len() <= 2);
        assert forall|k: int| 0 <= k && k + 2 < r.len() implies !(#[trigger] r[k] == '\n' && r[k
            + 1] == '\n' && r[k + 2] == '\n') by {
            if k > a.len() {
                assert(r[k] == b[k - a.len() - 1]);
                assert(r[k + 1] == b[k - a.len()]);
                assert(r[k + 2] == b[k - a.len() + 1]);
            } else if k + 2 >= a.len() {
                assert(r[a.len() as int] == s[i]);
            }
        }
    }
}

/// Collapsed text never holds three newlines in a row (two blank lines).
pub proof fn law_collapse_leaves_no_blank_run(s: Seq<char>)
    ensures
        no_blank_run(collapse_spec(s)),
{
    lemma_squeeze_no_blank_run(trim(s), 0, 0);
}

proof fn lemma_squeeze_keeps_last(t: Seq<char>, i: int, run: nat)
    requires
        0 <= i < t.len(),
        t.last() != '\n',
    ensures
        squeeze_from(t, i, run).len() > 0,
        squeeze_from(t, i, run).last() == t.last(),
    decreases t.len() - i,
{
    if t[i] == '\n' {
        lemma_squeeze_keeps_last(t, i + 1, run + 1);
    } else if i + 1 < t.len() {
        lemma_squeeze_keeps_last(t, i + 1, 0);
    } else {
        assert(newline_run(0) =~= Seq::<char>::empty());
        let r = newline_run(run) + seq![t[i]] + squeeze_from(t, i + 1, 0);
        assert(r =~= newline_run(run) + seq![t[i]]);
    }
}

proof fn lemma_squeeze_identity(u: Seq<char>, i: int, run: nat)
    requires
        0 <= i <= u.len(),
        no_blank_run(Seq::new(run, |k: int| '\n') + u.subrange(i, u.len() as int)),
    ensures
        squeeze_from(u, i, run) == Seq::new(run, |k: int| '\n') + u.subrange(i, u.len() as int),
    decreases u.len() - i,
{
    let nl = Seq::new(run, |k: int| '\n');
    let whole = nl + u.subrange(i, u.len() as int);
    if run >= 3 {
        assert(whole[0] == '\n' && whole[1] == '\n' && whole[2] == '\n');
    }
    if i >= u.len() {
        assert(newline_run(run) =~= nl);
        assert(whole =~= nl);
    } else if u[i] == '\n' {
        let nl1 = Seq::new(run + 1, |k: int| '\n');
        assert(nl1 + u.subrange(i + 1, u.len() as int) =~= whole);
        lemma_squeeze_identity(u, i + 1, run + 1);
    } else {
        let rest = u.subrange(i + 1, u.len() as int);
        let off = run + 1;
        assert forall|k: int| 0 <= k && k + 2 < rest.len() implies !(#[trigger] rest[k] == '\n'
            && rest[k + 1] == '\n' && rest[k + 2] == '\n') by {
            assert(rest[k] == whole[k + off]);
            assert(rest[k + 1] == whole[k + 1 + off]);
            assert(rest[k + 2] == whole[k + 2 + off]);
        }
        assert(Seq::new(0, |k: int| '\n') + rest =~= rest);
        lemma_squeeze_identity(u, i + 1, 0);
        assert(newline_run(run) =~= nl);
        assert(whole =~= nl + seq![u[i]] + rest);
    }
}

/// Collapsed text is trimmed, and collapsing it again changes nothing.
pub proof fn law_collapse_idempotent(s: Seq<char>)
    ensures
        trim(collapse_spec(s)) == collapse_spec(s),
        collapse_spec(collapse_spec(s)) == collapse_spec(s),
{
    let t = trim(s);
    let r = collapse_spec(s);
    lemma_trim_ends(s);
    if t.len() > 0 {
        assert(t[0] != '\n');
        assert(t.last() != '\n');
        lemma_squeeze_keeps_last(t, 0, 0);
        assert(newline_run(0) =~= Seq::<char>::empty());
        assert(r[0] == t[0]);
        lemma_trim_fixed(r);
    } else {
        assert(r =~= newline_run(0));
        assert(r =~= Seq::<char>::empty());
        lemma_trim_fixed(r);
    }
    law_collapse_leaves_no_blank_run(s);
    assert(Seq::new(0, |k: int| '\n') + r.subrange(0, r.len() as int) =~= r);
    lemma_squeeze_identity(r, 0, 0);
}

/// Rendering filters nothing more than `rendered_sections` does: rendering
/// a document equals rendering, with references kept and no selection, the
/// document whose sections were filtered beforehand (so long as the
/// selection does not drop the abstract, which is not a section).
pub proof fn law_render_prefiltered(
    id: ArxivId,
    o: CliOptions,
    o2: CliOptions,
    d: DocumentModel,
    d2: DocumentModel,
)
    requires
        o2.keep_refs,
        o2.sections@.len() == 0,
        o2.frontmatter == o.frontmatter,
        o2.keep_toc == o.keep_toc,
        o2.include_tree == o.include_tree,
        d2 == (DocumentModel { sections: rendered_sections(o, d), ..d }),
        abstract_shown(o, d.supports_tree) || d.metadata.abstract_text is None,
    ensures
        render_spec(id, o, d) == render_spec(id, o2, d2),
{
    assert(rendered_sections(o2, d2) == d2.sections);
    assert(abstract_shown(o2, d.supports_tree));
    let m = d.metadata;
    assert(shown_metadata(m, abstract_shown(o, d.supports_tree)) == shown_metadata(m, true));
    assert(head_blocks(m, abstract_shown(o, d.supports_tree)) == head_blocks(m, true));
}

/// The lines of an outline, read flat: every section at any depth in
/// document order, as two spaces per level of nesting, `- ` and its title.
pub open spec fn outline_lines(ns: Seq<SectionModel>, depth: nat) -> Seq<Seq<char>>
    decreases ns,
{
    if ns.len() == 0 {
        Seq::empty()
    } else {
        seq![repeat("  "@, depth) + "- "@ + ns[0].title] + outline_lines(ns[0].children, depth + 1)
            + outline_lines(ns.drop_first(), depth)
    }
}

/// The number of sections of a forest, at any depth.
pub open spec fn section_count(ns: Seq<SectionModel>) -> nat
    decreases ns,
{
    if ns.len() == 0 {
        0
    } else {
        1 + section_count(ns[0].children) + section_count(ns.drop_first())
    }
}

proof fn lemma_join_concat(a: Seq<Seq<char>>, b: Seq<Seq<char>>, sep: Seq<char>)
    requires
        a.len() > 0,
        b.len() > 0,
    ensures
        join(a + b, sep) == join(a, sep) + sep + join(b, sep),
    decreases b.len(),
{
    let ab = a + b;
    if b.len() == 1 {
        assert(ab.drop_last() =~= a);
        assert(ab.last() == b[0]);
    } else {
        lemma_join_concat(a, b.drop_last(), sep);
        assert(ab.drop_last() =~= a + b.drop_last());
        assert(ab.last() == b.last());
        assert(join(a, sep) + sep + join(b.drop_last(), sep) + sep + b.last() =~= join(a, sep) + sep
            + (join(b.drop_last(), sep) + sep + b.last()));
    }
}

proof fn lemma_join_append(a: Seq<Seq<char>>, b: Seq<Seq<char>>, sep: Seq<char>)
    ensures
        a.len() == 0 ==> join(a + b, sep) == join(b, sep),
        b.len() == 0 ==> join(a + b, sep) == join(a, sep),
        a.len() > 0 && b.len() > 0 ==> join(a + b, sep) == join(a, sep) + sep + join(b, sep),
{
    if a.len() == 0 {
        assert(a + b =~= b);
    } else if b.len() == 0 {
        assert(a + b =~= a);
    } else {
        lemma_join_concat(a, b, sep);
    }
}

proof fn lemma_join_first(a: Seq<Seq<char>>, sep: Seq<char>)
    requires
        a.len() > 0,
    ensures
        join(a, sep).len() >= a[0].len(),
    decreases a.len(),
{
    if a.len() > 1 {
        lemma_join_first(a.drop_last(), sep);
    }
}

proof fn lemma_outline(ns: Seq<SectionModel>, depth: nat)
    ensures
        toc_text(ns, depth) == join(outline_lines(ns, depth), seq!['\n']),
        (toc_lines(ns, depth).len() == 0) == (ns.len() == 0),
        (outline_lines(ns, depth).len() == 0) == (ns.len() == 0),
        outline_lines(ns, depth).len() == section_count(ns),
    decreases ns,
{
    if ns.len() > 0 {
        let nl = seq!['\n'];
        lemma_outline(ns[0].children, depth + 1);
        lemma_outline(ns.drop_first(), depth);
        reveal_strlit("  ");
        reveal_strlit("- ");
        assert("  "@ =~= seq![' ', ' ']);
        assert("- "@ =~= seq!['-', ' ']);
        assert(repeat("  "@, depth) + "- "@ + ns[0].title =~= toc_entry(ns[0], depth));
        let e = toc_entry(ns[0], depth);
        let oc = outline_lines(ns[0].children, depth + 1);
        let orr = outline_lines(ns.drop_first(), depth);
        let tr = toc_lines(ns.drop_first(), depth);
        let nested = toc_text(ns[0].children, depth + 1);
        if oc.len() > 0 {
            lemma_join_first(oc, nl);
            assert(oc[0].len() > 0);
        }
        assert(nested.len() > 0 <==> oc.len() > 0);
        let x = if nested.len() > 0 {
            seq![nested]
        } else {
            Seq::<Seq<char>>::empty()
        };
        assert(toc_lines(ns, depth) == seq![e] + x + tr);
        assert(outline_lines(ns, depth) == seq![e] + oc + orr);
        lemma_join_append(seq![e] + x, tr, nl);
        lemma_join_append(seq![e] + oc, orr, nl);
        lemma_join_append(seq![e], x, nl);
        lemma_join_append(seq![e], oc, nl);
        assert(join(seq![e], nl) == e);
        if x.len() > 0 {
            assert(join(x, nl) == nested);
        }
        assert(join(seq![e] + x, nl) == join(seq![e] + oc, nl));
    }
}

/// The outline of `--keep-toc` and `--include-tree` lists every section of
/// the tree at any depth, one line each, in document order: two spaces per
/// level of nesting, `- ` and the title; so it has as many lines as the
/// tree has sections.
pub proof fn law_outline_lists_every_section(ns: Seq<SectionModel>, depth: nat)
    ensures
        toc_text(ns, depth) == join(outline_lines(ns, depth), seq!['\n']),
        outline_lines(ns, depth).len() == section_count(ns),
{
    lemma_outline(ns, depth);
}

/// The headings of a forest in document order, with every section whose
/// normalized title is in `sel` left out together with its subsections.
pub open spec fn pruned(ns: Seq<SectionModel>, sel: Seq<Seq<char>>) -> Seq<FlatModel>
    decreases ns,
{
    if ns.len() == 0 {
        Seq::empty()
    } else {
        (if sel.contains(normalized_title(ns[0].title)) {
            Seq::empty()
        } else {
            seq![flat_of(ns[0])] + pruned(ns[0].children, sel)
        }) + pruned(ns.drop_first(), sel)
    }
}

proof fn lemma_exclude_preorder(ns: Seq<SectionModel>, sel: Seq<Seq<char>>)
    ensures
        preorder(filter_list(ns, sel, SectionFilterMode::Exclude)) == pruned(ns, sel),
    decreases ns,
{
    if ns.len() > 0 {
        let mode = SectionFilterMode::Exclude;
        lemma_exclude_preorder(ns[0].children, sel);
        lemma_exclude_preorder(ns.drop_first(), sel);
        let rest = filter_list(ns.drop_first(), sel, mode);
        match filter_node(ns[0], sel, mode) {
            Some(k) => {
                lemma_preorder_concat(seq![k], rest);
                assert(seq![k].drop_first() =~= Seq::<SectionModel>::empty());
                assert(seq![k][0] == k);
                assert(preorder(Seq::<SectionModel>::empty()) == Seq::<FlatModel>::empty());
                assert(preorder(seq![k]) =~= seq![flat_of(k)] + preorder(k.children));
                assert(flat_of(k) == flat_of(ns[0]));
                assert(pruned(ns, sel) =~= seq![flat_of(ns[0])] + pruned(ns[0].children, sel)
                    + pruned(ns.drop_first(), sel));
            },
            None => {
                assert(pruned(ns, sel) =~= pruned(ns.drop_first(), sel));
            },
        }
    }
}

proof fn lemma_exclude_nothing(ns: Seq<SectionModel>, sel: Seq<Seq<char>>)
    requires
        no_title_in(ns, sel),
    ensures
        filter_list(ns, sel, SectionFilterMode::Exclude) == ns,
    decreases ns,
{
    if ns.len() > 0 {
        lemma_exclude_nothing(ns[0].children, sel);
        lemma_exclude_nothing(ns.drop_first(), sel);
        let k = filter_node(ns[0], sel, SectionFilterMode::Exclude);
        assert(k == Some(ns[0]));
        assert(seq![ns[0]] + ns.drop_first() =~= ns);
    }
}

/// Exclude mode removes nothing but the selected sections and their
/// subsections: read in document order, what is left is the input with
/// the selected subtrees cut out, every other section kept in place with
/// its own subsections.
pub proof fn law_exclude_cuts_only_selected(ns: Seq<SectionModel>, selected: Seq<Seq<char>>)
    requires
        selected.len() > 0,
    ensures
        preorder(filter_spec(ns, selected, SectionFilterMode::Exclude)) == pruned(
            ns,
            selected.map_values(|t: Seq<char>| normalized_title(t)),
        ),
{
    lemma_exclude_preorder(ns, selected.map_values(|t: Seq<char>| normalized_title(t)));
}

/// With no section selected anywhere in the tree, exclude mode returns the
/// tree unchanged.
pub proof fn law_exclude_nothing_selected(ns: Seq<SectionModel>, selected: Seq<Seq<char>>)
    requires
        no_title_in(ns, selected.map_values(|t: Seq<char>| normalized_title(t))),
    ensures
        filter_spec(ns, selected, SectionFilterMode::Exclude) == ns,
{
    if selected.len() > 0 {
        lemma_exclude_nothing(ns, selected.map_values(|t: Seq<char>| normalized_title(t)));
    }
}

} // verus!

