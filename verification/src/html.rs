//! arXiv HTML (LaTeXML output): title, authors, abstract, and the sections
//! of a paper with their text converted to Markdown.
use vstd::prelude::*;

use crate::dom::{
    build_dom, document_events, event_models, forest_of, fragment_events, lemma_dom_children,
    lemma_node_models, node_models, parse_document_events, parse_fragment_events, DomEvent, DomKind,
    DomNode, EventModel, NodeModel,
};
use crate::error::Arxiv2MdError;
use crate::model::{
    copy_opt_string, opt_view, section_models, HtmlPaper, PaperModel, SectionModel, SectionNode,
};
use crate::sections::{build_tree, flat_models, forest, FlatModel, FlatSection};
use crate::text::{
    chars_eq, chars_of, contains, contains_exec, copy_range, eq_lit, is_ascii_digit, is_whitespace,
    is_ws, join, join_exec, lemma_skip_ws, lines, lines_exec, lowercase, normalize_ws,
    normalize_ws_chars, push_all, push_repeat, push_str_chars, repeat, skip_ws, skip_ws_exec,
    starts_with, starts_with_exec, string_of, sviews, to_lowercase, trim, trim_chars, vviews,
};

verus! {

broadcast use vstd::string::group_string_axioms;

// ------------------------------------------------------------ inline text

/// `s[i..]` with every whitespace run that holds a newline made one newline
/// (the regex `\s*\n\s*` replaced by `\n`).
pub open spec fn newline_runs_from(s: Seq<char>, i: int) -> Seq<char>
    decreases s.len() - i,
{
    if i < 0 || i >= s.len() {
        Seq::empty()
    } else if is_ws(s[i]) {
        let j = skip_ws(s, i);
        proof {
            lemma_skip_ws(s, i);
        }
        (if contains(s.subrange(i, j), seq!['\n']) {
            seq!['\n']
        } else {
            s.subrange(i, j)
        }) + newline_runs_from(s, j)
    } else {
        seq![s[i]] + newline_runs_from(s, i + 1)
    }
}

pub open spec fn is_blank(c: char) -> bool {
    c == ' ' || c == '\t'
}

/// The end of the run of spaces and tabs from `i`.
pub open spec fn blank_run_end(s: Seq<char>, i: int) -> int
    decreases s.len() - i,
{
    if 0 <= i < s.len() && is_blank(s[i]) {
        blank_run_end(s, i + 1)
    } else {
        i
    }
}

pub proof fn lemma_blank_run_end(s: Seq<char>, i: int)
    requires
        0 <= i <= s.len(),
    ensures
        i <= blank_run_end(s, i) <= s.len(),
        i < s.len() && is_blank(s[i]) ==> blank_run_end(s, i) > i,
    decreases s.len() - i,
{
    if i < s.len() && is_blank(s[i]) {
        lemma_blank_run_end(s, i + 1);
    }
}

/// `s[i..]` with every run of spaces and tabs made one space (the regex
/// `[ \t]+` replaced by a space).
pub open spec fn blank_runs_from(s: Seq<char>, i: int) -> Seq<char>
    decreases s.len() - i,
{
    if i < 0 || i >= s.len() {
        Seq::empty()
    } else if is_blank(s[i]) {
        proof {
            lemma_blank_run_end(s, i);
        }
        seq![' '] + blank_runs_from(s, blank_run_end(s, i))
    } else {
        seq![s[i]] + blank_runs_from(s, i + 1)
    }
}

/// Inline text made tidy: whitespace around newlines reduced to the
/// newline, runs of spaces and tabs made one space, ends trimmed.
pub open spec fn clean_inline(s: Seq<char>) -> Seq<char> {
    trim(blank_runs_from(newline_runs_from(s, 0), 0))
}

fn newline_runs(s: &[char]) -> (r: Vec<char>)
    ensures
        r@ == newline_runs_from(s@, 0),
{
    let nl = vec!['\n'];
    assert(nl@ =~= seq!['\n']);
    let mut out: Vec<char> = Vec::new();
    let mut i: usize = 0;
    while i < s.len()
        invariant
            i <= s.len(),
            nl@ == seq!['\n'],
            out@ + newline_runs_from(s@, i as int) == newline_runs_from(s@, 0),
        decreases s.len() - i,
    {
        let ghost before = out@;
        if is_whitespace(s[i]) {
            let j = skip_ws_exec(s, i);
            proof {
                lemma_skip_ws(s@, i as int);
            }
            let run = copy_range(s, i, j);
            if contains_exec(run.as_slice(), nl.as_slice()) {
                out.push('\n');
            } else {
                push_all(&mut out, run.as_slice());
            }
            assert(out@ + newline_runs_from(s@, j as int) =~= before + newline_runs_from(
                s@,
                i as int,
            ));
            i = j;
        } else {
            out.push(s[i]);
            assert(out@ + newline_runs_from(s@, i + 1) =~= before + newline_runs_from(
                s@,
                i as int,
            ));
            i = i + 1;
        }
    }
    assert(out@ + Seq::<char>::empty() =~= out@);
    out
}

fn blank_runs(s: &[char]) -> (r: Vec<char>)
    ensures
        r@ == blank_runs_from(s@, 0),
{
    let mut out: Vec<char> = Vec::new();
    let mut i: usize = 0;
    while i < s.len()
        invariant
            i <= s.len(),
            out@ + blank_runs_from(s@, i as int) == blank_runs_from(s@, 0),
        decreases s.len() - i,
    {
        let ghost before = out@;
        if s[i] == ' ' || s[i] == '\t' {
            let mut j = i;
            while j < s.len() && (s[j] == ' ' || s[j] == '\t')
                invariant
                    i <= j <= s.len(),
                    blank_run_end(s@, j as int) == blank_run_end(s@, i as int),
                decreases s.len() - j,
            {
                j = j + 1;
            }
            out.push(' ');
            assert(out@ + blank_runs_from(s@, j as int) =~= before + blank_runs_from(
                s@,
                i as int,
            ));
            i = j;
        } else {
            out.push(s[i]);
            assert(out@ + blank_runs_from(s@, i + 1) =~= before + blank_runs_from(s@, i as int));
            i = i + 1;
        }
    }
    assert(out@ + Seq::<char>::empty() =~= out@);
    out
}

pub fn clean_inline_chars(s: &[char]) -> (r: Vec<char>)
    ensures
        r@ == clean_inline(s@),
{
    let a = newline_runs(s);
    let b = blank_runs(a.as_slice());
    trim_chars(b.as_slice())
}

/// `clean_inline_text`: see `clean_inline`.
pub fn clean_inline_text(value: &str) -> (r: String)
    ensures
        r@ == clean_inline(value@),
{
    let v = chars_of(value);
    let c = clean_inline_chars(v.as_slice());
    string_of(c.as_slice())
}

// ------------------------------------------------------------------ links

/// A link to an entry of the bibliography.
pub open spec fn citation_link(href: Seq<char>) -> bool {
    contains(href, "#bib."@) || starts_with(href, "#bib"@)
}

/// A link to a place in an arXiv HTML paper.
pub open spec fn internal_paper_link(href: Seq<char>) -> bool {
    contains(href, "arxiv.org/html/"@) && contains(href, "#"@)
}

pub fn is_citation_link(href: &Vec<char>) -> (b: bool)
    ensures
        b == citation_link(href@),
{
    let a = chars_of("#bib.");
    let b = chars_of("#bib");
    contains_exec(href.as_slice(), a.as_slice()) || starts_with_exec(href.as_slice(), b.as_slice())
}

pub fn is_internal_paper_link(href: &Vec<char>) -> (b: bool)
    ensures
        b == internal_paper_link(href@),
{
    let a = chars_of("arxiv.org/html/");
    let b = chars_of("#");
    contains_exec(href.as_slice(), a.as_slice()) && contains_exec(href.as_slice(), b.as_slice())
}


// --------------------------------------------------------------- the tree

/// `n` is an element named `name`.
pub open spec fn named(n: NodeModel, name: Seq<char>) -> bool {
    n.kind == DomKind::Element && n.name == name
}

/// `n` is an element with the class `c`.
pub open spec fn has_class(n: NodeModel, c: Seq<char>) -> bool {
    n.kind == DomKind::Element && n.classes.contains(c)
}

/// The texts of the text nodes of a forest, in document order.
pub open spec fn texts_of(ns: Seq<NodeModel>) -> Seq<Seq<char>>
    decreases ns,
{
    if ns.len() == 0 {
        Seq::empty()
    } else {
        (if ns[0].kind == DomKind::Text {
            seq![ns[0].text]
        } else {
            Seq::empty()
        }) + texts_of(ns[0].children) + texts_of(ns.drop_first())
    }
}

/// The text of a node: its text nodes joined by spaces
/// (`text().collect::<Vec<_>>().join(" ")`).
pub open spec fn text_of(n: NodeModel) -> Seq<char> {
    join(texts_of(seq![n]), seq![' '])
}

pub open spec fn is_heading_name(name: Seq<char>) -> bool {
    name.len() == 2 && name[0] == 'h' && '1' <= name[1] && name[1] <= '6'
}

/// The number of a heading element name `h1` to `h6`.
pub open spec fn heading_number(name: Seq<char>) -> nat {
    (name[1] as u32 - '0' as u32) as nat
}

/// Elements left out entirely.
pub open spec fn is_skipped_name(name: Seq<char>) -> bool {
    name == "script"@ || name == "style"@ || name == "nav"@ || name == "noscript"@ || name
        == "meta"@ || name == "link"@
}

/// Elements whose children are serialized in their place.
pub open spec fn is_container_name(name: Seq<char>) -> bool {
    name == "section"@ || name == "article"@ || name == "div"@ || name == "span"@
}

/// An equation table (`ltx_equationgroup`, `ltx_eqn_align`, `ltx_eqn_table`).
pub open spec fn is_equation_table(n: NodeModel) -> bool {
    n.classes.contains("ltx_equationgroup"@) || n.classes.contains("ltx_eqn_align"@)
        || n.classes.contains("ltx_eqn_table"@)
}

pub open spec fn any_class_prefixed(n: NodeModel, p: Seq<char>) -> bool {
    exists|k: int| 0 <= k < n.classes.len() && starts_with(#[trigger] n.classes[k], p)
}

pub open spec fn is_list(n: NodeModel) -> bool {
    named(n, "ul"@) || named(n, "ol"@)
}

pub open spec fn is_cell(n: NodeModel) -> bool {
    named(n, "th"@) || named(n, "td"@)
}

/// `s` with each newline written `<br>`.
pub open spec fn br_from(s: Seq<char>, i: int) -> Seq<char>
    decreases s.len() - i,
{
    if i < 0 || i >= s.len() {
        Seq::empty()
    } else if s[i] == '\n' {
        "<br>"@ + br_from(s, i + 1)
    } else {
        seq![s[i]] + br_from(s, i + 1)
    }
}

/// The first `annotation` element of a forest, in document order, whose
/// encoding is `application/x-tex`.
pub open spec fn tex_annotation(ns: Seq<NodeModel>) -> Option<NodeModel>
    decreases ns,
{
    if ns.len() == 0 {
        None
    } else if named(ns[0], "annotation"@) && ns[0].encoding == Some("application/x-tex"@) {
        Some(ns[0])
    } else {
        match tex_annotation(ns[0].children) {
            Some(a) => Some(a),
            None => tex_annotation(ns.drop_first()),
        }
    }
}

/// A formula as inline math: its TeX annotation if it has one that is not
/// empty, else its text.
pub open spec fn math_text(n: NodeModel) -> Seq<char> {
    let from_tex = match tex_annotation(seq![n]) {
        Some(a) => clean_inline(text_of(a)),
        None => Seq::empty(),
    };
    if from_tex.len() > 0 {
        "$"@ + from_tex + "$"@
    } else {
        let fallback = clean_inline(text_of(n));
        if fallback.len() == 0 {
            Seq::empty()
        } else {
            "$"@ + fallback + "$"@
        }
    }
}

// ---------------------------------------------------------- serialization

/// The Markdown blocks of a node.
pub open spec fn node_blocks(n: NodeModel, rm: bool) -> Seq<Seq<char>>
    decreases n, 3int,
{
    match n.kind {
        DomKind::Text => {
            let c = normalize_ws(n.text);
            if c.len() == 0 {
                Seq::empty()
            } else {
                seq![c]
            }
        },
        DomKind::Element => {
            let name = n.name;
            if is_skipped_name(name) {
                Seq::empty()
            } else if is_container_name(name) {
                children_blocks(n.children, rm)
            } else if is_heading_name(name) {
                let lvl = if heading_number(name) < 2 {
                    2
                } else {
                    heading_number(name)
                };
                let title = normalize_ws(text_of(n));
                if title.len() == 0 {
                    Seq::empty()
                } else {
                    seq![repeat(seq!['#'], lvl) + seq![' '] + title]
                }
            } else if name == "p"@ {
                let t = inline_text(n, rm);
                if t.len() == 0 {
                    Seq::empty()
                } else {
                    seq![t]
                }
            } else if name == "ul"@ || name == "ol"@ {
                let lines = list_lines(n, 0, rm);
                if lines.len() == 0 {
                    Seq::empty()
                } else {
                    seq![join(lines, seq!['\n'])]
                }
            } else if name == "figure"@ {
                children_blocks(n.children, rm).filter(|b: Seq<char>| trim(b).len() > 0)
            } else if name == "table"@ {
                let t = table_text(n, rm);
                if t.len() == 0 {
                    Seq::empty()
                } else {
                    seq![t]
                }
            } else if name == "blockquote"@ {
                let t = inline_text(n, rm);
                if t.len() == 0 {
                    Seq::empty()
                } else {
                    seq!["> "@ + t]
                }
            } else if name == "figcaption"@ {
                let t = inline_text(n, rm);
                if t.len() == 0 {
                    Seq::empty()
                } else {
                    seq!["_"@ + t + "_"@]
                }
            } else {
                children_blocks(n.children, rm)
            }
        },
        DomKind::Other => Seq::empty(),
    }
}

pub open spec fn children_blocks(ns: Seq<NodeModel>, rm: bool) -> Seq<Seq<char>>
    decreases ns, 3int,
{
    if ns.len() == 0 {
        Seq::empty()
    } else {
        node_blocks(ns[0], rm) + children_blocks(ns.drop_first(), rm)
    }
}

/// The inline Markdown of a node's children, tidied.
pub open spec fn inline_text(n: NodeModel, rm: bool) -> Seq<char>
    decreases n, 1int,
{
    clean_inline(inline_children(n.children, rm))
}

pub open spec fn inline_children(ns: Seq<NodeModel>, rm: bool) -> Seq<char>
    decreases ns, 3int,
{
    if ns.len() == 0 {
        Seq::empty()
    } else {
        inline_node(ns[0], rm) + inline_children(ns.drop_first(), rm)
    }
}

/// The inline Markdown of a node: emphasis, links (citations dropped or
/// kept as text), superscripts and math.
pub open spec fn inline_node(n: NodeModel, rm: bool) -> Seq<char>
    decreases n, 2int,
{
    match n.kind {
        DomKind::Text => n.text,
        DomKind::Element => {
            let name = n.name;
            if name == "br"@ {
                seq!['\n']
            } else if name == "em"@ || name == "i"@ {
                "*"@ + inline_text(n, rm) + "*"@
            } else if name == "strong"@ || name == "b"@ {
                "**"@ + inline_text(n, rm) + "**"@
            } else if name == "a"@ {
                let t = inline_text(n, rm);
                let href = match n.href {
                    Some(h) => h,
                    None => Seq::empty(),
                };
                if citation_link(href) {
                    if rm {
                        Seq::empty()
                    } else {
                        t
                    }
                } else if internal_paper_link(href) {
                    t
                } else if href.len() == 0 || t.len() == 0 {
                    t
                } else {
                    "["@ + t + "]("@ + href + ")"@
                }
            } else if name == "cite"@ {
                if rm && any_class_prefixed(n, "ltx_cite"@) {
                    Seq::empty()
                } else {
                    inline_text(n, rm)
                }
            } else if name == "sup"@ {
                let t = inline_text(n, rm);
                if t.len() == 0 {
                    Seq::empty()
                } else {
                    "^"@ + t
                }
            } else if name == "math"@ {
                math_text(n)
            } else {
                inline_text(n, rm)
            }
        },
        DomKind::Other => Seq::empty(),
    }
}

/// The lines of a list: one `- item` line per item, indented two spaces per
/// level, each followed by the lines of the lists found inside the item.
pub open spec fn list_lines(n: NodeModel, indent: nat, rm: bool) -> Seq<Seq<char>>
    decreases n, 2int,
{
    li_lines(n.children, indent, rm)
}

pub open spec fn li_lines(ns: Seq<NodeModel>, indent: nat, rm: bool) -> Seq<Seq<char>>
    decreases ns, 3int,
{
    if ns.len() == 0 {
        Seq::empty()
    } else {
        (if named(ns[0], "li"@) {
            item_lines(ns[0], indent, rm)
        } else {
            Seq::empty()
        }) + li_lines(ns.drop_first(), indent, rm)
    }
}

pub open spec fn item_lines(li: NodeModel, indent: nat, rm: bool) -> Seq<Seq<char>>
    decreases li, 2int,
{
    seq![repeat(seq![' ', ' '], indent) + "- "@ + clean_inline(item_inline(li.children, rm))]
        + nested_lists(li.children, indent + 1, rm)
}

/// The inline Markdown of an item's children other than nested lists.
pub open spec fn item_inline(ns: Seq<NodeModel>, rm: bool) -> Seq<char>
    decreases ns, 3int,
{
    if ns.len() == 0 {
        Seq::empty()
    } else {
        (if is_list(ns[0]) {
            Seq::empty()
        } else {
            inline_node(ns[0], rm)
        }) + item_inline(ns.drop_first(), rm)
    }
}

/// The lines of every list in a forest, in document order, including lists
/// inside lists.
pub open spec fn nested_lists(ns: Seq<NodeModel>, indent: nat, rm: bool) -> Seq<Seq<char>>
    decreases ns, 3int,
{
    if ns.len() == 0 {
        Seq::empty()
    } else {
        (if is_list(ns[0]) {
            list_lines(ns[0], indent, rm)
        } else {
            Seq::empty()
        }) + nested_lists(ns[0].children, indent, rm) + nested_lists(ns.drop_first(), indent, rm)
    }
}

/// The rows of a table that have cells, each as its cell texts, in document
/// order (rows of inner tables included).
pub open spec fn table_rows(ns: Seq<NodeModel>, rm: bool) -> Seq<Seq<Seq<char>>>
    decreases ns, 3int,
{
    if ns.len() == 0 {
        Seq::empty()
    } else {
        (if named(ns[0], "tr"@) {
            let v = cell_values(ns[0].children, rm);
            if v.len() > 0 {
                seq![v]
            } else {
                Seq::empty()
            }
        } else {
            Seq::empty()
        }) + table_rows(ns[0].children, rm) + table_rows(ns.drop_first(), rm)
    }
}

/// The texts of the `th`/`td` cells of a forest, newlines written `<br>`.
pub open spec fn cell_values(ns: Seq<NodeModel>, rm: bool) -> Seq<Seq<char>>
    decreases ns, 3int,
{
    if ns.len() == 0 {
        Seq::empty()
    } else {
        (if is_cell(ns[0]) {
            seq![br_from(inline_text(ns[0], rm), 0)]
        } else {
            Seq::empty()
        }) + cell_values(ns[0].children, rm) + cell_values(ns.drop_first(), rm)
    }
}

/// The largest number of cells in a row.
pub open spec fn max_cells(rows: Seq<Seq<Seq<char>>>) -> nat
    decreases rows.len(),
{
    if rows.len() == 0 {
        0
    } else {
        let rest = max_cells(rows.drop_first());
        if rows[0].len() > rest {
            rows[0].len()
        } else {
            rest
        }
    }
}

/// A row padded with empty cells to `n` cells.
pub open spec fn padded(row: Seq<Seq<char>>, n: nat) -> Seq<Seq<char>> {
    if row.len() >= n {
        row
    } else {
        row + Seq::new((n - row.len()) as nat, |i: int| Seq::<char>::empty())
    }
}

pub open spec fn table_line(row: Seq<Seq<char>>) -> Seq<char> {
    "| "@ + join(row, " | "@) + " |"@
}

/// A Markdown table: the first row as header, a `---` separator row, then
/// the other rows, every row padded to the widest.
pub open spec fn markdown_table(rows: Seq<Seq<Seq<char>>>) -> Seq<char> {
    let n = max_cells(rows);
    if rows.len() == 0 || n == 0 {
        Seq::empty()
    } else {
        let header = table_line(padded(rows[0], n));
        let rule = table_line(Seq::new(n, |i: int| "---"@));
        let body = rows.drop_first().map_values(|r: Seq<Seq<char>>| table_line(padded(r, n)));
        join(seq![header, rule] + body, seq!['\n'])
    }
}

/// A table as Markdown, or an equation table as display math.
pub open spec fn table_text(n: NodeModel, rm: bool) -> Seq<char>
    decreases n, 2int,
{
    if is_equation_table(n) {
        let t = normalize_ws(text_of(n));
        if t.len() == 0 {
            Seq::empty()
        } else {
            "$$ "@ + t + " $$"@
        }
    } else {
        markdown_table(table_rows(n.children, rm))
    }
}

// ------------------------------------------------------- executable walk

pub proof fn lemma_sub_step<A>(ns: Seq<A>, i: int)
    requires
        0 <= i < ns.len(),
    ensures
        ns.subrange(i, ns.len() as int)[0] == ns[i],
        ns.subrange(i, ns.len() as int).drop_first() =~= ns.subrange(i + 1, ns.len() as int),
        ns.subrange(i, ns.len() as int).len() > 0,
{
}

pub proof fn lemma_sub_ends<A>(ns: Seq<A>)
    ensures
        ns.subrange(0, ns.len() as int) =~= ns,
        ns.subrange(ns.len() as int, ns.len() as int) =~= Seq::<A>::empty(),
{
}

fn contains_str(list: &Vec<String>, lit: &str) -> (b: bool)
    ensures
        b == sviews(list@).contains(lit@),
{
    let l = chars_of(lit);
    let mut i: usize = 0;
    while i < list.len()
        invariant
            i <= list.len(),
            l@ == lit@,
            forall|j: int| 0 <= j < i ==> sviews(list@)[j] != lit@,
        decreases list.len() - i,
    {
        let x = chars_of(list[i].as_str());
        if chars_eq(x.as_slice(), l.as_slice()) {
            assert(sviews(list@)[i as int] == lit@);
            return true;
        }
        i = i + 1;
    }
    false
}

fn is_named_exec(n: &DomNode, lit: &str) -> (b: bool)
    ensures
        b == named(n@, lit@),
{
    if n.kind != DomKind::Element {
        return false;
    }
    let name = chars_of(n.name.as_str());
    eq_lit(&name, lit)
}

fn push_vec(out: &mut Vec<Vec<char>>, x: Vec<char>)
    ensures
        vviews(final(out)@) == vviews(old(out)@).push(x@),
{
    let ghost before = vviews(out@);
    out.push(x);
    assert(vviews(out@) =~= before.push(x@));
}

fn append_vecs(out: &mut Vec<Vec<char>>, more: Vec<Vec<char>>)
    ensures
        vviews(final(out)@) == vviews(old(out)@) + vviews(more@),
{
    let mut m = more;
    let ghost mv = vviews(m@);
    let mut i: usize = 0;
    while i < m.len()
        invariant
            i <= m.len(),
            mv == vviews(m@),
            vviews(out@) == vviews(old(out)@) + mv.take(i as int),
        decreases m.len() - i,
    {
        let x = copy_range(m[i].as_slice(), 0, m[i].len());
        assert(x@ =~= mv[i as int]);
        push_vec(out, x);
        i = i + 1;
        assert(mv.take(i as int) =~= mv.take(i - 1).push(mv[i - 1]));
    }
    assert(mv.take(m.len() as int) =~= mv);
}

fn texts_into(n: &DomNode, out: &mut Vec<Vec<char>>)
    ensures
        vviews(final(out)@) == vviews(old(out)@) + texts_of(seq![n@]),
    decreases n,
{
    if n.kind == DomKind::Text {
        push_vec(out, chars_of(n.text.as_str()));
    }
    let ghost start = vviews(old(out)@);
    let ghost own = if n@.kind == DomKind::Text {
        seq![n@.text]
    } else {
        Seq::<Seq<char>>::empty()
    };
    assert(vviews(out@) == start + own);
    let ghost kids = n@.children;
    proof {
        lemma_dom_children(*n);
        lemma_node_models(n.children@);
        lemma_sub_ends(kids);
        assert(seq![n@].drop_first() =~= Seq::<NodeModel>::empty());
        assert(texts_of(seq![n@]) == own + texts_of(kids) + texts_of(Seq::<NodeModel>::empty()));
    }
    let mut i: usize = 0;
    while i < n.children.len()
        invariant
            i <= n.children.len(),
            kids == node_models(n.children@),
            kids.len() == n.children@.len(),
            vviews(out@) + texts_of(kids.subrange(i as int, kids.len() as int)) == start + own
                + texts_of(kids),
        decreases n.children.len() - i,
    {
        let ghost prev = vviews(out@);
        texts_into(&n.children[i], out);
        proof {
            lemma_sub_step(kids, i as int);
            let c = kids[i as int];
            assert(c == n.children@[i as int]@);
            assert(seq![c].drop_first() =~= Seq::<NodeModel>::empty());
            assert(seq![c][0] == c);
            assert(texts_of(Seq::<NodeModel>::empty()) == Seq::<Seq<char>>::empty());
            assert(texts_of(seq![c]) =~= (if c.kind == DomKind::Text {
                seq![c.text]
            } else {
                Seq::empty()
            }) + texts_of(c.children));
            assert(vviews(out@) + texts_of(kids.subrange(i + 1, kids.len() as int)) =~= prev
                + texts_of(kids.subrange(i as int, kids.len() as int)));
        }
        i = i + 1;
    }
    assert(vviews(out@) =~= start + texts_of(seq![n@]));
}

/// `text_of`.
fn text_of_exec(n: &DomNode) -> (r: Vec<char>)
    ensures
        r@ == text_of(n@),
{
    let mut parts: Vec<Vec<char>> = Vec::new();
    texts_into(n, &mut parts);
    assert(vviews(parts@) =~= texts_of(seq![n@]));
    let sp = vec![' '];
    assert(sp@ =~= seq![' ']);
    join_exec(&parts, sp.as_slice())
}

fn find_tex(ns: &Vec<DomNode>) -> (r: Option<&DomNode>)
    ensures
        match r {
            Some(a) => tex_annotation(node_models(ns@)) == Some(a@),
            None => tex_annotation(node_models(ns@)) is None,
        },
    decreases ns,
{
    let ghost all = node_models(ns@);
    proof {
        lemma_node_models(ns@);
        lemma_sub_ends(all);
    }
    let mut i: usize = 0;
    while i < ns.len()
        invariant
            i <= ns.len(),
            all == node_models(ns@),
            all.len() == ns@.len(),
            tex_annotation(all.subrange(i as int, all.len() as int)) == tex_annotation(all),
        decreases ns.len() - i,
    {
        proof {
            lemma_sub_step(all, i as int);
            lemma_dom_children(ns@[i as int]);
        }
        let n = &ns[i];
        if is_named_exec(n, "annotation") {
            match &n.encoding {
                Some(e) => {
                    let ev = chars_of(e.as_str());
                    if eq_lit(&ev, "application/x-tex") {
                        return Some(n);
                    }
                },
                None => {},
            }
        }
        match find_tex(&n.children) {
            Some(a) => {
                return Some(a);
            },
            None => {},
        }
        i = i + 1;
    }
    None
}

fn math_text_exec(n: &DomNode) -> (r: Vec<char>)
    ensures
        r@ == math_text(n@),
{
    let mut found: Option<&DomNode> = None;
    if is_named_exec(n, "annotation") {
        match &n.encoding {
            Some(e) => {
                let ev = chars_of(e.as_str());
                if eq_lit(&ev, "application/x-tex") {
                    found = Some(n);
                }
            },
            None => {},
        }
    }
    if found.is_none() {
        found = find_tex(&n.children);
    }
    proof {
        lemma_dom_children(*n);
        assert(seq![n@].drop_first() =~= Seq::<NodeModel>::empty());
        assert(seq![n@][0] == n@);
        assert(tex_annotation(Seq::<NodeModel>::empty()) is None);
        assert(tex_annotation(seq![n@]) == match found {
            Some(a) => Some(a@),
            None => None::<NodeModel>,
        });
    }
    let from_tex = match found {
        Some(a) => {
            let t = text_of_exec(a);
            clean_inline_chars(t.as_slice())
        },
        None => Vec::new(),
    };
    if from_tex.len() > 0 {
        let mut r = vec!['$'];
        push_all(&mut r, from_tex.as_slice());
        r.push('$');
        proof {
            reveal_strlit("$");
        }
        assert(r@ =~= "$"@ + from_tex@ + "$"@);
        return r;
    }
    let t = text_of_exec(n);
    let fallback = clean_inline_chars(t.as_slice());
    proof {
        reveal_strlit("$");
    }
    if fallback.len() == 0 {
        Vec::new()
    } else {
        let mut r = vec!['$'];
        push_all(&mut r, fallback.as_slice());
        r.push('$');
        assert(r@ =~= "$"@ + fallback@ + "$"@);
        r
    }
}

fn lit_chars(s: &str) -> (v: Vec<char>)
    ensures
        v@ == s@,
{
    chars_of(s)
}

fn surround(a: &str, mid: &Vec<char>, b: &str) -> (r: Vec<char>)
    ensures
        r@ == a@ + mid@ + b@,
{
    let mut r = lit_chars(a);
    push_all(&mut r, mid.as_slice());
    let bv = lit_chars(b);
    push_all(&mut r, bv.as_slice());
    r
}

fn any_class_prefixed_exec(n: &DomNode, p: &str) -> (b: bool)
    ensures
        b == any_class_prefixed(n@, p@),
{
    let pv = chars_of(p);
    let mut k: usize = 0;
    while k < n.classes.len()
        invariant
            k <= n.classes.len(),
            pv@ == p@,
            forall|j: int| 0 <= j < k ==> !starts_with(#[trigger] n@.classes[j], p@),
        decreases n.classes.len() - k,
    {
        let c = chars_of(n.classes[k].as_str());
        assert(n@.classes[k as int] == c@);
        if starts_with_exec(c.as_slice(), pv.as_slice()) {
            return true;
        }
        k = k + 1;
    }
    false
}

fn inline_text_exec(n: &DomNode, rm: bool) -> (r: Vec<char>)
    ensures
        r@ == inline_text(n@, rm),
    decreases n, 1int,
{
    proof {
        lemma_dom_children(*n);
    }
    let raw = inline_children_exec(&n.children, rm);
    clean_inline_chars(raw.as_slice())
}

fn inline_children_exec(ns: &Vec<DomNode>, rm: bool) -> (r: Vec<char>)
    ensures
        r@ == inline_children(node_models(ns@), rm),
    decreases ns, 3int,
{
    let ghost all = node_models(ns@);
    proof {
        lemma_node_models(ns@);
        lemma_sub_ends(all);
    }
    let mut out: Vec<char> = Vec::new();
    let mut i: usize = 0;
    while i < ns.len()
        invariant
            i <= ns.len(),
            all == node_models(ns@),
            all.len() == ns@.len(),
            out@ + inline_children(all.subrange(i as int, all.len() as int), rm) == inline_children(
                all,
                rm,
            ),
        decreases ns.len() - i,
    {
        let ghost prev = out@;
        let piece = inline_node_exec(&ns[i], rm);
        push_all(&mut out, piece.as_slice());
        proof {
            lemma_sub_step(all, i as int);
            assert(out@ + inline_children(all.subrange(i + 1, all.len() as int), rm) =~= prev
                + inline_children(all.subrange(i as int, all.len() as int), rm));
        }
        i = i + 1;
    }
    assert(out@ + Seq::<char>::empty() =~= out@);
    out
}

fn inline_node_exec(n: &DomNode, rm: bool) -> (r: Vec<char>)
    ensures
        r@ == inline_node(n@, rm),
    decreases n, 2int,
{
    match n.kind {
        DomKind::Text => chars_of(n.text.as_str()),
        DomKind::Other => Vec::new(),
        DomKind::Element => {
            let name = chars_of(n.name.as_str());
            if eq_lit(&name, "br") {
                let r = vec!['\n'];
                assert(r@ =~= seq!['\n']);
                r
            } else if eq_lit(&name, "em") || eq_lit(&name, "i") {
                let t = inline_text_exec(n, rm);
                surround("*", &t, "*")
            } else if eq_lit(&name, "strong") || eq_lit(&name, "b") {
                let t = inline_text_exec(n, rm);
                surround("**", &t, "**")
            } else if eq_lit(&name, "a") {
                let t = inline_text_exec(n, rm);
                let href: Vec<char> = match &n.href {
                    Some(h) => chars_of(h.as_str()),
                    None => Vec::new(),
                };
                if is_citation_link(&href) {
                    if rm {
                        Vec::new()
                    } else {
                        t
                    }
                } else if is_internal_paper_link(&href) {
                    t
                } else if href.len() == 0 || t.len() == 0 {
                    t
                } else {
                    let mut r = surround("[", &t, "](");
                    push_all(&mut r, href.as_slice());
                    let close = lit_chars(")");
                    push_all(&mut r, close.as_slice());
                    r
                }
            } else if eq_lit(&name, "cite") {
                if rm && any_class_prefixed_exec(n, "ltx_cite") {
                    Vec::new()
                } else {
                    inline_text_exec(n, rm)
                }
            } else if eq_lit(&name, "sup") {
                let t = inline_text_exec(n, rm);
                if t.len() == 0 {
                    Vec::new()
                } else {
                    let mut r = lit_chars("^");
                    push_all(&mut r, t.as_slice());
                    r
                }
            } else if eq_lit(&name, "math") {
                math_text_exec(n)
            } else {
                inline_text_exec(n, rm)
            }
        },
    }
}

fn is_list_exec(n: &DomNode) -> (b: bool)
    ensures
        b == is_list(n@),
{
    is_named_exec(n, "ul") || is_named_exec(n, "ol")
}

fn is_cell_exec(n: &DomNode) -> (b: bool)
    ensures
        b == is_cell(n@),
{
    is_named_exec(n, "th") || is_named_exec(n, "td")
}

fn list_lines_exec(n: &DomNode, prefix: &Vec<char>, Ghost(indent): Ghost<nat>, rm: bool) -> (r: Vec<
    Vec<char>,
>)
    requires
        prefix@ == repeat(seq![' ', ' '], indent),
    ensures
        vviews(r@) == list_lines(n@, indent, rm),
    decreases n, 2int,
{
    proof {
        lemma_dom_children(*n);
    }
    li_lines_exec(&n.children, prefix, Ghost(indent), rm)
}

fn li_lines_exec(ns: &Vec<DomNode>, prefix: &Vec<char>, Ghost(indent): Ghost<nat>, rm: bool) -> (r: Vec<
    Vec<char>,
>)
    requires
        prefix@ == repeat(seq![' ', ' '], indent),
    ensures
        vviews(r@) == li_lines(node_models(ns@), indent, rm),
    decreases ns, 3int,
{
    let ghost all = node_models(ns@);
    proof {
        lemma_node_models(ns@);
        lemma_sub_ends(all);
    }
    let mut out: Vec<Vec<char>> = Vec::new();
    let mut i: usize = 0;
    while i < ns.len()
        invariant
            i <= ns.len(),
            all == node_models(ns@),
            all.len() == ns@.len(),
            prefix@ == repeat(seq![' ', ' '], indent),
            vviews(out@) + li_lines(all.subrange(i as int, all.len() as int), indent, rm)
                == li_lines(all, indent, rm),
        decreases ns.len() - i,
    {
        let ghost prev = vviews(out@);
        if is_named_exec(&ns[i], "li") {
            let more = item_lines_exec(&ns[i], prefix, Ghost(indent), rm);
            append_vecs(&mut out, more);
        }
        proof {
            lemma_sub_step(all, i as int);
            assert(vviews(out@) + li_lines(all.subrange(i + 1, all.len() as int), indent, rm)
                =~= prev + li_lines(all.subrange(i as int, all.len() as int), indent, rm));
        }
        i = i + 1;
    }
    assert(vviews(out@) + Seq::<Seq<char>>::empty() =~= vviews(out@));
    out
}

fn item_lines_exec(li: &DomNode, prefix: &Vec<char>, Ghost(indent): Ghost<nat>, rm: bool) -> (r: Vec<
    Vec<char>,
>)
    requires
        prefix@ == repeat(seq![' ', ' '], indent),
    ensures
        vviews(r@) == item_lines(li@, indent, rm),
    decreases li, 2int,
{
    proof {
        lemma_dom_children(*li);
    }
    let raw = item_inline_exec(&li.children, rm);
    let text = clean_inline_chars(raw.as_slice());
    let mut line = copy_range(prefix.as_slice(), 0, prefix.len());
    line.push('-');
    line.push(' ');
    push_all(&mut line, text.as_slice());
    proof {
        reveal_strlit("- ");
        assert(prefix@.subrange(0, prefix@.len() as int) =~= prefix@);
    }
    assert(line@ =~= repeat(seq![' ', ' '], indent) + "- "@ + clean_inline(
        item_inline(li@.children, rm),
    ));
    let mut child_prefix = copy_range(prefix.as_slice(), 0, prefix.len());
    child_prefix.push(' ');
    child_prefix.push(' ');
    assert(child_prefix@ =~= repeat(seq![' ', ' '], indent + 1));
    let mut out: Vec<Vec<char>> = Vec::new();
    push_vec(&mut out, line);
    let nested = nested_lists_exec(&li.children, &child_prefix, Ghost(indent + 1), rm);
    append_vecs(&mut out, nested);
    out
}

fn item_inline_exec(ns: &Vec<DomNode>, rm: bool) -> (r: Vec<char>)
    ensures
        r@ == item_inline(node_models(ns@), rm),
    decreases ns, 3int,
{
    let ghost all = node_models(ns@);
    proof {
        lemma_node_models(ns@);
        lemma_sub_ends(all);
    }
    let mut out: Vec<char> = Vec::new();
    let mut i: usize = 0;
    while i < ns.len()
        invariant
            i <= ns.len(),
            all == node_models(ns@),
            all.len() == ns@.len(),
            out@ + item_inline(all.subrange(i as int, all.len() as int), rm) == item_inline(all, rm),
        decreases ns.len() - i,
    {
        let ghost prev = out@;
        if !is_list_exec(&ns[i]) {
            let piece = inline_node_exec(&ns[i], rm);
            push_all(&mut out, piece.as_slice());
        }
        proof {
            lemma_sub_step(all, i as int);
            assert(out@ + item_inline(all.subrange(i + 1, all.len() as int), rm) =~= prev
                + item_inline(all.subrange(i as int, all.len() as int), rm));
        }
        i = i + 1;
    }
    assert(out@ + Seq::<char>::empty() =~= out@);
    out
}

fn nested_lists_exec(ns: &Vec<DomNode>, prefix: &Vec<char>, Ghost(indent): Ghost<nat>, rm: bool) -> (r: Vec<
    Vec<char>,
>)
    requires
        prefix@ == repeat(seq![' ', ' '], indent),
    ensures
        vviews(r@) == nested_lists(node_models(ns@), indent, rm),
    decreases ns, 3int,
{
    let ghost all = node_models(ns@);
    proof {
        lemma_node_models(ns@);
        lemma_sub_ends(all);
    }
    let mut out: Vec<Vec<char>> = Vec::new();
    let mut i: usize = 0;
    while i < ns.len()
        invariant
            i <= ns.len(),
            all == node_models(ns@),
            all.len() == ns@.len(),
            prefix@ == repeat(seq![' ', ' '], indent),
            vviews(out@) + nested_lists(all.subrange(i as int, all.len() as int), indent, rm)
                == nested_lists(all, indent, rm),
        decreases ns.len() - i,
    {
        let ghost prev = vviews(out@);
        if is_list_exec(&ns[i]) {
            let more = list_lines_exec(&ns[i], prefix, Ghost(indent), rm);
            append_vecs(&mut out, more);
        }
        proof {
            lemma_dom_children(ns@[i as int]);
        }
        let inner = nested_lists_exec(&ns[i].children, prefix, Ghost(indent), rm);
        append_vecs(&mut out, inner);
        proof {
            lemma_sub_step(all, i as int);
            assert(vviews(out@) + nested_lists(all.subrange(i + 1, all.len() as int), indent, rm)
                =~= prev + nested_lists(all.subrange(i as int, all.len() as int), indent, rm));
        }
        i = i + 1;
    }
    assert(vviews(out@) + Seq::<Seq<char>>::empty() =~= vviews(out@));
    out
}

/// The views of rows of cells.
pub open spec fn rows_view(rows: Seq<Vec<Vec<char>>>) -> Seq<Seq<Seq<char>>> {
    rows.map_values(|r: Vec<Vec<char>>| vviews(r@))
}

fn br_exec(s: &Vec<char>) -> (r: Vec<char>)
    ensures
        r@ == br_from(s@, 0),
{
    let br = lit_chars("<br>");
    let mut out: Vec<char> = Vec::new();
    let mut i: usize = 0;
    while i < s.len()
        invariant
            i <= s.len(),
            br@ == "<br>"@,
            out@ + br_from(s@, i as int) == br_from(s@, 0),
        decreases s.len() - i,
    {
        let ghost prev = out@;
        if s[i] == '\n' {
            push_all(&mut out, br.as_slice());
        } else {
            out.push(s[i]);
        }
        assert(out@ + br_from(s@, i + 1) =~= prev + br_from(s@, i as int));
        i = i + 1;
    }
    assert(out@ + Seq::<char>::empty() =~= out@);
    out
}

fn cell_values_exec(ns: &Vec<DomNode>, rm: bool) -> (r: Vec<Vec<char>>)
    ensures
        vviews(r@) == cell_values(node_models(ns@), rm),
    decreases ns, 3int,
{
    let ghost all = node_models(ns@);
    proof {
        lemma_node_models(ns@);
        lemma_sub_ends(all);
    }
    let mut out: Vec<Vec<char>> = Vec::new();
    let mut i: usize = 0;
    while i < ns.len()
        invariant
            i <= ns.len(),
            all == node_models(ns@),
            all.len() == ns@.len(),
            vviews(out@) + cell_values(all.subrange(i as int, all.len() as int), rm) == cell_values(
                all,
                rm,
            ),
        decreases ns.len() - i,
    {
        let ghost prev = vviews(out@);
        if is_cell_exec(&ns[i]) {
            let t = inline_text_exec(&ns[i], rm);
            push_vec(&mut out, br_exec(&t));
        }
        proof {
            lemma_dom_children(ns@[i as int]);
        }
        let inner = cell_values_exec(&ns[i].children, rm);
        append_vecs(&mut out, inner);
        proof {
            lemma_sub_step(all, i as int);
            assert(vviews(out@) + cell_values(all.subrange(i + 1, all.len() as int), rm) =~= prev
                + cell_values(all.subrange(i as int, all.len() as int), rm));
        }
        i = i + 1;
    }
    assert(vviews(out@) + Seq::<Seq<char>>::empty() =~= vviews(out@));
    out
}

fn table_rows_exec(ns: &Vec<DomNode>, rm: bool) -> (r: Vec<Vec<Vec<char>>>)
    ensures
        rows_view(r@) == table_rows(node_models(ns@), rm),
    decreases ns, 3int,
{
    let ghost all = node_models(ns@);
    proof {
        lemma_node_models(ns@);
        lemma_sub_ends(all);
    }
    let mut out: Vec<Vec<Vec<char>>> = Vec::new();
    let mut i: usize = 0;
    while i < ns.len()
        invariant
            i <= ns.len(),
            all == node_models(ns@),
            all.len() == ns@.len(),
            rows_view(out@) + table_rows(all.subrange(i as int, all.len() as int), rm) == table_rows(
                all,
                rm,
            ),
        decreases ns.len() - i,
    {
        let ghost prev = rows_view(out@);
        proof {
            lemma_dom_children(ns@[i as int]);
        }
        if is_named_exec(&ns[i], "tr") {
            let v = cell_values_exec(&ns[i].children, rm);
            if v.len() > 0 {
                let ghost vv = vviews(v@);
                out.push(v);
                assert(rows_view(out@) =~= prev.push(vv));
            }
        }
        let ghost mid = rows_view(out@);
        let inner = table_rows_exec(&ns[i].children, rm);
        let mut k: usize = 0;
        let ghost iv = rows_view(inner@);
        let mut inner = inner;
        while k < inner.len()
            invariant
                k <= inner.len(),
                iv == rows_view(inner@),
                rows_view(out@) == mid + iv.take(k as int),
            decreases inner.len() - k,
        {
            let ghost before = rows_view(out@);
            let mut row: Vec<Vec<char>> = Vec::new();
            append_vecs(&mut row, copy_rows_row(&inner[k]));
            out.push(row);
            assert(rows_view(out@) =~= before.push(iv[k as int]));
            k = k + 1;
            assert(iv.take(k as int) =~= iv.take(k - 1).push(iv[k - 1]));
        }
        assert(iv.take(inner.len() as int) =~= iv);
        proof {
            lemma_sub_step(all, i as int);
            assert(rows_view(out@) + table_rows(all.subrange(i + 1, all.len() as int), rm) =~= prev
                + table_rows(all.subrange(i as int, all.len() as int), rm));
        }
        i = i + 1;
    }
    assert(rows_view(out@) + Seq::<Seq<Seq<char>>>::empty() =~= rows_view(out@));
    out
}

fn copy_rows_row(row: &Vec<Vec<char>>) -> (r: Vec<Vec<char>>)
    ensures
        vviews(r@) == vviews(row@),
{
    let mut out: Vec<Vec<char>> = Vec::new();
    let mut i: usize = 0;
    while i < row.len()
        invariant
            i <= row.len(),
            vviews(out@) == vviews(row@).take(i as int),
        decreases row.len() - i,
    {
        push_vec(&mut out, copy_range(row[i].as_slice(), 0, row[i].len()));
        assert(row@[i as int]@.subrange(0, row@[i as int]@.len() as int) =~= row@[i as int]@);
        i = i + 1;
        assert(vviews(row@).take(i as int) =~= vviews(row@).take(i - 1).push(vviews(row@)[i - 1]));
    }
    assert(vviews(row@).take(row.len() as int) =~= vviews(row@));
    out
}

fn max_cells_exec(rows: &Vec<Vec<Vec<char>>>) -> (r: usize)
    ensures
        r == max_cells(rows_view(rows@)),
{
    let ghost rv = rows_view(rows@);
    let mut m: usize = 0;
    let mut i: usize = rows.len();
    proof {
        lemma_sub_ends(rv);
    }
    while i > 0
        invariant
            i <= rows.len(),
            rv == rows_view(rows@),
            rv.len() == rows@.len(),
            m == max_cells(rv.subrange(i as int, rv.len() as int)),
        decreases i,
    {
        i = i - 1;
        proof {
            lemma_sub_step(rv, i as int);
            assert(rv[i as int].len() == rows@[i as int].len());
        }
        if rows[i].len() > m {
            m = rows[i].len();
        }
    }
    m
}

fn table_line_exec(row: &Vec<Vec<char>>, n: usize) -> (r: Vec<char>)
    ensures
        r@ == table_line(padded(vviews(row@), n as nat)),
{
    let mut cells = copy_rows_row(row);
    let ghost start = vviews(cells@);
    while cells.len() < n
        invariant
            vviews(row@) == start,
            start.len() == row@.len(),
            cells@.len() <= n || cells@.len() == row@.len(),
            vviews(cells@) == start + Seq::new((cells@.len() - start.len()) as nat, |i: int| Seq::<char>::empty()),
            cells@.len() >= start.len(),
        decreases n - cells.len(),
    {
        let ghost before = vviews(cells@);
        push_vec(&mut cells, Vec::new());
        assert(vviews(cells@) =~= start + Seq::new((cells@.len() - start.len()) as nat, |i: int| Seq::<char>::empty()));
    }
    proof {
        if start.len() >= n {
            assert(vviews(cells@) =~= start);
        }
        assert(vviews(cells@) =~= padded(start, n as nat));
    }
    let sep = lit_chars(" | ");
    let joined = join_exec(&cells, sep.as_slice());
    surround("| ", &joined, " |")
}

fn markdown_table_exec(rows: &Vec<Vec<Vec<char>>>) -> (r: Vec<char>)
    ensures
        r@ == markdown_table(rows_view(rows@)),
{
    let ghost rv = rows_view(rows@);
    let n = max_cells_exec(rows);
    if rows.len() == 0 || n == 0 {
        return Vec::new();
    }
    let mut lines: Vec<Vec<char>> = Vec::new();
    assert(rv[0] == vviews(rows@[0]@));
    push_vec(&mut lines, table_line_exec(&rows[0], n));
    let mut rule_cells: Vec<Vec<char>> = Vec::new();
    let mut k: usize = 0;
    while k < n
        invariant
            k <= n,
            vviews(rule_cells@) == Seq::new(k as nat, |i: int| "---"@),
        decreases n - k,
    {
        push_vec(&mut rule_cells, lit_chars("---"));
        k = k + 1;
        assert(vviews(rule_cells@) =~= Seq::new(k as nat, |i: int| "---"@));
    }
    let rule_line = table_line_exec(&rule_cells, n);
    assert(padded(Seq::new(n as nat, |i: int| "---"@), n as nat) == Seq::new(n as nat, |i: int| "---"@));
    push_vec(&mut lines, rule_line);
    let ghost body = rv.drop_first().map_values(|r: Seq<Seq<char>>| table_line(padded(r, n as nat)));
    let mut j: usize = 1;
    while j < rows.len()
        invariant
            1 <= j <= rows.len(),
            rv == rows_view(rows@),
            rv.len() == rows@.len(),
            body == rv.drop_first().map_values(|r: Seq<Seq<char>>| table_line(padded(r, n as nat))),
            vviews(lines@) == seq![
                table_line(padded(rv[0], n as nat)),
                table_line(Seq::new(n as nat, |i: int| "---"@)),
            ] + body.take(j - 1),
        decreases rows.len() - j,
    {
        let ghost before = vviews(lines@);
        assert(rv[j as int] == vviews(rows@[j as int]@));
        push_vec(&mut lines, table_line_exec(&rows[j], n));
        j = j + 1;
        assert(body.take(j - 1) =~= body.take(j - 2).push(body[j - 2]));
    }
    assert(body.take(rows.len() - 1) =~= body);
    let nl = vec!['\n'];
    assert(nl@ =~= seq!['\n']);
    join_exec(&lines, nl.as_slice())
}

fn table_text_exec(n: &DomNode, rm: bool) -> (r: Vec<char>)
    ensures
        r@ == table_text(n@, rm),
    decreases n, 2int,
{
    if contains_str(&n.classes, "ltx_equationgroup") || contains_str(&n.classes, "ltx_eqn_align")
        || contains_str(&n.classes, "ltx_eqn_table") {
        let t = text_of_exec(n);
        let c = normalize_ws_chars(t.as_slice());
        if c.len() == 0 {
            return Vec::new();
        }
        return surround("$$ ", &c, " $$");
    }
    proof {
        lemma_dom_children(*n);
    }
    let rows = table_rows_exec(&n.children, rm);
    markdown_table_exec(&rows)
}

fn heading_block(n: &DomNode, name: &Vec<char>) -> (r: Vec<Vec<char>>)
    requires
        n@.kind == DomKind::Element,
        name@ == n@.name,
        is_heading_name(name@),
    ensures
        vviews(r@) == ({
            let lvl = if heading_number(name@) < 2 {
                2
            } else {
                heading_number(name@)
            };
            let title = normalize_ws(text_of(n@));
            if title.len() == 0 {
                Seq::<Seq<char>>::empty()
            } else {
                seq![repeat(seq!['#'], lvl) + seq![' '] + title]
            }
        }),
{
    let d: u32 = (name[1] as u32) - ('0' as u32);
    let lvl: usize = if d < 2 {
        2
    } else {
        d as usize
    };
    assert(d as nat == heading_number(name@));
    let ghost slvl = if heading_number(name@) < 2 {
        2
    } else {
        heading_number(name@)
    };
    assert(lvl as nat == slvl);
    let t = text_of_exec(n);
    let title = normalize_ws_chars(t.as_slice());
    let mut out: Vec<Vec<char>> = Vec::new();
    if title.len() > 0 {
        let mut line: Vec<char> = Vec::new();
        let hash = vec!['#'];
        assert(hash@ =~= seq!['#']);
        push_repeat(&mut line, hash.as_slice(), lvl);
        line.push(' ');
        push_all(&mut line, title.as_slice());
        assert(line@ =~= repeat(seq!['#'], slvl) + seq![' '] + title@);
        push_vec(&mut out, line);
        assert(vviews(out@) =~= seq![repeat(seq!['#'], slvl) + seq![' '] + title@]);
    } else {
        assert(vviews(out@) =~= Seq::<Seq<char>>::empty());
    }
    out
}

fn node_blocks_exec(n: &DomNode, rm: bool) -> (r: Vec<Vec<char>>)
    ensures
        vviews(r@) == node_blocks(n@, rm),
    decreases n, 3int,
{
    proof {
        lemma_dom_children(*n);
    }
    match n.kind {
        DomKind::Text => {
            let t = chars_of(n.text.as_str());
            let c = normalize_ws_chars(t.as_slice());
            let mut out: Vec<Vec<char>> = Vec::new();
            if c.len() > 0 {
                push_vec(&mut out, c);
            }
            out
        },
        DomKind::Other => Vec::new(),
        DomKind::Element => {
            let name = chars_of(n.name.as_str());
            if eq_lit(&name, "script") || eq_lit(&name, "style") || eq_lit(&name, "nav") || eq_lit(
                &name,
                "noscript",
            ) || eq_lit(&name, "meta") || eq_lit(&name, "link") {
                Vec::new()
            } else if eq_lit(&name, "section") || eq_lit(&name, "article") || eq_lit(&name, "div")
                || eq_lit(&name, "span") {
                children_blocks_exec(&n.children, rm)
            } else if name.len() == 2 && name[0] == 'h' && '1' <= name[1] && name[1] <= '6' {
                heading_block(n, &name)
            } else if eq_lit(&name, "p") {
                let t = inline_text_exec(n, rm);
                let mut out: Vec<Vec<char>> = Vec::new();
                if t.len() > 0 {
                    push_vec(&mut out, t);
                }
                out
            } else if eq_lit(&name, "ul") || eq_lit(&name, "ol") {
                let prefix: Vec<char> = Vec::new();
                assert(prefix@ =~= repeat(seq![' ', ' '], 0));
                let lines = list_lines_exec(n, &prefix, Ghost(0), rm);
                let mut out: Vec<Vec<char>> = Vec::new();
                if lines.len() > 0 {
                    let nl = vec!['\n'];
                    assert(nl@ =~= seq!['\n']);
                    push_vec(&mut out, join_exec(&lines, nl.as_slice()));
                }
                out
            } else if eq_lit(&name, "figure") {
                let blocks = children_blocks_exec(&n.children, rm);
                let ghost bv = vviews(blocks@);
                let mut out: Vec<Vec<char>> = Vec::new();
                let mut k: usize = 0;
                while k < blocks.len()
                    invariant
                        k <= blocks.len(),
                        bv == vviews(blocks@),
                        vviews(out@) == bv.take(k as int).filter(|b: Seq<char>| trim(b).len() > 0),
                    decreases blocks.len() - k,
                {
                    proof {
                        reveal_with_fuel(Seq::filter, 1);
                        assert(bv.take(k + 1).drop_last() =~= bv.take(k as int));
                    }
                    let t = trim_chars(blocks[k].as_slice());
                    if t.len() > 0 {
                        let b = copy_range(blocks[k].as_slice(), 0, blocks[k].len());
                        assert(b@ =~= bv[k as int]);
                        push_vec(&mut out, b);
                    }
                    k = k + 1;
                }
                assert(bv.take(blocks.len() as int) =~= bv);
                out
            } else if eq_lit(&name, "table") {
                let t = table_text_exec(n, rm);
                let mut out: Vec<Vec<char>> = Vec::new();
                if t.len() > 0 {
                    push_vec(&mut out, t);
                }
                out
            } else if eq_lit(&name, "blockquote") {
                let t = inline_text_exec(n, rm);
                let mut out: Vec<Vec<char>> = Vec::new();
                if t.len() > 0 {
                    let mut q = lit_chars("> ");
                    push_all(&mut q, t.as_slice());
                    push_vec(&mut out, q);
                }
                out
            } else if eq_lit(&name, "figcaption") {
                let t = inline_text_exec(n, rm);
                let mut out: Vec<Vec<char>> = Vec::new();
                if t.len() > 0 {
                    push_vec(&mut out, surround("_", &t, "_"));
                }
                out
            } else {
                children_blocks_exec(&n.children, rm)
            }
        },
    }
}

fn children_blocks_exec(ns: &Vec<DomNode>, rm: bool) -> (r: Vec<Vec<char>>)
    ensures
        vviews(r@) == children_blocks(node_models(ns@), rm),
    decreases ns, 3int,
{
    let ghost all = node_models(ns@);
    proof {
        lemma_node_models(ns@);
        lemma_sub_ends(all);
    }
    let mut out: Vec<Vec<char>> = Vec::new();
    let mut i: usize = 0;
    while i < ns.len()
        invariant
            i <= ns.len(),
            all == node_models(ns@),
            all.len() == ns@.len(),
            vviews(out@) + children_blocks(all.subrange(i as int, all.len() as int), rm)
                == children_blocks(all, rm),
        decreases ns.len() - i,
    {
        let ghost prev = vviews(out@);
        let more = node_blocks_exec(&ns[i], rm);
        append_vecs(&mut out, more);
        proof {
            lemma_sub_step(all, i as int);
            assert(vviews(out@) + children_blocks(all.subrange(i + 1, all.len() as int), rm)
                =~= prev + children_blocks(all.subrange(i as int, all.len() as int), rm));
        }
        i = i + 1;
    }
    assert(vviews(out@) + Seq::<Seq<char>>::empty() =~= vviews(out@));
    out
}

// -------------------------------------------------------------- fragments

/// The Markdown of the trees of a walk: the blocks of the children of its
/// first tree (the fragment's root), separated by blank lines, blank lines
/// collapsed.
pub open spec fn walk_markdown(ev: Seq<EventModel>, rm: bool) -> Seq<char> {
    let f = forest_of(ev, 0, ev.len() as int);
    let blocks = if f.len() > 0 {
        children_blocks(f[0].children, rm)
    } else {
        Seq::empty()
    };
    crate::markdown::collapse_spec(join(blocks, "\n\n"@))
}

/// The Markdown of an HTML fragment, over the tree that
/// `scraper::Html::parse_fragment` builds from it.
pub open spec fn fragment_markdown(html: Seq<char>, rm: bool) -> Seq<char> {
    walk_markdown(fragment_events(html), rm)
}

/// The Markdown of a fragment given as the walk of its tree: see
/// `walk_markdown`.
pub fn markdown_from_events(events: &Vec<DomEvent>, remove_inline_citations: bool) -> (r: String)
    ensures
        r@ == walk_markdown(event_models(events@), remove_inline_citations),
{
    let forest = build_dom(events);
    proof {
        lemma_node_models(forest@);
    }
    let blocks = if forest.len() > 0 {
        proof {
            lemma_dom_children(forest@[0]);
        }
        children_blocks_exec(&forest[0].children, remove_inline_citations)
    } else {
        Vec::new()
    };
    let sep = lit_chars("\n\n");
    let joined = join_exec(&blocks, sep.as_slice());
    let c = crate::markdown::collapse_chars(joined.as_slice());
    string_of(c.as_slice())
}

/// `convert_fragment_to_markdown`: see `fragment_markdown`.
pub fn convert_fragment_to_markdown(html: &str, remove_inline_citations: bool) -> (r: String)
    ensures
        r@ == fragment_markdown(html@, remove_inline_citations),
{
    let events = parse_fragment_events(html);
    markdown_from_events(&events, remove_inline_citations)
}

// ----------------------------------------------------------------- visits

/// What is known of a node's ancestors: whether one is a `nav` element,
/// whether one has the class `ltx_abstract`, and the nearest `section`.
pub ghost struct Ctx {
    pub in_nav: bool,
    pub in_abstract: bool,
    pub section: Option<NodeModel>,
}

pub ghost struct Visit {
    pub node: NodeModel,
    pub ctx: Ctx,
}

pub open spec fn top_ctx() -> Ctx {
    Ctx { in_nav: false, in_abstract: false, section: None }
}

/// The context of the children of `n`.
pub open spec fn enter(ctx: Ctx, n: NodeModel) -> Ctx {
    Ctx {
        in_nav: ctx.in_nav || named(n, "nav"@),
        in_abstract: ctx.in_abstract || has_class(n, "ltx_abstract"@),
        section: if named(n, "section"@) {
            Some(n)
        } else {
            ctx.section
        },
    }
}

/// The nodes of a forest in document order, each with its context.
pub open spec fn visits(ns: Seq<NodeModel>, ctx: Ctx) -> Seq<Visit>
    decreases ns,
{
    if ns.len() == 0 {
        Seq::empty()
    } else {
        seq![Visit { node: ns[0], ctx }] + visits(ns[0].children, enter(ctx, ns[0])) + visits(
            ns.drop_first(),
            ctx,
        )
    }
}

/// The elements the document-level lookups ask for.
#[derive(Debug, Clone, Copy, PartialEq, Eq, Structural)]
pub enum Query {
    /// `article.ltx_document`
    DocumentArticle,
    /// `article`
    Article,
    /// `body`
    Body,
    /// `.ltx_abstract`
    Abstract,
    /// `.ltx_section`
    Section,
    /// `h1.ltx_title_document, h1.ltx_title`
    Title,
    /// `div.ltx_authors`
    Authors,
}

pub open spec fn is_document_article(n: NodeModel) -> bool {
    named(n, "article"@) && has_class(n, "ltx_document"@)
}

pub open spec fn is_title_heading(n: NodeModel) -> bool {
    named(n, "h1"@) && (has_class(n, "ltx_title_document"@) || has_class(n, "ltx_title"@))
}

pub open spec fn is_authors_block(n: NodeModel) -> bool {
    named(n, "div"@) && has_class(n, "ltx_authors"@)
}

/// `n` is an element that `q` asks for.
pub open spec fn answers(q: Query, n: NodeModel) -> bool {
    match q {
        Query::DocumentArticle => is_document_article(n),
        Query::Article => named(n, "article"@),
        Query::Body => named(n, "body"@),
        Query::Abstract => has_class(n, "ltx_abstract"@),
        Query::Section => has_class(n, "ltx_section"@),
        Query::Title => is_title_heading(n),
        Query::Authors => is_authors_block(n),
    }
}

/// The first visit from `i` whose node `q` asks for.
pub open spec fn first_visit(vs: Seq<Visit>, q: Query, i: int) -> Option<int>
    decreases vs.len() - i,
{
    if i < 0 || i >= vs.len() {
        None
    } else if answers(q, vs[i].node) {
        Some(i)
    } else {
        first_visit(vs, q, i + 1)
    }
}

pub proof fn lemma_first_visit(vs: Seq<Visit>, q: Query, i: int)
    requires
        0 <= i,
    ensures
        first_visit(vs, q, i) matches Some(k) ==> i <= k < vs.len() && answers(q, vs[k].node),
    decreases vs.len() - i,
{
    if i < vs.len() && !answers(q, vs[i].node) {
        lemma_first_visit(vs, q, i + 1);
    }
}

/// The visit of the element the sections are read from: the first
/// `article.ltx_document`, else the first `article`, else the first `body`.
pub open spec fn root_visit(vs: Seq<Visit>) -> Option<int> {
    match first_visit(vs, Query::DocumentArticle, 0) {
        Some(i) => Some(i),
        None => match first_visit(vs, Query::Article, 0) {
            Some(i) => Some(i),
            None => first_visit(vs, Query::Body, 0),
        },
    }
}

/// The page is LaTeXML output: it has an `article.ltx_document`, an
/// `.ltx_abstract` or an `.ltx_section`.
pub open spec fn looks_like_arxiv_html(vs: Seq<Visit>) -> bool {
    first_visit(vs, Query::DocumentArticle, 0) is Some || first_visit(vs, Query::Abstract, 0) is Some
        || first_visit(vs, Query::Section, 0) is Some
}

/// The tidied text of the first node that `q` asks for.
pub open spec fn first_text(vs: Seq<Visit>, q: Query) -> Option<Seq<char>> {
    match first_visit(vs, q, 0) {
        Some(i) => Some(normalize_ws(text_of(vs[i].node))),
        None => None,
    }
}

pub struct VisitRef<'a> {
    pub node: &'a DomNode,
    pub in_nav: bool,
    pub in_abstract: bool,
    pub section: Option<&'a DomNode>,
}

pub open spec fn visit_view(v: VisitRef) -> Visit {
    Visit {
        node: v.node@,
        ctx: Ctx {
            in_nav: v.in_nav,
            in_abstract: v.in_abstract,
            section: match v.section {
                Some(s) => Some(s@),
                None => None,
            },
        },
    }
}

pub open spec fn visit_views(v: Seq<VisitRef>) -> Seq<Visit> {
    v.map_values(|x: VisitRef| visit_view(x))
}

fn has_class_exec(n: &DomNode, c: &str) -> (b: bool)
    ensures
        b == has_class(n@, c@),
{
    n.kind == DomKind::Element && contains_str(&n.classes, c)
}

fn collect_visits<'a>(
    ns: &'a Vec<DomNode>,
    in_nav: bool,
    in_abstract: bool,
    section: Option<&'a DomNode>,
    out: &mut Vec<VisitRef<'a>>,
)
    ensures
        visit_views(final(out)@) == visit_views(old(out)@) + visits(
            node_models(ns@),
            Ctx {
                in_nav,
                in_abstract,
                section: match section {
                    Some(s) => Some(s@),
                    None => None,
                },
            },
        ),
    decreases ns,
{
    let ghost ctx = Ctx {
        in_nav,
        in_abstract,
        section: match section {
            Some(s) => Some(s@),
            None => None,
        },
    };
    let ghost all = node_models(ns@);
    let ghost start = visit_views(out@);
    proof {
        lemma_node_models(ns@);
        lemma_sub_ends(all);
    }
    let mut i: usize = 0;
    while i < ns.len()
        invariant
            i <= ns.len(),
            all == node_models(ns@),
            all.len() == ns@.len(),
            ctx == (Ctx {
                in_nav,
                in_abstract,
                section: match section {
                    Some(s) => Some(s@),
                    None => None,
                },
            }),
            visit_views(out@) + visits(all.subrange(i as int, all.len() as int), ctx) == start
                + visits(all, ctx),
        decreases ns.len() - i,
    {
        let ghost prev = visit_views(out@);
        let n = &ns[i];
        out.push(VisitRef { node: n, in_nav, in_abstract, section });
        assert(visit_views(out@) =~= prev.push(Visit { node: n@, ctx }));
        let child_nav = in_nav || is_named_exec(n, "nav");
        let child_abstract = in_abstract || has_class_exec(n, "ltx_abstract");
        let child_section = if is_named_exec(n, "section") {
            Some(n)
        } else {
            section
        };
        proof {
            lemma_dom_children(*n);
        }
        collect_visits(&n.children, child_nav, child_abstract, child_section, out);
        proof {
            lemma_sub_step(all, i as int);
            assert(enter(ctx, n@) == Ctx {
                in_nav: child_nav,
                in_abstract: child_abstract,
                section: match child_section {
                    Some(s) => Some(s@),
                    None => None,
                },
            });
            assert(visit_views(out@) + visits(all.subrange(i + 1, all.len() as int), ctx) =~= prev
                + visits(all.subrange(i as int, all.len() as int), ctx));
        }
        i = i + 1;
    }
    assert(visit_views(out@) + Seq::<Visit>::empty() =~= visit_views(out@));
}

fn answers_exec(q: Query, n: &DomNode) -> (b: bool)
    ensures
        b == answers(q, n@),
{
    match q {
        Query::DocumentArticle => is_named_exec(n, "article") && has_class_exec(n, "ltx_document"),
        Query::Article => is_named_exec(n, "article"),
        Query::Body => is_named_exec(n, "body"),
        Query::Abstract => has_class_exec(n, "ltx_abstract"),
        Query::Section => has_class_exec(n, "ltx_section"),
        Query::Title => is_named_exec(n, "h1") && (has_class_exec(n, "ltx_title_document")
            || has_class_exec(n, "ltx_title")),
        Query::Authors => is_named_exec(n, "div") && has_class_exec(n, "ltx_authors"),
    }
}

/// The position of the first visit whose node `q` asks for.
fn find_visit(vs: &Vec<VisitRef>, q: Query) -> (r: Option<usize>)
    ensures
        match r {
            Some(k) => k < vs@.len() && first_visit(visit_views(vs@), q, 0) == Some(k as int),
            None => first_visit(visit_views(vs@), q, 0) is None,
        },
{
    let ghost vv = visit_views(vs@);
    proof {
        lemma_first_visit(vv, q, 0);
    }
    let mut i: usize = 0;
    while i < vs.len()
        invariant
            i <= vs.len(),
            vv == visit_views(vs@),
            vv.len() == vs@.len(),
            first_visit(vv, q, i as int) == first_visit(vv, q, 0),
        decreases vs.len() - i,
    {
        assert(vv[i as int] == visit_view(vs@[i as int]));
        if answers_exec(q, vs[i].node) {
            return Some(i);
        }
        i = i + 1;
    }
    None
}

/// `first_text`.
fn first_text_exec(vs: &Vec<VisitRef>, q: Query) -> (r: Option<String>)
    ensures
        opt_view(r) == first_text(visit_views(vs@), q),
{
    match find_visit(vs, q) {
        Some(k) => {
            assert(visit_views(vs@)[k as int] == visit_view(vs@[k as int]));
            let t = text_of_exec(vs[k].node);
            let n = normalize_ws_chars(t.as_slice());
            Some(string_of(n.as_slice()))
        },
        None => None,
    }
}

// ---------------------------------------------------------------- authors

/// The texts of the `span` elements of a forest, in document order.
pub open spec fn span_texts(ns: Seq<NodeModel>) -> Seq<Seq<char>>
    decreases ns,
{
    if ns.len() == 0 {
        Seq::empty()
    } else {
        (if named(ns[0], "span"@) {
            seq![text_of(ns[0])]
        } else {
            Seq::empty()
        }) + span_texts(ns[0].children) + span_texts(ns.drop_first())
    }
}

/// `s` without the `&` characters it starts with.
pub open spec fn strip_amps(s: Seq<char>) -> Seq<char>
    decreases s.len(),
{
    if s.len() > 0 && s[0] == '&' {
        strip_amps(s.drop_first())
    } else {
        s
    }
}

/// One line of an author block, trimmed, without leading `&`, its
/// whitespace normalized.
pub open spec fn author_value(line: Seq<char>) -> Seq<char> {
    normalize_ws(strip_amps(trim(line)))
}

pub open spec fn all_ascii_digits(s: Seq<char>) -> bool {
    forall|k: int| 0 <= k < s.len() ==> is_ascii_digit(#[trigger] s[k])
}

/// The pattern of an e-mail address.
pub open spec fn email_pattern() -> Seq<char> {
    "^[\\w.+-]+@[\\w.-]+\\.\\w+$"@
}

/// The name of what `regex::Regex::new(pattern)` and `Regex::is_match` give
/// for `text`: `None` when the pattern does not compile, else whether it
/// matches.
pub uninterp spec fn regex_match(pattern: Seq<char>, text: Seq<char>) -> Option<bool>;

/// Compiles `pattern` with `regex::Regex::new` and, when it compiles, asks
/// `Regex::is_match` whether it matches `text`. The contract only names the
/// result; which texts a pattern matches is not stated.
#[verifier::external_body]
fn regex_is_match(pattern: &str, text: &str) -> (r: Option<bool>)
    ensures
        r == regex_match(pattern@, text@),
{
    match regex::Regex::new(pattern) {
        Ok(re) => Some(re.is_match(text)),
        Err(_) => None,
    }
}

/// `value` is an e-mail address (a pattern that does not compile matches
/// nothing).
pub open spec fn email_like(value: Seq<char>) -> bool {
    match regex_match(email_pattern(), value) {
        Some(b) => b,
        None => false,
    }
}

/// A line of an author block names an author: it is not empty, not only
/// ASCII digits, not an e-mail address (`is_email`), its lowercase form
/// (`lower`) holds none of the footnote phrases, and it is at most 80 bytes
/// long in UTF-8.
pub open spec fn author_kept(value: Seq<char>, is_email: bool, lower: Seq<char>) -> bool {
    &&& value.len() > 0
    &&& !all_ascii_digits(value)
    &&& !is_email
    &&& !contains(lower, "equal contribution"@)
    &&& !contains(lower, "footnotemark:"@)
    &&& !contains(lower, "work performed"@)
    &&& !contains(lower, "listing order"@)
    &&& utf8_len(value) <= 80
}

/// The number of bytes of the UTF-8 encoding of a character.
pub open spec fn utf8_width(c: char) -> nat {
    if (c as u32) < 0x80 {
        1
    } else if (c as u32) < 0x800 {
        2
    } else if (c as u32) < 0x10000 {
        3
    } else {
        4
    }
}

/// The length in bytes of the UTF-8 encoding of `s` (what `str::len` gives).
pub open spec fn utf8_len(s: Seq<char>) -> nat
    decreases s.len(),
{
    if s.len() == 0 {
        0
    } else {
        utf8_len(s.drop_last()) + utf8_width(s.last())
    }
}

fn utf8_len_at_most(v: &Vec<char>, limit: usize) -> (b: bool)
    requires
        limit < usize::MAX - 4,
    ensures
        b == (utf8_len(v@) <= limit),
{
    let mut total: usize = 0;
    let mut i: usize = 0;
    while i < v.len()
        invariant
            i <= v.len(),
            limit < usize::MAX - 4,
            total == utf8_len(v@.take(i as int)),
            total <= limit,
        decreases v.len() - i,
    {
        let c = v[i];
        let code = c as u32;
        let w: usize = if code < 0x80 {
            1
        } else if code < 0x800 {
            2
        } else if code < 0x10000 {
            3
        } else {
            4
        };
        assert(v@.take(i + 1).drop_last() =~= v@.take(i as int));
        total = total + w;
        i = i + 1;
        if total > limit {
            proof {
                lemma_utf8_len_prefix(v@, i as int);
            }
            return false;
        }
    }
    assert(v@.take(v.len() as int) =~= v@);
    true
}

proof fn lemma_utf8_len_prefix(s: Seq<char>, i: int)
    requires
        0 <= i <= s.len(),
    ensures
        utf8_len(s.take(i)) <= utf8_len(s),
    decreases s.len() - i,
{
    if i < s.len() {
        lemma_utf8_len_prefix(s, i + 1);
        assert(s.take(i + 1).drop_last() =~= s.take(i));
    } else {
        assert(s.take(i) =~= s);
    }
}

/// Whether a cleaned line of an author block is kept, given whether it is
/// an e-mail address and its lowercase form: see `author_kept`.
pub fn keep_author(value: &str, is_email: bool, lower: &str) -> (b: bool)
    ensures
        b == author_kept(value@, is_email, lower@),
{
    let v = chars_of(value);
    if v.len() == 0 || is_email {
        return false;
    }
    let mut digits = true;
    let mut i: usize = 0;
    while i < v.len()
        invariant
            i <= v.len(),
            digits == (forall|k: int| 0 <= k < i ==> is_ascii_digit(#[trigger] v@[k])),
        decreases v.len() - i,
    {
        if !('0' <= v[i] && v[i] <= '9') {
            digits = false;
        }
        i = i + 1;
    }
    if digits {
        return false;
    }
    let l = chars_of(lower);
    let p1 = chars_of("equal contribution");
    let p2 = chars_of("footnotemark:");
    let p3 = chars_of("work performed");
    let p4 = chars_of("listing order");
    if contains_exec(l.as_slice(), p1.as_slice()) || contains_exec(l.as_slice(), p2.as_slice())
        || contains_exec(l.as_slice(), p3.as_slice()) || contains_exec(
        l.as_slice(),
        p4.as_slice(),
    ) {
        return false;
    }
    utf8_len_at_most(&v, 80)
}

/// The kept author values of the lines `ls[i..]`.
pub open spec fn kept_authors(ls: Seq<Seq<char>>, i: int) -> Seq<Seq<char>>
    decreases ls.len() - i,
{
    if i < 0 || i >= ls.len() {
        Seq::empty()
    } else {
        let v = author_value(ls[i]);
        (if author_kept(v, email_like(v), lowercase(v)) {
            seq![v]
        } else {
            Seq::empty()
        }) + kept_authors(ls, i + 1)
    }
}

/// The author names in the text of one element of an author block.
pub open spec fn author_candidates(raw: Seq<char>) -> Seq<Seq<char>> {
    kept_authors(lines(raw), 0)
}

/// `acc` followed by those of `cands` not seen before, in order.
pub open spec fn add_unique(acc: Seq<Seq<char>>, cands: Seq<Seq<char>>) -> Seq<Seq<char>>
    decreases cands.len(),
{
    if cands.len() == 0 {
        acc
    } else if acc.contains(cands[0]) {
        add_unique(acc, cands.drop_first())
    } else {
        add_unique(acc.push(cands[0]), cands.drop_first())
    }
}

/// The authors of the texts `texts`, each named once, in order of first
/// appearance.
pub open spec fn collect_authors(acc: Seq<Seq<char>>, texts: Seq<Seq<char>>) -> Seq<Seq<char>>
    decreases texts.len(),
{
    if texts.len() == 0 {
        acc
    } else {
        collect_authors(add_unique(acc, author_candidates(texts[0])), texts.drop_first())
    }
}

/// The authors of a page: those named in the `span` elements of its first
/// `div.ltx_authors`.
pub open spec fn authors_of(vs: Seq<Visit>) -> Seq<Seq<char>> {
    match first_visit(vs, Query::Authors, 0) {
        Some(i) => collect_authors(Seq::empty(), span_texts(vs[i].node.children)),
        None => Seq::empty(),
    }
}

fn span_texts_into(n: &DomNode, out: &mut Vec<Vec<char>>)
    ensures
        vviews(final(out)@) == vviews(old(out)@) + span_texts(seq![n@]),
    decreases n,
{
    let ghost start = vviews(old(out)@);
    let ghost own = if named(n@, "span"@) {
        seq![text_of(n@)]
    } else {
        Seq::<Seq<char>>::empty()
    };
    if is_named_exec(n, "span") {
        let t = text_of_exec(n);
        push_vec(out, t);
    }
    assert(vviews(out@) == start + own);
    let ghost kids = n@.children;
    proof {
        lemma_dom_children(*n);
        lemma_node_models(n.children@);
        lemma_sub_ends(kids);
        assert(seq![n@].drop_first() =~= Seq::<NodeModel>::empty());
        assert(span_texts(seq![n@]) == own + span_texts(kids) + span_texts(
            Seq::<NodeModel>::empty(),
        ));
    }
    let mut i: usize = 0;
    while i < n.children.len()
        invariant
            i <= n.children.len(),
            kids == node_models(n.children@),
            kids.len() == n.children@.len(),
            vviews(out@) + span_texts(kids.subrange(i as int, kids.len() as int)) == start + own
                + span_texts(kids),
        decreases n.children.len() - i,
    {
        let ghost prev = vviews(out@);
        span_texts_into(&n.children[i], out);
        proof {
            lemma_sub_step(kids, i as int);
            let c = kids[i as int];
            assert(c == n.children@[i as int]@);
            assert(seq![c].drop_first() =~= Seq::<NodeModel>::empty());
            assert(seq![c][0] == c);
            assert(span_texts(Seq::<NodeModel>::empty()) == Seq::<Seq<char>>::empty());
            assert(span_texts(seq![c]) =~= (if named(c, "span"@) {
                seq![text_of(c)]
            } else {
                Seq::empty()
            }) + span_texts(c.children));
            assert(vviews(out@) + span_texts(kids.subrange(i + 1, kids.len() as int)) =~= prev
                + span_texts(kids.subrange(i as int, kids.len() as int)));
        }
        i = i + 1;
    }
    assert(vviews(out@) =~= start + span_texts(seq![n@]));
}

fn strip_amps_exec(v: &[char]) -> (r: Vec<char>)
    ensures
        r@ == strip_amps(v@),
{
    let mut i: usize = 0;
    assert(v@.subrange(0, v@.len() as int) =~= v@);
    while i < v.len() && v[i] == '&'
        invariant
            i <= v.len(),
            strip_amps(v@.subrange(i as int, v@.len() as int)) == strip_amps(v@),
        decreases v.len() - i,
    {
        assert(v@.subrange(i as int, v@.len() as int).drop_first() =~= v@.subrange(
            i + 1,
            v@.len() as int,
        ));
        i = i + 1;
    }
    let r = copy_range(v, i, v.len());
    assert(v@.subrange(i as int, v@.len() as int) =~= r@);
    r
}

/// `clean_author_text`: the author names in the text of one element of an
/// author block (see `author_candidates`).
pub fn clean_author_text(raw: &str) -> (r: Vec<String>)
    ensures
        sviews(r@) == author_candidates(raw@),
{
    let rv = chars_of(raw);
    let ls = lines_exec(rv.as_slice());
    let ghost lv = vviews(ls@);
    let mut out: Vec<String> = Vec::new();
    let mut i: usize = 0;
    while i < ls.len()
        invariant
            i <= ls.len(),
            lv == vviews(ls@),
            lv == lines(raw@),
            sviews(out@) + kept_authors(lv, i as int) == kept_authors(lv, 0),
        decreases ls.len() - i,
    {
        let ghost before = sviews(out@);
        let t = trim_chars(ls[i].as_slice());
        let a = strip_amps_exec(t.as_slice());
        let n = normalize_ws_chars(a.as_slice());
        let value = string_of(n.as_slice());
        assert(value@ == author_value(lv[i as int]));
        let is_email = match regex_is_match("^[\\w.+-]+@[\\w.-]+\\.\\w+$", value.as_str()) {
            Some(b) => b,
            None => false,
        };
        let lower = to_lowercase(value.as_str());
        if keep_author(value.as_str(), is_email, lower.as_str()) {
            out.push(value);
            assert(sviews(out@) =~= before.push(author_value(lv[i as int])));
        }
        assert(sviews(out@) + kept_authors(lv, i + 1) =~= before + kept_authors(lv, i as int));
        i = i + 1;
    }
    assert(sviews(out@) + Seq::<Seq<char>>::empty() =~= sviews(out@));
    out
}

fn list_contains(acc: &Vec<String>, x: &String) -> (b: bool)
    ensures
        b == sviews(acc@).contains(x@),
{
    let xv = chars_of(x.as_str());
    let mut i: usize = 0;
    while i < acc.len()
        invariant
            i <= acc.len(),
            xv@ == x@,
            forall|j: int| 0 <= j < i ==> sviews(acc@)[j] != x@,
        decreases acc.len() - i,
    {
        let a = chars_of(acc[i].as_str());
        if chars_eq(a.as_slice(), xv.as_slice()) {
            assert(sviews(acc@)[i as int] == x@);
            return true;
        }
        i = i + 1;
    }
    false
}

fn add_unique_exec(acc: &mut Vec<String>, cands: Vec<String>)
    ensures
        sviews(final(acc)@) == add_unique(sviews(old(acc)@), sviews(cands@)),
{
    let ghost cv = sviews(cands@);
    let mut i: usize = 0;
    proof {
        lemma_sub_ends(cv);
    }
    while i < cands.len()
        invariant
            i <= cands.len(),
            cv == sviews(cands@),
            cv.len() == cands@.len(),
            add_unique(sviews(acc@), cv.subrange(i as int, cv.len() as int)) == add_unique(
                sviews(old(acc)@),
                cv,
            ),
        decreases cands.len() - i,
    {
        proof {
            lemma_sub_step(cv, i as int);
        }
        let ghost before = sviews(acc@);
        if !list_contains(acc, &cands[i]) {
            let c = cands[i].clone();
            acc.push(c);
            assert(sviews(acc@) =~= before.push(cv[i as int]));
        }
        i = i + 1;
    }
}

/// `extract_authors` over the visits of a page (see `authors_of`).
fn authors_exec(vs: &Vec<VisitRef>) -> (r: Vec<String>)
    ensures
        sviews(r@) == authors_of(visit_views(vs@)),
{
    match find_visit(vs, Query::Authors) {
        None => Vec::new(),
        Some(k) => {
            let c = vs[k].node;
            assert(visit_views(vs@)[k as int] == visit_view(vs@[k as int]));
            let ghost kids = c@.children;
            proof {
                lemma_dom_children(*c);
                lemma_node_models(c.children@);
                lemma_sub_ends(kids);
            }
            let mut texts: Vec<Vec<char>> = Vec::new();
            assert(vviews(texts@) =~= Seq::<Seq<char>>::empty());
            let mut j: usize = 0;
            while j < c.children.len()
                invariant
                    j <= c.children.len(),
                    kids == node_models(c.children@),
                    kids.len() == c.children@.len(),
                    vviews(texts@) + span_texts(kids.subrange(j as int, kids.len() as int))
                        == span_texts(kids),
                decreases c.children.len() - j,
            {
                let ghost prev = vviews(texts@);
                span_texts_into(&c.children[j], &mut texts);
                proof {
                    lemma_sub_step(kids, j as int);
                    let n = kids[j as int];
                    assert(n == c.children@[j as int]@);
                    assert(seq![n].drop_first() =~= Seq::<NodeModel>::empty());
                    assert(seq![n][0] == n);
                    assert(span_texts(Seq::<NodeModel>::empty()) == Seq::<Seq<char>>::empty());
                    assert(span_texts(seq![n]) =~= (if named(n, "span"@) {
                        seq![text_of(n)]
                    } else {
                        Seq::empty()
                    }) + span_texts(n.children));
                    assert(vviews(texts@) + span_texts(kids.subrange(j + 1, kids.len() as int))
                        =~= prev + span_texts(kids.subrange(j as int, kids.len() as int)));
                }
                j = j + 1;
            }
            proof {
                lemma_sub_ends(kids);
                assert(vviews(texts@) + Seq::<Seq<char>>::empty() =~= vviews(texts@));
            }
            let ghost tv = vviews(texts@);
            let mut acc: Vec<String> = Vec::new();
            let mut i: usize = 0;
            proof {
                lemma_sub_ends(tv);
                assert(sviews(acc@) =~= Seq::<Seq<char>>::empty());
            }
            while i < texts.len()
                invariant
                    i <= texts.len(),
                    tv == vviews(texts@),
                    tv.len() == texts@.len(),
                    collect_authors(sviews(acc@), tv.subrange(i as int, tv.len() as int))
                        == collect_authors(Seq::empty(), tv),
                decreases texts.len() - i,
            {
                proof {
                    lemma_sub_step(tv, i as int);
                }
                let raw = string_of(texts[i].as_slice());
                let cands = clean_author_text(raw.as_str());
                add_unique_exec(&mut acc, cands);
                i = i + 1;
            }
            acc
        },
    }
}


// --------------------------------------------------------------- sections

/// The HTML that follows a heading in its section: the section's children
/// after the element whose HTML equals `hh`, elements by their HTML and
/// text by itself, nested sections left out.
pub open spec fn frag_parts(ns: Seq<NodeModel>, hh: Seq<char>, started: bool) -> Seq<char>
    decreases ns.len(),
{
    if ns.len() == 0 {
        Seq::empty()
    } else {
        let c = ns[0];
        let rest = ns.drop_first();
        if c.kind == DomKind::Element {
            if !started {
                frag_parts(rest, hh, c.html == hh)
            } else if c.name == "section"@ {
                frag_parts(rest, hh, true)
            } else {
                c.html + frag_parts(rest, hh, true)
            }
        } else if started && c.kind == DomKind::Text {
            c.text + frag_parts(rest, hh, true)
        } else {
            frag_parts(rest, hh, started)
        }
    }
}

/// The HTML of the part of a heading's nearest enclosing `section` that
/// follows the heading; empty when no `section` encloses it.
pub open spec fn section_fragment(heading: NodeModel, ctx: Ctx) -> Seq<char> {
    match ctx.section {
        Some(sec) => frag_parts(sec.children, heading.html, false),
        None => Seq::empty(),
    }
}

/// The entry of a heading for the section tree: an `h1`..`h6` element that
/// is not the document title, not inside a `nav` or an `.ltx_abstract`, and
/// whose text is not empty, with the Markdown of what follows it.
pub open spec fn heading_entry(v: Visit, rm: bool) -> Option<FlatModel> {
    let n = v.node;
    let title = normalize_ws(text_of(n));
    if n.kind == DomKind::Element && is_heading_name(n.name) && !n.classes.contains(
        "ltx_title_document"@,
    ) && !v.ctx.in_nav && !v.ctx.in_abstract && title.len() > 0 {
        Some(
            FlatModel {
                level: heading_number(n.name) as u8,
                title,
                anchor: n.id,
                markdown: fragment_markdown(section_fragment(n, v.ctx), rm),
            },
        )
    } else {
        None
    }
}

/// The entries of the headings among the visits `vs[i..]`.
pub open spec fn heading_entries(vs: Seq<Visit>, i: int, rm: bool) -> Seq<FlatModel>
    decreases vs.len() - i,
{
    if i < 0 || i >= vs.len() {
        Seq::empty()
    } else {
        (match heading_entry(vs[i], rm) {
            Some(f) => seq![f],
            None => Seq::empty(),
        }) + heading_entries(vs, i + 1, rm)
    }
}

/// The section tree read from the descendants of the visited root element.
pub open spec fn root_sections(root: Visit, rm: bool) -> Seq<SectionModel> {
    let inner = visits(root.node.children, enter(root.ctx, root.node));
    let flat = heading_entries(inner, 0, rm);
    forest(flat, 0, flat.len() as int)
}

/// `collect_section_fragment`: see `section_fragment`.
fn section_fragment_exec(heading: &DomNode, section: Option<&DomNode>) -> (r: String)
    ensures
        r@ == section_fragment(
            heading@,
            Ctx {
                in_nav: false,
                in_abstract: false,
                section: match section {
                    Some(s) => Some(s@),
                    None => None,
                },
            },
        ),
{
    match section {
        None => String::new(),
        Some(sec) => {
            let ghost kids = sec@.children;
            let ghost hh = heading@.html;
            proof {
                lemma_dom_children(*sec);
                lemma_node_models(sec.children@);
                lemma_sub_ends(kids);
            }
            let mut out: Vec<char> = Vec::new();
            let mut started = false;
            let mut i: usize = 0;
            while i < sec.children.len()
                invariant
                    i <= sec.children.len(),
                    kids == node_models(sec.children@),
                    kids.len() == sec.children@.len(),
                    hh == heading@.html,
                    out@ + frag_parts(kids.subrange(i as int, kids.len() as int), hh, started)
                        == frag_parts(kids, hh, false),
                decreases sec.children.len() - i,
            {
                proof {
                    lemma_sub_step(kids, i as int);
                }
                let ghost before = out@;
                let ghost st = started;
                let c = &sec.children[i];
                assert(kids[i as int] == c@);
                if c.kind == DomKind::Element {
                    if !started {
                        let a = chars_of(c.html.as_str());
                        let b = chars_of(heading.html.as_str());
                        started = chars_eq(a.as_slice(), b.as_slice());
                    } else if !is_named_exec(c, "section") {
                        push_str_chars(&mut out, c.html.as_str());
                    }
                } else if started && c.kind == DomKind::Text {
                    push_str_chars(&mut out, c.text.as_str());
                }
                assert(out@ + frag_parts(kids.subrange(i + 1, kids.len() as int), hh, started)
                    =~= before + frag_parts(
                    kids.subrange(i as int, kids.len() as int),
                    hh,
                    st,
                ));
                i = i + 1;
            }
            assert(out@ + Seq::<char>::empty() =~= out@);
            string_of(out.as_slice())
        },
    }
}


/// The level of a heading element name `h1` to `h6`.
fn heading_level(name: &Vec<char>) -> (r: Option<u8>)
    ensures
        match r {
            Some(l) => is_heading_name(name@) && l == heading_number(name@) as u8,
            None => !is_heading_name(name@),
        },
{
    if name.len() != 2 || name[0] != 'h' {
        return None;
    }
    let d = name[1];
    if d == '1' {
        Some(1)
    } else if d == '2' {
        Some(2)
    } else if d == '3' {
        Some(3)
    } else if d == '4' {
        Some(4)
    } else if d == '5' {
        Some(5)
    } else if d == '6' {
        Some(6)
    } else {
        None
    }
}

/// `heading_entry`.
fn heading_entry_exec(v: &VisitRef, rm: bool) -> (r: Option<FlatSection>)
    ensures
        match r {
            Some(f) => heading_entry(visit_view(*v), rm) == Some(f@),
            None => heading_entry(visit_view(*v), rm) is None,
        },
{
    let n = v.node;
    if n.kind != DomKind::Element {
        return None;
    }
    let name = chars_of(n.name.as_str());
    let level = match heading_level(&name) {
        Some(l) => l,
        None => return None,
    };
    if contains_str(&n.classes, "ltx_title_document") || v.in_nav || v.in_abstract {
        return None;
    }
    let t = text_of_exec(n);
    let title = normalize_ws_chars(t.as_slice());
    if title.len() == 0 {
        return None;
    }
    let frag = section_fragment_exec(n, v.section);
    let markdown = convert_fragment_to_markdown(frag.as_str(), rm);
    let f = FlatSection {
        level,
        title: string_of(title.as_slice()),
        anchor: copy_opt_string(&n.id),
        markdown,
    };
    Some(f)
}

/// `heading_entries` of all the visits.
fn heading_entries_exec(vs: &Vec<VisitRef>, rm: bool) -> (r: Vec<FlatSection>)
    ensures
        flat_models(r@) == heading_entries(visit_views(vs@), 0, rm),
{
    let ghost vv = visit_views(vs@);
    let mut out: Vec<FlatSection> = Vec::new();
    let mut i: usize = 0;
    assert(flat_models(out@) =~= Seq::<FlatModel>::empty());
    while i < vs.len()
        invariant
            i <= vs.len(),
            vv == visit_views(vs@),
            vv.len() == vs@.len(),
            flat_models(out@) + heading_entries(vv, i as int, rm) == heading_entries(vv, 0, rm),
        decreases vs.len() - i,
    {
        let ghost before = flat_models(out@);
        assert(vv[i as int] == visit_view(vs@[i as int]));
        match heading_entry_exec(&vs[i], rm) {
            Some(f) => {
                out.push(f);
                assert(flat_models(out@) =~= before.push(f@));
            },
            None => {},
        }
        assert(flat_models(out@) + heading_entries(vv, i + 1, rm) =~= before + heading_entries(
            vv,
            i as int,
            rm,
        ));
        i = i + 1;
    }
    assert(flat_models(out@) + Seq::<FlatModel>::empty() =~= flat_models(out@));
    out
}

/// `extract_sections`: see `root_sections`.
fn root_sections_exec(v: &VisitRef, rm: bool) -> (r: Vec<SectionNode>)
    ensures
        section_models(r@) == root_sections(visit_view(*v), rm),
{
    let n = v.node;
    let child_nav = v.in_nav || is_named_exec(n, "nav");
    let child_abstract = v.in_abstract || has_class_exec(n, "ltx_abstract");
    let child_section = if is_named_exec(n, "section") {
        Some(n)
    } else {
        v.section
    };
    proof {
        lemma_dom_children(*n);
    }
    let mut inner: Vec<VisitRef> = Vec::new();
    assert(visit_views(inner@) =~= Seq::<Visit>::empty());
    collect_visits(&n.children, child_nav, child_abstract, child_section, &mut inner);
    assert(visit_views(inner@) =~= visits(n@.children, enter(visit_view(*v).ctx, n@)));
    let flat = heading_entries_exec(&inner, rm);
    build_tree(flat)
}


// ------------------------------------------------------------------ paper

/// The visits of the trees of a walk, from the top.
pub open spec fn walk_visits(ev: Seq<EventModel>) -> Seq<Visit> {
    visits(forest_of(ev, 0, ev.len() as int), top_ctx())
}

/// What a page gives: its title, authors, abstract and section tree, or
/// the reason it is refused (no `article`/`body` root, or not LaTeXML
/// output).
pub open spec fn paper_of(vs: Seq<Visit>, rm: bool) -> Result<PaperModel, Seq<char>> {
    match root_visit(vs) {
        None => Err("missing article/body root"@),
        Some(r) => if !looks_like_arxiv_html(vs) {
            Err("page does not look like arXiv HTML"@)
        } else {
            Ok(
                PaperModel {
                    title: first_text(vs, Query::Title),
                    authors: authors_of(vs),
                    abstract_text: first_text(vs, Query::Abstract),
                    sections: root_sections(vs[r], rm),
                },
            )
        },
    }
}

/// The paper of a page given as the walk of its tree: see `paper_of`; a
/// refused page gives `Arxiv2MdError::Html` with the reason.
pub fn paper_from_events(events: &Vec<DomEvent>, remove_inline_citations: bool) -> (r: Result<
    HtmlPaper,
    Arxiv2MdError,
>)
    ensures
        match paper_of(walk_visits(event_models(events@)), remove_inline_citations) {
            Ok(m) => r matches Ok(p) && p@ == m,
            Err(msg) => r matches Err(Arxiv2MdError::Html(s)) && s@ == msg,
        },
{
    let forest = build_dom(events);
    let mut vs: Vec<VisitRef> = Vec::new();
    assert(visit_views(vs@) =~= Seq::<Visit>::empty());
    collect_visits(&forest, false, false, None, &mut vs);
    let ghost vv = visit_views(vs@);
    assert(vv =~= walk_visits(event_models(events@)));
    let article = find_visit(&vs, Query::DocumentArticle);
    let root = match article {
        Some(k) => Some(k),
        None => match find_visit(&vs, Query::Article) {
            Some(k) => Some(k),
            None => find_visit(&vs, Query::Body),
        },
    };
    let rk = match root {
        Some(k) => k,
        None => {
            return Err(Arxiv2MdError::Html(String::from_str("missing article/body root")));
        },
    };
    if article.is_none() && find_visit(&vs, Query::Abstract).is_none() && find_visit(
        &vs,
        Query::Section,
    ).is_none() {
        return Err(Arxiv2MdError::Html(String::from_str("page does not look like arXiv HTML")));
    }
    let title = first_text_exec(&vs, Query::Title);
    let authors = authors_exec(&vs);
    let abstract_text = first_text_exec(&vs, Query::Abstract);
    assert(vv[rk as int] == visit_view(vs@[rk as int]));
    let sections = root_sections_exec(&vs[rk], remove_inline_citations);
    Ok(HtmlPaper { title, authors, abstract_text, sections })
}

/// `parse_document`: the paper of an arXiv HTML page (see `paper_of`),
/// over the tree that `scraper::Html::parse_document` builds from `body`.
pub fn parse_document(body: &str, remove_inline_citations: bool) -> (r: Result<
    HtmlPaper,
    Arxiv2MdError,
>)
    ensures
        match paper_of(walk_visits(document_events(body@)), remove_inline_citations) {
            Ok(m) => r matches Ok(p) && p@ == m,
            Err(msg) => r matches Err(Arxiv2MdError::Html(s)) && s@ == msg,
        },
{
    let events = parse_document_events(body);
    paper_from_events(&events, remove_inline_citations)
}

// ------------------------------------------------------------------- laws

proof fn lemma_add_unique_distinct(acc: Seq<Seq<char>>, cands: Seq<Seq<char>>)
    requires
        acc.no_duplicates(),
    ensures
        add_unique(acc, cands).no_duplicates(),
    decreases cands.len(),
{
    if cands.len() > 0 {
        if acc.contains(cands[0]) {
            lemma_add_unique_distinct(acc, cands.drop_first());
        } else {
            let next = acc.push(cands[0]);
            assert forall|i: int, j: int| 0 <= i < j < next.len() implies next[i] != next[j] by {
                if j == acc.len() {
                    assert(acc[i] == next[i]);
                }
            }
            lemma_add_unique_distinct(next, cands.drop_first());
        }
    }
}

proof fn lemma_collect_authors_distinct(acc: Seq<Seq<char>>, texts: Seq<Seq<char>>)
    requires
        acc.no_duplicates(),
    ensures
        collect_authors(acc, texts).no_duplicates(),
    decreases texts.len(),
{
    if texts.len() > 0 {
        lemma_add_unique_distinct(acc, author_candidates(texts[0]));
        lemma_collect_authors_distinct(
            add_unique(acc, author_candidates(texts[0])),
            texts.drop_first(),
        );
    }
}

/// The authors read from a page are each named once.
pub proof fn law_authors_distinct(vs: Seq<Visit>)
    ensures
        authors_of(vs).no_duplicates(),
{
    match first_visit(vs, Query::Authors, 0) {
        Some(i) => lemma_collect_authors_distinct(Seq::empty(), span_texts(vs[i].node.children)),
        None => {},
    }
}

/// The node links to the bibliography.
pub open spec fn cites(n: NodeModel) -> bool {
    named(n, "a"@) && match n.href {
        Some(h) => citation_link(h),
        None => false,
    }
}

proof fn lemma_link_names_differ()
    ensures
        "a"@ != "br"@ && "a"@ != "em"@ && "a"@ != "i"@ && "a"@ != "strong"@ && "a"@ != "b"@,
        "cite"@ != "br"@ && "cite"@ != "em"@ && "cite"@ != "i"@ && "cite"@ != "strong"@ && "cite"@
            != "b"@ && "cite"@ != "a"@,
{
    reveal_strlit("a");
    reveal_strlit("br");
    reveal_strlit("em");
    reveal_strlit("i");
    reveal_strlit("strong");
    reveal_strlit("b");
    reveal_strlit("cite");
    assert("a"@[0] != "i"@[0]);
    assert("a"@[0] != "b"@[0]);
    assert("cite"@.len() != "a"@.len());
    assert("cite"@.len() != "br"@.len());
    assert("cite"@.len() != "em"@.len());
    assert("cite"@.len() != "i"@.len());
    assert("cite"@.len() != "strong"@.len());
    assert("cite"@.len() != "b"@.len());
    assert("a"@.len() != "br"@.len());
    assert("a"@.len() != "em"@.len());
    assert("a"@.len() != "strong"@.len());
}

/// With inline citations removed, a link to the bibliography and a
/// `cite` element of class `ltx_cite...` leave nothing in the text.
pub proof fn law_citations_removed(n: NodeModel)
    requires
        cites(n) || (named(n, "cite"@) && any_class_prefixed(n, "ltx_cite"@)),
    ensures
        inline_node(n, true) == Seq::<char>::empty(),
{
    lemma_link_names_differ();
}

/// Kept citations are kept as their text, without a link.
pub proof fn law_citations_kept_as_text(n: NodeModel)
    requires
        cites(n),
    ensures
        inline_node(n, false) == inline_text(n, false),
{
    lemma_link_names_differ();
}

/// The width of a table is that of its widest row.
pub proof fn law_table_width_is_widest_row(rows: Seq<Seq<Seq<char>>>)
    ensures
        forall|i: int| 0 <= i < rows.len() ==> (#[trigger] rows[i]).len() <= max_cells(rows),
        rows.len() > 0 ==> exists|i: int| 0 <= i < rows.len() && (#[trigger] rows[i]).len()
            == max_cells(rows),
    decreases rows.len(),
{
    if rows.len() > 0 {
        law_table_width_is_widest_row(rows.drop_first());
        assert forall|i: int| 0 <= i < rows.len() implies (#[trigger] rows[i]).len() <= max_cells(
            rows,
        ) by {
            if i > 0 {
                assert(rows[i] == rows.drop_first()[i - 1]);
            }
        }
        if rows[0].len() > max_cells(rows.drop_first()) {
            assert(rows[0].len() == max_cells(rows));
        } else if rows.len() > 1 {
            let j = choose|j: int| 0 <= j < rows.drop_first().len() && (
            #[trigger] rows.drop_first()[j]).len() == max_cells(rows.drop_first());
            assert(rows[j + 1] == rows.drop_first()[j]);
        } else {
            assert(max_cells(rows.drop_first()) == 0);
        }
    }
}

/// A Markdown table of `k` rows (of width `n` > 0) has `k + 1` lines: the
/// first row as header, a rule of `n` `---` cells, then each other row in
/// order; every line is `| c1 | c2 | ... |` with the row's cells padded by
/// empty cells to `n`.
pub proof fn law_table_lines(rows: Seq<Seq<Seq<char>>>)
    requires
        rows.len() > 0,
        max_cells(rows) > 0,
    ensures
        ({
            let n = max_cells(rows);
            let line = |r: Seq<Seq<char>>|
                "| "@ + join(
                    r + Seq::new((n - r.len()) as nat, |c: int| Seq::<char>::empty()),
                    " | "@,
                ) + " |"@;
            markdown_table(rows) == join(
                Seq::new(
                    rows.len() + 1,
                    |i: int|
                        if i == 0 {
                            line(rows[0])
                        } else if i == 1 {
                            "| "@ + join(Seq::new(n, |c: int| "---"@), " | "@) + " |"@
                        } else {
                            line(rows[i - 1])
                        },
                ),
                seq!['\n'],
            )
        }),
{
    let n = max_cells(rows);
    law_table_width_is_widest_row(rows);
    let line = |r: Seq<Seq<char>>|
        "| "@ + join(r + Seq::new((n - r.len()) as nat, |c: int| Seq::<char>::empty()), " | "@)
            + " |"@;
    assert forall|i: int| 0 <= i < rows.len() implies table_line(padded(#[trigger] rows[i], n))
        == line(rows[i]) by {
        if rows[i].len() >= n {
            assert(rows[i] + Seq::new(0, |c: int| Seq::<char>::empty()) =~= rows[i]);
        }
    }
    let header = table_line(padded(rows[0], n));
    let rule = table_line(Seq::new(n, |i: int| "---"@));
    let body = rows.drop_first().map_values(|r: Seq<Seq<char>>| table_line(padded(r, n)));
    let expect = Seq::new(
        rows.len() + 1,
        |i: int|
            if i == 0 {
                line(rows[0])
            } else if i == 1 {
                "| "@ + join(Seq::new(n, |c: int| "---"@), " | "@) + " |"@
            } else {
                line(rows[i - 1])
            },
    );
    assert forall|i: int| 2 <= i < expect.len() implies (seq![header, rule] + body)[i] == expect[i] by {
        assert(body[i - 2] == table_line(padded(rows.drop_first()[i - 2], n)));
        assert(rows.drop_first()[i - 2] == rows[i - 1]);
    }
    assert(seq![header, rule] + body =~= expect);
}

} // verus!

