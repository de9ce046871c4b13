//! Choosing the main LaTeX file of a source archive.
use vstd::prelude::*;

use crate::error::Arxiv2MdError;
use crate::text::{ascii_lower, ascii_lowercase, chars_of, contains, contains_exec, eq_lit};

verus! {

broadcast use vstd::string::group_string_axioms;

/// A `.tex` file of an archive: its name without extension, and its text.
pub struct TexCandidate {
    pub stem: String,
    pub contents: String,
}

/// The length in bytes (UTF-8) of a text, as `str::len` gives it.
pub open spec fn byte_len(s: Seq<char>) -> usize {
    vstd::utf8::encode_utf8(s).len() as usize
}

pub open spec fn is_supplementary(name: Seq<char>) -> bool {
    contains(name, "supp"@) || contains(name, "supplement"@) || contains(name, "appendix"@)
        || contains(name, "si"@) || contains(name, "supplementary"@)
}

pub open spec fn is_preferred(name: Seq<char>) -> bool {
    name == "main"@ || name == "paper"@ || name == "article"@ || name == "ms"@
}

/// What ranks a candidate: whether it lacks `\documentclass`, whether its
/// name marks it as supplementary, whether its name is not a usual main
/// name, and its size (larger ranks first).
pub ghost struct TexRank {
    pub no_documentclass: bool,
    pub supplementary: bool,
    pub not_preferred: bool,
    pub size: usize,
}

pub open spec fn tex_rank(c: TexCandidate) -> TexRank {
    let name = ascii_lower(c.stem@);
    TexRank {
        no_documentclass: !contains(c.contents@, "\\documentclass"@),
        supplementary: is_supplementary(name),
        not_preferred: !is_preferred(name),
        size: byte_len(c.contents@),
    }
}

/// `a` ranks no later than `b` (false before true; larger size first).
pub open spec fn rank_le(a: TexRank, b: TexRank) -> bool {
    if a.no_documentclass != b.no_documentclass {
        !a.no_documentclass
    } else if a.supplementary != b.supplementary {
        !a.supplementary
    } else if a.not_preferred != b.not_preferred {
        !a.not_preferred
    } else {
        a.size >= b.size
    }
}

/// `i` is the main file: it ranks first, and before every earlier
/// candidate (a stable sort puts it in front).
pub open spec fn is_main_tex(cands: Seq<TexCandidate>, i: int) -> bool {
    &&& 0 <= i < cands.len()
    &&& forall|j: int| 0 <= j < cands.len() ==> rank_le(tex_rank(cands[i]), #[trigger] tex_rank(cands[j]))
    &&& forall|j: int| 0 <= j < i ==> !rank_le(#[trigger] tex_rank(cands[j]), tex_rank(cands[i]))
}

fn contains_lit(s: &Vec<char>, lit: &str) -> (b: bool)
    ensures
        b == contains(s@, lit@),
{
    let p = chars_of(lit);
    contains_exec(s.as_slice(), p.as_slice())
}

fn rank_of(c: &TexCandidate) -> (r: (bool, bool, bool, usize))
    ensures
        tex_rank(*c) == (TexRank {
            no_documentclass: r.0,
            supplementary: r.1,
            not_preferred: r.2,
            size: r.3,
        }),
{
    let stem = chars_of(c.stem.as_str());
    let name = ascii_lowercase(&stem);
    let contents = chars_of(c.contents.as_str());
    let no_dc = !contains_lit(&contents, "\\documentclass");
    let supp = contains_lit(&name, "supp") || contains_lit(&name, "supplement") || contains_lit(
        &name,
        "appendix",
    ) || contains_lit(&name, "si") || contains_lit(&name, "supplementary");
    let preferred = eq_lit(&name, "main") || eq_lit(&name, "paper") || eq_lit(&name, "article")
        || eq_lit(&name, "ms");
    let size = c.contents.as_str().len();
    (no_dc, supp, !preferred, size)
}

fn rank_le_exec(a: (bool, bool, bool, usize), b: (bool, bool, bool, usize)) -> (r: bool)
    ensures
        r == rank_le(
            TexRank { no_documentclass: a.0, supplementary: a.1, not_preferred: a.2, size: a.3 },
            TexRank { no_documentclass: b.0, supplementary: b.1, not_preferred: b.2, size: b.3 },
        ),
{
    if a.0 != b.0 {
        !a.0
    } else if a.1 != b.1 {
        !a.1
    } else if a.2 != b.2 {
        !a.2
    } else {
        a.3 >= b.3
    }
}

/// The position of the main `.tex` file among the candidates: one with
/// `\documentclass` first, then one not named as supplementary material,
/// then one named `main`, `paper`, `article` or `ms`, then the largest; the
/// earliest among equals.
pub fn select_main_tex(candidates: &Vec<TexCandidate>) -> (r: Result<usize, Arxiv2MdError>)
    ensures
        match r {
            Ok(i) => is_main_tex(candidates@, i as int),
            Err(e) => candidates@.len() == 0 && (e matches Arxiv2MdError::Latex(m) && m@
                == "no .tex files found"@),
        },
{
    if candidates.len() == 0 {
        return Err(Arxiv2MdError::Latex(String::from_str("no .tex files found")));
    }
    let ghost cs = candidates@;
    let mut best: usize = 0;
    let mut best_rank = rank_of(&candidates[0]);
    let mut i: usize = 1;
    while i < candidates.len()
        invariant
            1 <= i <= candidates.len(),
            cs == candidates@,
            best < i,
            tex_rank(cs[best as int]) == (TexRank {
                no_documentclass: best_rank.0,
                supplementary: best_rank.1,
                not_preferred: best_rank.2,
                size: best_rank.3,
            }),
            forall|j: int| 0 <= j < i ==> rank_le(tex_rank(cs[best as int]), #[trigger] tex_rank(cs[j])),
            forall|j: int| 0 <= j < best ==> !rank_le(#[trigger] tex_rank(cs[j]), tex_rank(cs[best as int])),
        decreases candidates.len() - i,
    {
        let r = rank_of(&candidates[i]);
        if !rank_le_exec(best_rank, r) {
            best = i;
            best_rank = r;
        }
        i = i + 1;
    }
    Ok(best)
}

} // verus!
