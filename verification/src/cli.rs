//! From parsed command-line arguments to the options of a conversion.
use vstd::prelude::*;

use crate::model::{CliOptions, SectionFilterMode};
use crate::text::{chars_of, split, split_exec, string_of, sviews, trim, trim_chars, vviews};

verus! {

broadcast use vstd::string::group_string_axioms;

/// The command-line arguments as given: `--sections` as one comma-separated
/// list, `--section` repeated.
pub struct CliArgs {
    pub input: String,
    pub output: String,
    pub frontmatter: bool,
    pub keep_refs: bool,
    pub keep_toc: bool,
    pub remove_inline_citations: bool,
    pub include_tree: bool,
    pub refresh: bool,
    pub sections: Option<String>,
    pub section: Vec<String>,
    pub section_filter_mode: SectionFilterMode,
    pub cache_dir: Option<String>,
    pub pandoc_path: String,
}

/// The trimmed pieces that are not empty, in order.
pub open spec fn trimmed_nonempty(pieces: Seq<Seq<char>>) -> Seq<Seq<char>> {
    pieces.map_values(|p: Seq<char>| trim(p)).filter(|p: Seq<char>| p.len() > 0)
}

/// The selected section titles: the comma-separated `--sections` list, then
/// each `--section`, all trimmed, empty ones dropped.
pub open spec fn selected_sections(csv: Option<Seq<char>>, section: Seq<Seq<char>>) -> Seq<
    Seq<char>,
> {
    (match csv {
        Some(c) => trimmed_nonempty(split(c, ',')),
        None => Seq::empty(),
    }) + trimmed_nonempty(section)
}

fn push_trimmed_nonempty(out: &mut Vec<String>, pieces: &Vec<Vec<char>>)
    ensures
        sviews(final(out)@) == sviews(old(out)@) + trimmed_nonempty(vviews(pieces@)),
{
    let ghost all = vviews(pieces@);
    let mut i: usize = 0;
    while i < pieces.len()
        invariant
            i <= pieces.len(),
            all == vviews(pieces@),
            sviews(out@) == sviews(old(out)@) + trimmed_nonempty(all.take(i as int)),
        decreases pieces.len() - i,
    {
        let ghost before = sviews(out@);
        let t = trim_chars(pieces[i].as_slice());
        proof {
            assert(all.take(i + 1).map_values(|p: Seq<char>| trim(p)) =~= all.take(
                i as int,
            ).map_values(|p: Seq<char>| trim(p)).push(trim(all[i as int])));
            reveal_with_fuel(Seq::filter, 1);
            assert(all.take(i + 1).map_values(|p: Seq<char>| trim(p)).drop_last() =~= all.take(
                i as int,
            ).map_values(|p: Seq<char>| trim(p)));
        }
        if t.len() > 0 {
            let s = string_of(t.as_slice());
            out.push(s);
            assert(sviews(out@) =~= before.push(s@));
        }
        i = i + 1;
    }
    assert(all.take(pieces.len() as int) =~= all);
}

/// The options of a conversion from the command-line arguments.
pub fn parse(args: CliArgs) -> (r: CliOptions)
    ensures
        r.input == args.input,
        r.output == args.output,
        r.frontmatter == args.frontmatter,
        r.keep_refs == args.keep_refs,
        r.keep_toc == args.keep_toc,
        r.remove_inline_citations == args.remove_inline_citations,
        r.include_tree == args.include_tree,
        r.refresh == args.refresh,
        sviews(r.sections@) == selected_sections(
            match args.sections {
                Some(c) => Some(c@),
                None => None,
            },
            sviews(args.section@),
        ),
        r.section_filter_mode == args.section_filter_mode,
        r.cache_dir == args.cache_dir,
        r.pandoc_path == args.pandoc_path,
{
    let mut sections: Vec<String> = Vec::new();
    match &args.sections {
        Some(csv) => {
            let v = chars_of(csv.as_str());
            let pieces = split_exec(v.as_slice(), ',');
            push_trimmed_nonempty(&mut sections, &pieces);
        },
        None => {},
    }
    let ghost first = sviews(sections@);
    let mut given: Vec<Vec<char>> = Vec::new();
    let mut i: usize = 0;
    while i < args.section.len()
        invariant
            i <= args.section.len(),
            vviews(given@) == sviews(args.section@).take(i as int),
        decreases args.section.len() - i,
    {
        let ghost before = vviews(given@);
        let c = chars_of(args.section[i].as_str());
        given.push(c);
        assert(vviews(given@) =~= before.push(c@));
        i = i + 1;
        assert(sviews(args.section@).take(i as int) =~= sviews(args.section@).take(i - 1).push(
            sviews(args.section@)[i - 1],
        ));
    }
    assert(sviews(args.section@).take(args.section.len() as int) =~= sviews(args.section@));
    push_trimmed_nonempty(&mut sections, &given);
    CliOptions {
        input: args.input,
        output: args.output,
        frontmatter: args.frontmatter,
        keep_refs: args.keep_refs,
        keep_toc: args.keep_toc,
        remove_inline_citations: args.remove_inline_citations,
        include_tree: args.include_tree,
        refresh: args.refresh,
        sections,
        section_filter_mode: args.section_filter_mode,
        cache_dir: args.cache_dir,
        pandoc_path: args.pandoc_path,
    }
}

} // verus!
