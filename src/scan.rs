//! Which of the files that a directory scan found get an outline section.
use crate::language::{classify, language_of_path, SourceLanguage};
use vstd::prelude::*;

verus! {

/// A file that the scan analyses: its position in the scanned list and the
/// language that it is parsed with.
#[derive(PartialEq, Eq, Structural, Clone, Copy, Debug)]
pub struct SourceFile {
    pub index: usize,
    pub language: SourceLanguage,
}

/// The sections of a scan over `paths`: one for each path with a registered
/// extension, in the order of the list, with its language.
pub open spec fn scan_plan(paths: Seq<Seq<char>>) -> Seq<(int, SourceLanguage)>
    decreases paths.len(),
{
    if paths.len() == 0 {
        Seq::empty()
    } else {
        let rest = scan_plan(paths.drop_last());
        match language_of_path(paths.last()) {
            Some(lang) => rest.push((paths.len() - 1, lang)),
            None => rest,
        }
    }
}

/// The paths that have a registered extension.
pub open spec fn source_paths(paths: Seq<Seq<char>>) -> Seq<Seq<char>> {
    paths.filter(|p: Seq<char>| language_of_path(p) is Some)
}

/// Picks, from the regular files that a scan found, those that get an
/// outline section; the others are skipped silently.
pub fn select_source_files(paths: &Vec<String>) -> (r: Vec<SourceFile>)
    ensures
        r@.map_values(|f: SourceFile| (f.index as int, f.language)) == scan_plan(
            paths@.map_values(|p: String| p@),
        ),
{
    let ghost views = paths@.map_values(|p: String| p@);
    let mut out: Vec<SourceFile> = Vec::new();
    let mut i: usize = 0;
    while i < paths.len()
        invariant
            i <= paths@.len(),
            views == paths@.map_values(|p: String| p@),
            out@.map_values(|f: SourceFile| (f.index as int, f.language)) == scan_plan(
                views.subrange(0, i as int),
            ),
        decreases paths@.len() - i,
    {
        let ghost prefix = views.subrange(0, i + 1);
        assert(prefix.drop_last() == views.subrange(0, i as int));
        assert(prefix.last() == paths@[i as int]@);
        match classify(paths[i].as_str()) {
            Some(lang) => {
                let ghost before = out@;
                out.push(SourceFile { index: i, language: lang });
                assert(out@.map_values(|f: SourceFile| (f.index as int, f.language)) == before.map_values(
                    |f: SourceFile| (f.index as int, f.language),
                ).push((i as int, lang)));
            },
            None => {},
        }
        i = i + 1;
    }
    assert(views.subrange(0, i as int) == views);
    out
}

proof fn lemma_scan_plan_entries(paths: Seq<Seq<char>>)
    ensures
        forall|k: int|
            0 <= k < scan_plan(paths).len() ==> {
                let e = #[trigger] scan_plan(paths)[k];
                &&& 0 <= e.0 < paths.len()
                &&& language_of_path(paths[e.0]) == Some(e.1)
            },
    decreases paths.len(),
{
    if paths.len() > 0 {
        lemma_scan_plan_entries(paths.drop_last());
    }
}

/// A scan opens exactly as many sections as there are scanned files with a
/// registered extension.
pub proof fn lemma_one_section_per_source_file(paths: Seq<Seq<char>>)
    ensures
        scan_plan(paths).len() == source_paths(paths).len(),
    decreases paths.len(),
{
    if paths.len() > 0 {
        lemma_one_section_per_source_file(paths.drop_last());
        reveal(Seq::filter);
        let pred = |p: Seq<char>| language_of_path(p) is Some;
        assert(source_paths(paths) == paths.filter(pred));
        assert(source_paths(paths.drop_last()) == paths.drop_last().filter(pred));
    }
}

/// A scanned file without a registered extension gets no section.
pub proof fn lemma_skipped_file_has_no_section(paths: Seq<Seq<char>>, i: int)
    requires
        0 <= i < paths.len(),
        language_of_path(paths[i]) is None,
    ensures
        forall|k: int| 0 <= k < scan_plan(paths).len() ==> #[trigger] scan_plan(paths)[k].0 != i,
{
    lemma_scan_plan_entries(paths);
}

} // verus!
