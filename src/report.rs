use vstd::prelude::*;

use crate::signatures::{
    extract_signatures, lemma_no_match_no_signatures, regex_accepts, regex_find_all, signatures_in, ExtractError, SIGNATURE_PATTERN,
};
use crate::text::texts;

verus! {

/// One scope entry with what was read for it: its text, or nothing when the
/// file does not exist.
pub struct ScopedFile {
    pub path: String,
    pub text: Option<String>,
}

/// The signatures as a bullet list, one line each.
pub open spec fn bullets(sigs: Seq<Seq<char>>) -> Seq<char>
    decreases sigs.len(),
{
    if sigs.len() == 0 {
        seq![]
    } else {
        bullets(sigs.drop_last()) + "- "@ + sigs.last() + "\n"@
    }
}

/// The subsection of one file: nothing when it has no signatures, else a
/// subheading naming the file and its bullet list.
pub open spec fn file_section(path: Seq<char>, sigs: Seq<Seq<char>>) -> Seq<char> {
    if sigs.len() == 0 {
        seq![]
    } else {
        "\n## "@ + path + "\n"@ + bullets(sigs)
    }
}

/// The paths joined by single spaces.
pub open spec fn space_joined(paths: Seq<Seq<char>>) -> Seq<char>
    decreases paths.len(),
{
    if paths.len() == 0 {
        seq![]
    } else if paths.len() == 1 {
        paths[0]
    } else {
        space_joined(paths.drop_last()) + " "@ + paths.last()
    }
}

/// The line that lists the whole scope.
pub open spec fn scope_line(paths: Seq<Seq<char>>) -> Seq<char> {
    "\ncode "@ + space_joined(paths) + "\n"@
}

/// The heading of the section of reported signatures.
pub open spec fn functions_heading() -> Seq<char> {
    "\n\n# Public/External Functions (excluding view/pure)\n"@
}

/// The paths of the entries, in scope order.
pub open spec fn paths_of(files: Seq<ScopedFile>) -> Seq<Seq<char>> {
    files.map_values(|f: ScopedFile| f.path@)
}

/// The subsection of one scope entry: none for a missing file.
pub open spec fn entry_section(f: ScopedFile) -> Seq<char> {
    match f.text {
        Some(t) => file_section(f.path@, signatures_in(t@)),
        None => seq![],
    }
}

/// The subsections of the entries, in scope order.
pub open spec fn sections(files: Seq<ScopedFile>) -> Seq<char>
    decreases files.len(),
{
    if files.len() == 0 {
        seq![]
    } else {
        sections(files.drop_last()) + entry_section(files.last())
    }
}

/// Some entry's file exists, so the pattern is applied.
pub open spec fn any_present(files: Seq<ScopedFile>) -> bool {
    exists|i: int| 0 <= i < files.len() && (#[trigger] files[i]).text is Some
}

/// The text appended to the notes: scope line, heading, then a subsection
/// for each existing entry that has signatures.
pub open spec fn appendix(files: Seq<ScopedFile>) -> Seq<char> {
    scope_line(paths_of(files)) + functions_heading() + sections(files)
}

/// The subsection of one file with its signatures.
pub fn render_file_section(path: &str, sigs: &Vec<String>) -> (r: String)
    ensures
        r@ == file_section(path@, texts(sigs@)),
{
    let mut out = String::new();
    if sigs.len() == 0 {
        return out;
    }
    out.append("\n## ");
    out.append(path);
    out.append("\n");
    let ghost head = out@;
    let mut i: usize = 0;
    while i < sigs.len()
        invariant
            i <= sigs@.len(),
            sigs@.len() > 0,
            head == "\n## "@ + path@ + "\n"@,
            out@ == head + bullets(texts(sigs@.subrange(0, i as int))),
        decreases sigs@.len() - i,
    {
        out.append("- ");
        out.append(sigs[i].as_str());
        out.append("\n");
        proof {
            let ts = texts(sigs@.subrange(0, i + 1));
            assert(ts.drop_last() =~= texts(sigs@.subrange(0, i as int)));
            assert(out@ =~= head + bullets(ts));
        }
        i = i + 1;
    }
    assert(sigs@.subrange(0, sigs@.len() as int) =~= sigs@);
    out
}

/// The line listing the scope: `code` and the paths joined by spaces.
pub fn render_scope_line(files: &Vec<ScopedFile>) -> (r: String)
    ensures
        r@ == scope_line(paths_of(files@)),
{
    let mut joined = String::new();
    let mut i: usize = 0;
    while i < files.len()
        invariant
            i <= files@.len(),
            joined@ == space_joined(paths_of(files@.subrange(0, i as int))),
        decreases files@.len() - i,
    {
        let ghost before = joined@;
        if i > 0 {
            joined.append(" ");
        }
        joined.append(files[i].path.as_str());
        proof {
            let ps = paths_of(files@.subrange(0, i + 1));
            assert(ps.drop_last() =~= paths_of(files@.subrange(0, i as int)));
            if i == 0 {
                assert(joined@ =~= ps[0]);
            } else {
                assert(joined@ =~= before + " "@ + ps.last());
            }
        }
        i = i + 1;
    }
    assert(files@.subrange(0, files@.len() as int) =~= files@);
    let mut out = String::from_str("\ncode ");
    out.append(joined.as_str());
    out.append("\n");
    out
}

/// The text appended to the notes for a scope. Missing files are skipped;
/// the others are scanned in scope order.
pub fn notes_appendix(files: &Vec<ScopedFile>) -> (r: Result<String, ExtractError>)
    ensures
        r is Err <==> (any_present(files@) && !regex_accepts(SIGNATURE_PATTERN@)),
        r is Ok ==> r->Ok_0@ == appendix(files@),
        r is Err ==> r == Err::<String, ExtractError>(ExtractError::PatternRefused),
{
    let mut out = render_scope_line(files);
    out.append("\n\n# Public/External Functions (excluding view/pure)\n");
    let ghost head = out@;
    let mut i: usize = 0;
    while i < files.len()
        invariant
            i <= files@.len(),
            head == scope_line(paths_of(files@)) + functions_heading(),
            out@ == head + sections(files@.subrange(0, i as int)),
            any_present(files@.subrange(0, i as int)) ==> regex_accepts(SIGNATURE_PATTERN@),
        decreases files@.len() - i,
    {
        let ghost part = files@.subrange(0, i + 1);
        proof {
            assert(part.drop_last() =~= files@.subrange(0, i as int));
        }
        match &files[i].text {
            Some(t) => {
                match extract_signatures(t.as_str()) {
                    Ok(sigs) => {
                        let sec = render_file_section(files[i].path.as_str(), &sigs);
                        out.append(sec.as_str());
                        proof {
                            assert(out@ =~= head + sections(part));
                        }
                        i = i + 1;
                    },
                    Err(e) => {
                        proof {
                            assert(files@[i as int].text is Some);
                            assert(any_present(files@));
                        }
                        return Err(e);
                    },
                }
            },
            None => {
                proof {
                    assert(out@ =~= head + sections(part));
                    if any_present(part) {
                        let j = choose|j: int| 0 <= j < part.len() && (#[trigger] part[j]).text is Some;
                        assert(part[j] == files@.subrange(0, i as int)[j]);
                    }
                }
                i = i + 1;
            },
        }
    }
    assert(files@.subrange(0, files@.len() as int) =~= files@);
    assert(out@ == appendix(files@));
    Ok(out)
}

/// A file in which the pattern finds nothing adds no subsection.
pub proof fn lemma_no_match_no_section(f: ScopedFile)
    requires
        f.text is Some,
        regex_find_all(SIGNATURE_PATTERN@, f.text->Some_0@).len() == 0,
    ensures
        entry_section(f) == Seq::<char>::empty(),
{
    lemma_no_match_no_signatures(f.text->Some_0@);
}

/// The subsections of two runs of entries, one after the other.
pub proof fn lemma_sections_append(a: Seq<ScopedFile>, b: Seq<ScopedFile>)
    ensures
        sections(a + b) == sections(a) + sections(b),
    decreases b.len(),
{
    if b.len() == 0 {
        assert(a + b =~= a);
        assert(sections(a) + sections(b) =~= sections(a));
    } else {
        lemma_sections_append(a, b.drop_last());
        assert((a + b).drop_last() =~= a + b.drop_last());
        assert((a + b).last() == b.last());
        assert(sections(a) + sections(b) =~= sections(a) + sections(b.drop_last()) + entry_section(
            b.last(),
        ));
    }
}

/// A missing file contributes nothing, and the entries after it are
/// reported as if it were not in the scope.
pub proof fn lemma_missing_entry_skipped(a: Seq<ScopedFile>, f: ScopedFile, b: Seq<ScopedFile>)
    requires
        f.text is None,
    ensures
        sections(a.push(f) + b) == sections(a + b),
{
    lemma_sections_append(a.push(f), b);
    lemma_sections_append(a, b);
    assert(a.push(f).drop_last() =~= a);
}

} // verus!
