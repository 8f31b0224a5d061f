use vstd::prelude::*;

use crate::text::{chars_of, contains_seq, has_substring, texts};

verus! {

/// Declaration shape searched for: `function`, a name, a parameter list
/// without nested parentheses, `public` or `external`, then optionally
/// `view` or `pure`.
pub const SIGNATURE_PATTERN: &'static str = r"\b(function\s+\w+\s*\([^)]*\)\s*(public|external)(\s+(view|pure))?)";

#[verifier::external_type_specification]
#[verifier::external_body]
pub struct ExRegexError(regex::Error);

/// Whether the regex engine accepts `pattern` (syntax and default size limit).
pub uninterp spec fn regex_accepts(pattern: Seq<char>) -> bool;

/// The successive non-overlapping leftmost-first matches of `pattern` in
/// `text`, each as the matched text.
pub uninterp spec fn regex_find_all(pattern: Seq<char>, text: Seq<char>) -> Seq<Seq<char>>;

/// Relies on `regex::Regex::new` (whether the pattern compiles depends on the
/// pattern alone) and `regex::Regex::find_iter` with `Match::as_str` (the
/// matched texts depend on the pattern and the text alone).
#[verifier::external_body]
fn find_all_matches(pattern: &str, text: &str) -> (r: Result<Vec<String>, regex::Error>)
    ensures
        r is Ok <==> regex_accepts(pattern@),
        r is Ok ==> texts(r->Ok_0@) == regex_find_all(pattern@, text@),
{
    let re = regex::Regex::new(pattern)?;
    Ok(re.find_iter(text).map(|m| m.as_str().to_string()).collect())
}

/// A matched signature is kept when neither `view` nor `pure` occurs in it.
pub open spec fn is_state_changing(sig: Seq<char>) -> bool {
    !has_substring(sig, "view"@) && !has_substring(sig, "pure"@)
}

/// The matches that are kept, in their order, duplicates included.
pub open spec fn state_changing(ms: Seq<Seq<char>>) -> Seq<Seq<char>>
    decreases ms.len(),
{
    if ms.len() == 0 {
        seq![]
    } else {
        let init = state_changing(ms.drop_last());
        if is_state_changing(ms.last()) {
            init.push(ms.last())
        } else {
            init
        }
    }
}

/// The signatures reported for a file whose text is `text`.
pub open spec fn signatures_in(text: Seq<char>) -> Seq<Seq<char>> {
    state_changing(regex_find_all(SIGNATURE_PATTERN@, text))
}

/// The signature pattern was refused by the regex engine.
#[derive(Debug, Clone, Copy, PartialEq, Eq, Structural)]
pub enum ExtractError {
    PatternRefused,
}

/// Whether a matched signature is kept: it holds neither `view` nor `pure`.
pub fn is_state_changing_signature(sig: &str) -> (r: bool)
    ensures
        r == is_state_changing(sig@),
{
    let cs = chars_of(sig);
    let view = chars_of("view");
    let pure = chars_of("pure");
    !contains_seq(&cs, &view) && !contains_seq(&cs, &pure)
}

/// Keeps the matches that hold neither `view` nor `pure`, in order.
pub fn select_state_changing(matches: &Vec<String>) -> (r: Vec<String>)
    ensures
        texts(r@) == state_changing(texts(matches@)),
{
    let mut r: Vec<String> = Vec::new();
    let mut i: usize = 0;
    while i < matches.len()
        invariant
            i <= matches@.len(),
            texts(r@) == state_changing(texts(matches@.subrange(0, i as int))),
        decreases matches@.len() - i,
    {
        let m = &matches[i];
        proof {
            assert(texts(matches@.subrange(0, i + 1)).drop_last() =~= texts(
                matches@.subrange(0, i as int),
            ));
        }
        if is_state_changing_signature(m.as_str()) {
            r.push(m.clone());
            assert(texts(r@) =~= texts(r@.drop_last()).push(m@));
        }
        i = i + 1;
    }
    assert(matches@.subrange(0, matches@.len() as int) =~= matches@);
    r
}

/// The state-changing public or external function signatures of a source
/// text, in textual order.
pub fn extract_signatures(text: &str) -> (r: Result<Vec<String>, ExtractError>)
    ensures
        r is Ok <==> regex_accepts(SIGNATURE_PATTERN@),
        r is Ok ==> texts(r->Ok_0@) == signatures_in(text@),
        r is Err ==> r == Err::<Vec<String>, ExtractError>(ExtractError::PatternRefused),
{
    match find_all_matches(SIGNATURE_PATTERN, text) {
        Ok(ms) => Ok(select_state_changing(&ms)),
        Err(_) => Err(ExtractError::PatternRefused),
    }
}

/// Filtering distributes over concatenation: kept matches stay in their
/// textual order.
pub proof fn lemma_state_changing_append(a: Seq<Seq<char>>, b: Seq<Seq<char>>)
    ensures
        state_changing(a + b) == state_changing(a) + state_changing(b),
    decreases b.len(),
{
    if b.len() == 0 {
        assert(a + b =~= a);
        assert(state_changing(a) + state_changing(b) =~= state_changing(a));
    } else {
        lemma_state_changing_append(a, b.drop_last());
        assert((a + b).drop_last() =~= a + b.drop_last());
        assert((a + b).last() == b.last());
        if is_state_changing(b.last()) {
            assert(state_changing(a) + state_changing(b) =~= (state_changing(a) + state_changing(
                b.drop_last(),
            )).push(b.last()));
        }
    }
}

/// Every reported signature holds neither `view` nor `pure`; matches that
/// hold neither are all reported, in order and with repeats; matches that
/// all hold one of them leave nothing.
pub proof fn lemma_state_changing_filter(ms: Seq<Seq<char>>)
    ensures
        forall|i: int|
            0 <= i < state_changing(ms).len() ==> is_state_changing(#[trigger] state_changing(ms)[i]),
        (forall|i: int| 0 <= i < ms.len() ==> is_state_changing(#[trigger] ms[i]))
            ==> state_changing(ms) == ms,
        (forall|i: int| 0 <= i < ms.len() ==> !is_state_changing(#[trigger] ms[i]))
            ==> state_changing(ms).len() == 0,
    decreases ms.len(),
{
    if ms.len() > 0 {
        let init = ms.drop_last();
        lemma_state_changing_filter(init);
        if forall|i: int| 0 <= i < ms.len() ==> is_state_changing(#[trigger] ms[i]) {
            assert forall|i: int| 0 <= i < init.len() implies is_state_changing(
                #[trigger] init[i],
            ) by {
                assert(init[i] == ms[i]);
            }
            assert(is_state_changing(ms[ms.len() - 1]));
            assert(init.push(ms.last()) =~= ms);
        }
        if forall|i: int| 0 <= i < ms.len() ==> !is_state_changing(#[trigger] ms[i]) {
            assert forall|i: int| 0 <= i < init.len() implies !is_state_changing(
                #[trigger] init[i],
            ) by {
                assert(init[i] == ms[i]);
            }
            assert(!is_state_changing(ms[ms.len() - 1]));
        }
    }
}

/// A text in which the pattern finds nothing yields no signatures.
pub proof fn lemma_no_match_no_signatures(text: Seq<char>)
    requires
        regex_find_all(SIGNATURE_PATTERN@, text).len() == 0,
    ensures
        signatures_in(text).len() == 0,
{
}

} // verus!
