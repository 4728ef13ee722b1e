//! Cross-file search: the pattern compilation and per-line matching are
//! done by the regex crate behind trusted wrappers; assembling the match
//! list, the line accounting and the result cap are verified here.  Walking
//! the file tree and reading files is the shell's job.
use vstd::prelude::*;
use crate::mdspec::split_nl;
use crate::mdparse::split_text;
use crate::chars::{chars_to_string, str_to_chars};

verus! {

/// The most results one search reports.
pub open spec fn max_results() -> int {
    500
}

#[verifier::external_type_specification]
#[verifier::external_body]
pub struct ExRegex(regex::Regex);

/// What `regex::escape` returns for a query: a function of the query text
/// alone.
pub uninterp spec fn regex_escaped(q: Seq<char>) -> Seq<char>;

/// Relies on `regex::escape`: escapes every meta character, so the result
/// matches the query literally; an empty query stays empty.
#[verifier::external_body]
fn escape_pattern(q: &str) -> (r: String)
    ensures
        r@ == regex_escaped(q@),
        q@.len() == 0 ==> r@.len() == 0,
{
    regex::escape(q)
}

/// Relies on `regex::RegexBuilder::new` / `case_insensitive` / `build`:
/// compiles the pattern, failing exactly on an invalid pattern.
#[verifier::external_body]
fn build_regex(pattern: &str, case_insensitive: bool) -> (r: Result<regex::Regex, String>) {
    regex::RegexBuilder::new(pattern)
        .case_insensitive(case_insensitive)
        .build()
        .map_err(|e| e.to_string())
}

/// Relies on `regex::Regex::find_iter` and `Match::start` / `Match::end`:
/// yields the successive non-overlapping matches, left to right, as byte
/// ranges.
#[verifier::external_body]
fn find_ranges(re: &regex::Regex, line: &str) -> (r: Vec<(usize, usize)>)
    ensures
        forall|i: int| 0 <= i < r@.len() ==> #[trigger] r@[i].0 <= r@[i].1,
        forall|i: int| 0 < i < r@.len() ==> #[trigger] r@[i - 1].1 <= r@[i].0,
{
    re.find_iter(line).map(|m| (m.start(), m.end())).collect()
}

/// Compiles a search query: taken verbatim as a pattern when `use_regex`
/// is set, otherwise escaped to match literally; matching is
/// case-insensitive unless asked otherwise.
pub fn compile_query(query: &str, case_sensitive: bool, use_regex: bool) -> (r: Result<
    regex::Regex,
    String,
>) {
    let pattern = if use_regex {
        query.to_owned()
    } else {
        escape_pattern(query)
    };
    build_regex(pattern.as_str(), !case_sensitive)
}

/// One match of a cross-file search.
#[derive(Debug, PartialEq, Eq)]
pub struct SearchResult {
    pub file_path: String,
    pub line_number: usize,
    pub line_content: String,
    pub match_start: usize,
    pub match_end: usize,
}

/// Every result names this file, points at a real line of the content (as
/// the codec's own line splitter counts them, 1-based), carries exactly
/// that line, and holds an ordered byte range.
pub open spec fn result_wf(res: SearchResult, path: Seq<char>, content: Seq<char>) -> bool {
    &&& res.file_path@ == path
    &&& 1 <= res.line_number <= split_nl(content).len()
    &&& res.line_content@ == split_nl(content)[res.line_number - 1]
    &&& res.match_start <= res.match_end
}

/// Searches one file's content, appending at most `max_results` total
/// results; every appended result is well-formed for this file.
#[verifier::loop_isolation(false)]
pub fn search_file_content(path: &str, content: &str, re: &regex::Regex, results: &mut Vec<
    SearchResult,
>)
    ensures
        final(results)@.len() >= old(results)@.len(),
        final(results)@.subrange(0, old(results)@.len() as int) == old(results)@,
        forall|i: int| old(results)@.len() <= i < final(results)@.len() ==> result_wf(
            #[trigger] final(results)@[i],
            path@,
            content@,
        ),
        final(results)@.len() <= old(results)@.len() || final(results)@.len() <= max_results(),
{
    proof {
        assert(results@.subrange(0, results@.len() as int) =~= results@);
    }
    let cc = str_to_chars(content);
    let lines = split_text(&cc);
    let ghost lv = split_nl(content@);
    let mut li: usize = 0;
    while li < lines.len()
        invariant
            li <= lines@.len(),
            results@.len() >= old(results)@.len(),
            results@.subrange(0, old(results)@.len() as int) == old(results)@,
            forall|i: int| old(results)@.len() <= i < results@.len() ==> result_wf(
                #[trigger] results@[i],
                path@,
                content@,
            ),
            results@.len() <= old(results)@.len() || results@.len() <= max_results(),
        decreases lines@.len() - li,
    {
        if results.len() >= 500 {
            return;
        }
        let line = &lines[li];
        let line_s = chars_to_string(line);
        let ranges = find_ranges(re, line_s.as_str());
        let mut ri: usize = 0;
        while ri < ranges.len()
            invariant
                li < lines@.len(),
                ri <= ranges@.len(),
                forall|i: int| 0 <= i < ranges@.len() ==> #[trigger] ranges@[i].0
                    <= ranges@[i].1,
                results@.len() >= old(results)@.len(),
                results@.subrange(0, old(results)@.len() as int) == old(results)@,
                forall|i: int| old(results)@.len() <= i < results@.len() ==> result_wf(
                    #[trigger] results@[i],
                    path@,
                    content@,
                ),
                results@.len() <= max_results(),
            decreases ranges@.len() - ri,
        {
            if results.len() >= 500 {
                return;
            }
            let ghost pre = results@;
            let res = SearchResult {
                file_path: path.to_owned(),
                line_number: li + 1,
                line_content: chars_to_string(line),
                match_start: ranges[ri].0,
                match_end: ranges[ri].1,
            };
            proof {
                assert(lines@[li as int]@ == crate::mdlines::lines_view(lines@)[li as int]);
                assert(result_wf(res, path@, content@));
            }
            results.push(res);
            proof {
                assert(results@.subrange(0, old(results)@.len() as int) =~= pre.subrange(
                    0,
                    old(results)@.len() as int,
                ));
            }
            ri = ri + 1;
        }
        li = li + 1;
    }
}

} // verus!
