//! Regular expressions: a pattern that compiles, and what its first match on
//! a line captures. PCRE2 does the work.
use crate::text::byte_len;
use vstd::prelude::*;

verus! {

/// The byte offsets, start and end, that a capture group matched.
pub type Span = (usize, usize);

/// What a search of a line for a pattern came to.
#[derive(Debug)]
pub enum Search {
    /// The engine gave up on the line.
    Failed,
    /// The pattern occurs nowhere in the line.
    NoMatch,
    /// The first match: the whole of it, then one entry for each capture
    /// group, `None` where a group took no part in the match.
    Found(Vec<Option<Span>>),
}

impl View for Search {
    type V = Option<Option<Seq<Option<Span>>>>;

    open spec fn view(&self) -> Option<Option<Seq<Option<Span>>>> {
        match self {
            Search::Failed => None,
            Search::NoMatch => Some(None),
            Search::Found(groups) => Some(Some(groups@)),
        }
    }
}

/// Every offset of every group is at most `limit`.
pub open spec fn spans_within(groups: Seq<Option<Span>>, limit: int) -> bool {
    forall|i: int| 0 <= i < groups.len() ==> match #[trigger] groups[i] {
        Some(span) => span.0 <= limit && span.1 <= limit,
        None => true,
    }
}

/// What PCRE2 reports when it does not accept `pattern`, or `None` where it
/// accepts it.
pub uninterp spec fn pcre2_compile_error(pattern: Seq<char>) -> Option<Seq<char>>;

/// The outcome of PCRE2's first search for `pattern` in `line`, in the form of
/// the view of [`Search`].
pub uninterp spec fn pcre2_first_match(pattern: Seq<char>, line: Seq<char>) -> Option<
    Option<Seq<Option<Span>>>,
>;

/// Calls `pcre2::bytes::Regex::new` and gives the text of its error.
///
/// Trusted: the answer depends on the pattern alone. `Regex::new` compiles
/// with the default options, without just-in-time compilation, and an error
/// is shown as a fixed message for its code and its offset in the pattern.
/// To run out of memory is left aside here as for every allocation.
#[verifier::external_body]
fn rejection(pattern: &str) -> (error: Option<String>)
    ensures
        match error {
            Some(text) => pcre2_compile_error(pattern@) == Some(text@),
            None => pcre2_compile_error(pattern@) is None,
        },
{
    match pcre2::bytes::Regex::new(pattern) {
        Ok(_) => None,
        Err(error) => Some(error.to_string()),
    }
}

/// Takes the first item of `pcre2::bytes::Regex::captures_iter` on the bytes
/// of `line` and copies the offsets of its groups. A pattern that is not
/// accepted counts as a failed search.
///
/// Trusted: the outcome depends on the pattern and the line alone. A match
/// has at least the entry of the whole match, and offsets are byte offsets
/// into the line, whose length fits in an `isize` as that of every `str`. The
/// limits at which the engine gives up are fixed when it is built; to run out
/// of memory is left aside.
#[verifier::external_body]
fn first_match(pattern: &str, line: &str) -> (search: Search)
    ensures
        search@ == pcre2_first_match(pattern@, line@),
        match search {
            Search::Found(groups) => groups@.len() >= 1 && spans_within(
                groups@,
                byte_len(line@) as int,
            ) && spans_within(groups@, isize::MAX as int),
            _ => true,
        },
{
    let regex = match pcre2::bytes::Regex::new(pattern) {
        Ok(regex) => regex,
        Err(_) => return Search::Failed,
    };
    let first = regex.captures_iter(line.as_bytes()).next();
    match first {
        None => Search::NoMatch,
        Some(Err(_)) => Search::Failed,
        Some(Ok(caps)) => Search::Found(
            (0..caps.len()).map(|i| caps.get(i).map(|m| (m.start(), m.end()))).collect(),
        ),
    }
}

/// A pattern that PCRE2 accepts.
#[derive(Debug)]
pub struct Pattern {
    source: String,
}

impl View for Pattern {
    type V = Seq<char>;

    closed spec fn view(&self) -> Seq<char> {
        self.source@
    }
}

impl Pattern {
    /// The pattern that is written as `source`, or what is wrong with it.
    pub fn new(source: &str) -> (pattern: Result<Pattern, String>)
        ensures
            match pattern {
                Ok(pattern) => pcre2_compile_error(source@) is None && pattern@ == source@,
                Err(error) => pcre2_compile_error(source@) == Some(error@),
            },
    {
        match rejection(source) {
            None => Ok(Pattern { source: source.to_owned() }),
            Some(error) => Err(error),
        }
    }

    /// The first match of the pattern on `line`.
    pub fn search(&self, line: &str) -> (search: Search)
        ensures
            search@ == pcre2_first_match(self@, line@),
            match search {
                Search::Found(groups) => groups@.len() >= 1 && spans_within(
                    groups@,
                    byte_len(line@) as int,
                ) && spans_within(groups@, isize::MAX as int),
                _ => true,
            },
    {
        first_match(self.source.as_str(), line)
    }
}

} // verus!
