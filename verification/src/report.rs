//! The report of a crawl: one line for each URL whose fetch failed.

use vstd::prelude::*;

verus! {

/// The line that reports the failed fetch of `url`.
pub open spec fn error_line(url: Seq<char>) -> Seq<char> {
    "ERROR: "@ + url
}

/// The line that reports the failed fetch of `url`: the URL behind
/// `ERROR: `, without a line end.
pub fn format_error(url: &String) -> (line: String)
    ensures
        line@ == error_line(url@),
        line@ == "ERROR: "@ + url@,
{
    let mut line = String::from_str("ERROR: ");
    line.append(url.as_str());
    line
}

/// The report of a crawl that ended with the error log `errors`: the line
/// of each failed URL, in the order of the failures.
pub fn error_report(errors: &Vec<String>) -> (lines: Vec<String>)
    ensures
        lines.deep_view() == errors.deep_view().map_values(|url: Seq<char>| error_line(url)),
{
    let ghost wanted = errors.deep_view().map_values(|url: Seq<char>| error_line(url));
    let mut lines: Vec<String> = Vec::new();
    let mut next: usize = 0;
    while next < errors.len()
        invariant
            next <= errors.len(),
            wanted == errors.deep_view().map_values(|url: Seq<char>| error_line(url)),
            lines.deep_view() == wanted.take(next as int),
        decreases errors.len() - next,
    {
        let ghost done = lines.deep_view();
        lines.push(format_error(&errors[next]));
        proof {
            assert(wanted.take(next + 1) =~= done.push(wanted[next as int]));
        }
        next = next + 1;
    }
    lines
}

} // verus!
