//! URLs as the URL parser reads them: the segments of the path.

use vstd::prelude::*;

verus! {

/// The texts that a list of strings holds.
pub open spec fn texts(strings: Seq<String>) -> Seq<Seq<char>> {
    strings.map_values(|s: String| s@)
}

/// The segments of the path of `url` as `Url::parse` and
/// `Url::path_segments` give them, each still percent-encoded; `None`
/// where `url` is no absolute URL and where it cannot be a base, which
/// has no segments.
pub uninterp spec fn path_segments(url: Seq<char>) -> Option<Seq<Seq<char>>>;

/// Parses `url` with `Url::parse` and hands back what
/// `Url::path_segments` yields, segment by segment.
#[verifier::external_body]
fn url_path_segments(url: &str) -> (segments: Option<Vec<String>>)
    ensures
        segments is Some == path_segments(url@) is Some,
        segments matches Some(list) ==> path_segments(url@) == Some(texts(list@)),
{
    match reqwest::Url::parse(url) {
        Ok(parsed) => match parsed.path_segments() {
            Some(segments) => Some(segments.map(str::to_owned).collect()),
            None => None,
        },
        Err(_) => None,
    }
}

/// The last segment of the path of `url`; `None` where the URL has no
/// path segments.
pub open spec fn last_path_segment(url: Seq<char>) -> Option<Seq<char>> {
    match path_segments(url) {
        Some(segments) if segments.len() > 0 => Some(segments.last()),
        _ => None,
    }
}

/// The last segment of the path of `url`.
pub fn last_segment(url: &str) -> (segment: Option<String>)
    ensures
        segment is Some == last_path_segment(url@) is Some,
        segment matches Some(s) ==> last_path_segment(url@) == Some(s@),
{
    match url_path_segments(url) {
        Some(segments) => {
            let mut segments = segments;
            let ghost all = segments@;
            let last = segments.pop();
            proof {
                if all.len() > 0 {
                    assert(texts(all).last() == all.last()@);
                }
            }
            last
        },
        None => None,
    }
}

} // verus!
