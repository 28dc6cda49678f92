//! Discovery of the resources of a Moodle course: how a link is
//! classified, and how the crawl over a course's pages is bounded and
//! kept from visiting a link twice.

use crate::data::{
    CourseFile, CourseFileMetadata, CourseFileResource, CourseFileView, MetadataView, ResourceView,
};
use crate::text::{after_last, find_suffix_start, lemma_suffix_start, replace_all, replaced};
use crate::urls::{last_path_segment, last_segment};
use crate::vectors::reversed;
use vstd::prelude::*;

verus! {

/// What a link turned out to be: a resource of the course, or a page to
/// be crawled in turn.
#[derive(Debug, Clone)]
pub enum CourseFileOrSubpage {
    CourseFile(CourseFile),
    Subpage { subpage_depth: i32, subpage_url: String },
}

/// Mathematical model of [`CourseFileOrSubpage`].
pub ghost enum LinkView {
    CourseFile(CourseFileView),
    Subpage { subpage_depth: int, subpage_url: Seq<char> },
}

impl View for CourseFileOrSubpage {
    type V = LinkView;

    open spec fn view(&self) -> LinkView {
        match *self {
            CourseFileOrSubpage::CourseFile(file) => LinkView::CourseFile(file@),
            CourseFileOrSubpage::Subpage { subpage_depth, subpage_url } => LinkView::Subpage {
                subpage_depth: subpage_depth as int,
                subpage_url: subpage_url@,
            },
        }
    }
}

/// `text` in lower case, as `str::to_lowercase` gives it.
pub uninterp spec fn lowercased(text: Seq<char>) -> Seq<char>;

/// Calls `str::to_lowercase`.
#[verifier::external_body]
fn to_lowercase(text: &str) -> (lower: String)
    ensures
        lower@ == lowercased(text@),
{
    text.to_lowercase()
}

/// The file extension of a path segment: what follows its last `.`, in
/// lower case; `None` where the segment holds no `.`.
pub open spec fn extension_of(segment: Seq<char>) -> Option<Seq<char>> {
    if segment.contains('.') {
        Some(lowercased(after_last(segment, '.')))
    } else {
        None
    }
}

/// The file extension of the last path segment of `url`.
pub open spec fn url_extension(url: Seq<char>) -> Option<Seq<char>> {
    match last_path_segment(url) {
        Some(segment) => extension_of(segment),
        None => None,
    }
}

/// Extensions of pages that are crawled in turn.
pub open spec fn is_page_extension(extension: Seq<char>) -> bool {
    extension == seq!['h', 't', 'm', 'l'] || extension == seq!['p', 'h', 'p']
}

/// The classification of a link from the extension of its URL.
///
/// `mp4` is a video file and `m3u8` a stream. `html` and `php` lead to a
/// page one level further down. Any other extension is a document. A
/// link without extension is ignored.
pub open spec fn classified(
    url: Seq<char>,
    metadata: MetadataView,
    depth: int,
    extension: Option<Seq<char>>,
) -> Option<LinkView> {
    match extension {
        None => None,
        Some(e) => if e == seq!['m', 'p', '4'] {
            Some(
                LinkView::CourseFile(
                    CourseFileView { resource: ResourceView::Mp4File { url }, metadata },
                ),
            )
        } else if e == seq!['m', '3', 'u', '8'] {
            Some(
                LinkView::CourseFile(
                    CourseFileView {
                        resource: ResourceView::HlsStream { main_m3u8_url: url },
                        metadata,
                    },
                ),
            )
        } else if is_page_extension(e) {
            Some(LinkView::Subpage { subpage_depth: depth + 1, subpage_url: url })
        } else {
            Some(
                LinkView::CourseFile(
                    CourseFileView {
                        resource: ResourceView::Document { url, file_extension: Some(e) },
                        metadata,
                    },
                ),
            )
        },
    }
}

/// The file extension of the last path segment of `url`, in lower case.
pub fn file_extension(url: &str) -> (extension: Option<String>)
    ensures
        extension is Some == url_extension(url@) is Some,
        extension matches Some(e) ==> url_extension(url@) == Some(e@),
{
    match last_segment(url) {
        Some(segment) => {
            let start: usize = find_suffix_start(segment.as_str(), '.');
            proof {
                lemma_suffix_start(segment@, '.');
            }
            if start == 0 {
                None
            } else {
                let n: usize = segment.as_str().unicode_len();
                let tail = segment.as_str().substring_char(start, n);
                proof {
                    assert(segment@.subrange(start as int, n as int) == segment@.skip(start as int));
                }
                Some(to_lowercase(tail))
            }
        },
        None => None,
    }
}

/// Classifies a link whose URL has the extension `extension`.
pub fn classify_link(
    url: String,
    metadata: CourseFileMetadata,
    depth: i32,
    extension: Option<String>,
) -> (link: Option<CourseFileOrSubpage>)
    requires
        depth < i32::MAX,
    ensures
        link is Some == extension is Some,
        link matches Some(l) ==> classified(
            url@,
            metadata@,
            depth as int,
            match extension {
                Some(e) => Some(e@),
                None => None,
            },
        ) == Some(l@),
{
    match extension {
        None => None,
        Some(extension) => {
            proof {
                reveal_strlit("mp4");
                reveal_strlit("m3u8");
                reveal_strlit("html");
                reveal_strlit("php");
            }
            let mp4 = String::from_str("mp4");
            let m3u8 = String::from_str("m3u8");
            let html = String::from_str("html");
            let php = String::from_str("php");
            assert(mp4@ =~= seq!['m', 'p', '4']);
            assert(m3u8@ =~= seq!['m', '3', 'u', '8']);
            assert(html@ =~= seq!['h', 't', 'm', 'l']);
            assert(php@ =~= seq!['p', 'h', 'p']);
            if extension == mp4 {
                Some(
                    CourseFileOrSubpage::CourseFile(
                        CourseFile { resource: CourseFileResource::Mp4File { url }, metadata },
                    ),
                )
            } else if extension == m3u8 {
                Some(
                    CourseFileOrSubpage::CourseFile(
                        CourseFile {
                            resource: CourseFileResource::HlsStream { main_m3u8_url: url },
                            metadata,
                        },
                    ),
                )
            } else if extension == html || extension == php {
                Some(CourseFileOrSubpage::Subpage { subpage_depth: depth + 1, subpage_url: url })
            } else {
                Some(
                    CourseFileOrSubpage::CourseFile(
                        CourseFile {
                            resource: CourseFileResource::Document {
                                url,
                                file_extension: Some(extension),
                            },
                            metadata,
                        },
                    ),
                )
            }
        },
    }
}

/// Classifies the link that leads to `url`, found at depth `depth` under
/// the given titles.
pub fn moodle_course_file(
    url: String,
    lecture_title: String,
    section_title: String,
    activity_title: String,
    depth: i32,
) -> (link: Option<CourseFileOrSubpage>)
    requires
        depth < i32::MAX,
    ensures
        link is Some == url_extension(url@) is Some,
        link matches Some(l) ==> classified(
            url@,
            MetadataView::MoodleActivity {
                lecture_title: lecture_title@,
                section_title: section_title@,
                activity_title: activity_title@,
            },
            depth as int,
            url_extension(url@),
        ) == Some(l@),
{
    let metadata = CourseFileMetadata::MoodleActivity {
        lecture_title,
        section_title,
        activity_title,
    };
    let extension = file_extension(url.as_str());
    classify_link(url, metadata, depth, extension)
}

/// What the first capture group of the regular expression `pattern`
/// holds at the leftmost match in `text`, as the `regex` crate finds it;
/// `None` where `pattern` is no regular expression, where nothing
/// matches, and where the group took no part in the match.
pub uninterp spec fn regex_first_group(pattern: Seq<char>, text: Seq<char>) -> Option<Seq<char>>;

/// Compiles `pattern` with `Regex::new`, searches `text` with
/// `Regex::captures` and takes group 1 of the match with `Captures::get`.
#[verifier::external_body]
fn first_group(pattern: &str, text: &str) -> (group: Option<String>)
    ensures
        group is Some == regex_first_group(pattern@, text@) is Some,
        group matches Some(g) ==> regex_first_group(pattern@, text@) == Some(g@),
{
    match regex::Regex::new(pattern) {
        Ok(expression) => match expression.captures(text) {
            Some(captures) => match captures.get(1) {
                Some(found) => Some(found.as_str().to_owned()),
                None => None,
            },
            None => None,
        },
        Err(_) => None,
    }
}

/// The pattern under which the page of an embedded video player names
/// the video file.
pub const VIDEO_URL_PATTERN: &'static str = "\"VideoUrl\":\"(.*?)\"";

/// A URL as it is written inside a script, where `/` stands as `\/`,
/// turned back into the URL.
pub open spec fn unescaped(raw: Seq<char>) -> Seq<char> {
    replaced(raw, seq!['\\', '/'], seq!['/'])
}

/// The URL of the video file that the page of an embedded player names,
/// if it names one.
pub open spec fn embedded_video_url(page: Seq<char>) -> Option<Seq<char>> {
    match regex_first_group(VIDEO_URL_PATTERN@, page) {
        Some(raw) => Some(unescaped(raw)),
        None => None,
    }
}

/// Turns a URL taken from a script back into the URL: every `\/` becomes
/// `/`.
pub fn unescape_url(raw: &str) -> (url: String)
    ensures
        url@ == unescaped(raw@),
{
    proof {
        reveal_strlit("\\/");
        reveal_strlit("/");
    }
    assert("\\/"@ =~= seq!['\\', '/']);
    assert("/"@ =~= seq!['/']);
    replace_all(raw, "\\/", "/")
}

/// Finds the URL of the video file in the page of an embedded player.
pub fn panopto_video_url(page: &str) -> (url: Option<String>)
    ensures
        url is Some == embedded_video_url(page@) is Some,
        url matches Some(u) ==> embedded_video_url(page@) == Some(u@),
{
    match first_group(VIDEO_URL_PATTERN, page) {
        Some(raw) => Some(unescape_url(raw.as_str())),
        None => None,
    }
}

/// `flurry::HashSet`, the concurrent set that records which links a crawl
/// has taken up.
#[verifier::external_type_specification]
#[verifier::external_body]
#[verifier::reject_recursive_types(T)]
#[verifier::reject_recursive_types(S)]
pub struct ExFlurryHashSet<T, S>(flurry::HashSet<T, S>);

/// `flurry::DefaultHashBuilder`, the hasher of such a set.
#[verifier::external_type_specification]
#[verifier::external_body]
pub struct ExDefaultHashBuilder(flurry::DefaultHashBuilder);

/// The strings that a set of URLs holds.
pub uninterp spec fn url_set_contents(set: flurry::HashSet<String>) -> Set<Seq<char>>;

/// Calls `flurry::HashSet::new`: a set that holds nothing.
#[verifier::external_body]
fn new_url_set() -> (set: flurry::HashSet<String>)
    ensures
        url_set_contents(set) == Set::<Seq<char>>::empty(),
{
    flurry::HashSet::new()
}

/// Calls `flurry::HashSet::insert` under a guard of the set. Afterwards
/// the set holds `url` besides what it held; the result tells whether
/// `url` was missing before.
#[verifier::external_body]
fn insert_url(set: &mut flurry::HashSet<String>, url: String) -> (added: bool)
    ensures
        added == !url_set_contents(*old(set)).contains(url@),
        url_set_contents(*final(set)) == url_set_contents(*old(set)).insert(url@),
{
    let guard = set.guard();
    set.insert(url, &guard)
}

/// A link found on a page, before it is followed.
#[derive(Debug, Clone)]
pub struct CandidateLink {
    pub url: String,
    pub display_text: String,
    pub section_title: String,
    /// Set where the link is the source of an embedded video player.
    pub embedded_player: bool,
}

/// What a crawl is doing at the moment.
#[derive(Debug, Clone, Copy, PartialEq, Eq, Structural)]
pub enum CrawlPhase {
    /// No page is being visited.
    Idle,
    /// The page at this depth is being fetched.
    Loading { depth: i32 },
    /// The links of the page at this depth are being followed; `pending`
    /// of them have not reported back.
    Resolving { depth: i32, pending: usize },
}

/// What the caller of a crawl has to do next.
#[derive(Debug, Clone)]
pub enum CrawlAction {
    /// Fetch this page and report its links.
    Visit { url: String, depth: i32 },
    /// The page being visited has not been dealt with: report it first.
    Busy,
    /// No page is left.
    Finished,
}

/// The resources a crawl found together with what went wrong on the way.
#[derive(Debug, Clone)]
pub struct MoodleCrawlingError {
    pub successful_detections: Vec<CourseFile>,
    pub failed_detections: Vec<String>,
}

/// Whether link `i` of `links` is taken up: its URL is not among
/// `visited` and no earlier link of the page has it.
pub open spec fn first_seen(visited: Set<Seq<char>>, links: Seq<CandidateLink>, i: int) -> bool {
    &&& !visited.contains(links[i].url@)
    &&& forall|j: int| 0 <= j < i ==> (#[trigger] links[j]).url@ != links[i].url@
}

/// The links of a page that are taken up, in page order.
pub open spec fn accepted_links(visited: Set<Seq<char>>, links: Seq<CandidateLink>) -> Seq<
    CandidateLink,
>
    decreases links.len(),
{
    if links.len() == 0 {
        Seq::empty()
    } else {
        let earlier = accepted_links(visited, links.drop_last());
        if first_seen(visited, links, links.len() - 1) {
            earlier.push(links.last())
        } else {
            earlier
        }
    }
}

/// `visited` together with the URLs of `links`.
pub open spec fn visited_with(visited: Set<Seq<char>>, links: Seq<CandidateLink>) -> Set<Seq<char>> {
    Set::new(
        |url: Seq<char>|
            visited.contains(url) || exists|i: int|
                0 <= i < links.len() && (#[trigger] links[i]).url@ == url,
    )
}

/// The phase after one followed link has reported back.
pub open spec fn after_report(phase: CrawlPhase) -> CrawlPhase {
    match phase {
        CrawlPhase::Resolving { depth, pending } => if pending <= 1 {
            CrawlPhase::Idle
        } else {
            CrawlPhase::Resolving { depth, pending: (pending - 1) as usize }
        },
        other => other,
    }
}

/// Whether a page found at depth `depth` is visited by a crawl bounded
/// by `max_depth`.
pub open spec fn within_depth(depth: int, max_depth: int) -> bool {
    depth <= max_depth
}

/// The crawl of one course: which links were taken up, which pages wait
/// to be visited, and what was found.
///
/// The caller fetches the root page of the course itself and reports its
/// links; from then on [`MoodleCrawl::next`] names the pages to visit.
pub struct MoodleCrawl {
    max_depth: i32,
    visited: flurry::HashSet<String>,
    subpages: Vec<(String, i32)>,
    phase: CrawlPhase,
    course_files: Vec<CourseFile>,
    failures: Vec<String>,
}

impl MoodleCrawl {
    /// The deepest level at which pages are visited.
    pub closed spec fn max_depth(&self) -> int {
        self.max_depth as int
    }

    /// The URLs of the links taken up so far.
    pub closed spec fn visited(&self) -> Set<Seq<char>> {
        url_set_contents(self.visited)
    }

    /// The pages that wait to be visited, next first, each with its depth.
    pub closed spec fn queue(&self) -> Seq<(String, i32)> {
        self.subpages@
    }

    pub closed spec fn phase(&self) -> CrawlPhase {
        self.phase
    }

    /// The resources found so far.
    pub closed spec fn course_files(&self) -> Seq<CourseFile> {
        self.course_files@
    }

    /// What went wrong so far.
    pub closed spec fn failures(&self) -> Seq<String> {
        self.failures@
    }

    /// The invariant of a crawl: no page deeper than `max_depth` waits or
    /// is being visited, but for the root page at depth 0.
    pub closed spec fn wf(&self) -> bool {
        &&& forall|k: int|
            0 <= k < self.subpages@.len() ==> (#[trigger] self.subpages@[k]).1 <= self.max_depth
        &&& match self.phase {
            CrawlPhase::Idle => true,
            CrawlPhase::Loading { depth } => depth <= self.max_depth || depth == 0,
            CrawlPhase::Resolving { depth, pending } => (depth <= self.max_depth || depth == 0)
                && pending > 0,
        }
    }

    /// The crawl of a course whose root page is being fetched.
    pub fn new(max_depth: i32) -> (crawl: Self)
        ensures
            crawl.wf(),
            crawl.max_depth() == max_depth,
            crawl.visited() == Set::<Seq<char>>::empty(),
            crawl.queue().len() == 0,
            crawl.phase() == (CrawlPhase::Loading { depth: 0 }),
            crawl.course_files().len() == 0,
            crawl.failures().len() == 0,
    {
        MoodleCrawl {
            max_depth,
            visited: new_url_set(),
            subpages: Vec::new(),
            phase: CrawlPhase::Loading { depth: 0 },
            course_files: Vec::new(),
            failures: Vec::new(),
        }
    }

    /// Takes the links of the page that was being fetched and hands back
    /// those to follow: each link whose URL was not taken up before, once.
    ///
    /// Where no page was being fetched nothing is taken up and nothing
    /// changes.
    pub fn page_loaded(&mut self, links: Vec<CandidateLink>) -> (follow: Vec<CandidateLink>)
        requires
            old(self).wf(),
        ensures
            final(self).wf(),
            final(self).max_depth() == old(self).max_depth(),
            final(self).queue() == old(self).queue(),
            final(self).course_files() == old(self).course_files(),
            final(self).failures() == old(self).failures(),
            match old(self).phase() {
                CrawlPhase::Loading { depth } => {
                    &&& follow@ == accepted_links(old(self).visited(), links@)
                    &&& final(self).visited() == visited_with(old(self).visited(), links@)
                    &&& final(self).phase() == if follow@.len() == 0 {
                        CrawlPhase::Idle
                    } else {
                        CrawlPhase::Resolving { depth, pending: follow@.len() as usize }
                    }
                },
                _ => {
                    &&& follow@.len() == 0
                    &&& final(self).visited() == old(self).visited()
                    &&& final(self).phase() == old(self).phase()
                },
            },
    {
        let depth = match self.phase {
            CrawlPhase::Loading { depth } => depth,
            _ => {
                return Vec::new();
            },
        };
        let ghost before = url_set_contents(self.visited);
        let total: usize = links.len();
        let mut rest = reversed(links);
        let mut follow: Vec<CandidateLink> = Vec::new();
        while rest.len() > 0
            invariant
                total == links@.len(),
                rest@.len() <= total,
                forall|t: int|
                    0 <= t < rest@.len() ==> #[trigger] rest@[t] == links@[total - 1 - t],
                follow@ == accepted_links(before, links@.take(total - rest@.len())),
                url_set_contents(self.visited) == visited_with(
                    before,
                    links@.take(total - rest@.len()),
                ),
                self.max_depth == old(self).max_depth,
                self.subpages@ == old(self).subpages@,
                self.phase == old(self).phase,
                self.course_files@ == old(self).course_files@,
                self.failures@ == old(self).failures@,
            decreases rest@.len(),
        {
            let ghost done = total - rest@.len();
            let ghost seen = url_set_contents(self.visited);
            match rest.pop() {
                Some(link) => {
                    let added = insert_url(&mut self.visited, link.url.clone());
                    proof {
                        let earlier = links@.take(done);
                        let now = links@.take(done + 1);
                        assert(now.drop_last() == earlier);
                        assert(now.last() == link);
                        assert forall|j: int| 0 <= j < done implies earlier[j] == now[j] by {}
                        if added {
                            assert(first_seen(before, now, done)) by {
                                assert(!seen.contains(link.url@));
                                assert forall|j: int| 0 <= j < done implies (#[trigger] now[j]).url@
                                    != now[done].url@ by {
                                    if now[j].url@ == link.url@ {
                                        assert(earlier[j].url@ == link.url@);
                                        assert(seen.contains(link.url@));
                                    }
                                }
                            }
                        } else {
                            assert(seen.contains(link.url@));
                            if !before.contains(link.url@) {
                                let j = choose|j: int|
                                    0 <= j < earlier.len() && (#[trigger] earlier[j]).url@
                                        == link.url@;
                                assert(now[j].url@ == now[done].url@);
                            }
                            assert(!first_seen(before, now, done));
                        }
                        assert(url_set_contents(self.visited) =~= visited_with(before, now)) by {
                            assert forall|url: Seq<char>|
                                visited_with(before, now).contains(url) implies seen.insert(
                                link.url@,
                            ).contains(url) by {
                                if !before.contains(url) {
                                    let i = choose|i: int|
                                        0 <= i < now.len() && (#[trigger] now[i]).url@ == url;
                                    if i < done {
                                        assert(earlier[i].url@ == url);
                                    }
                                }
                            }
                            assert forall|url: Seq<char>|
                                seen.insert(link.url@).contains(url) implies visited_with(
                                before,
                                now,
                            ).contains(url) by {
                                if url == link.url@ {
                                    assert(now[done].url@ == url);
                                } else if !before.contains(url) {
                                    let i = choose|i: int|
                                        0 <= i < earlier.len() && (#[trigger] earlier[i]).url@
                                            == url;
                                    assert(now[i].url@ == url);
                                }
                            }
                        }
                    }
                    if added {
                        follow.push(link);
                    }
                },
                None => {},
            }
        }
        proof {
            assert(links@.take(total as int) == links@);
        }
        if follow.len() == 0 {
            self.phase = CrawlPhase::Idle;
        } else {
            self.phase = CrawlPhase::Resolving { depth, pending: follow.len() };
        }
        follow
    }

    /// Counts one followed link as having reported back.
    fn report(&mut self)
        requires
            old(self).wf(),
            old(self).phase is Resolving,
        ensures
            final(self).wf(),
            final(self).phase == after_report(old(self).phase),
            final(self).max_depth == old(self).max_depth,
            final(self).visited == old(self).visited,
            final(self).subpages == old(self).subpages,
            final(self).course_files == old(self).course_files,
            final(self).failures == old(self).failures,
    {
        match self.phase {
            CrawlPhase::Resolving { depth, pending } => {
                if pending <= 1 {
                    self.phase = CrawlPhase::Idle;
                } else {
                    self.phase = CrawlPhase::Resolving { depth, pending: pending - 1 };
                }
            },
            _ => {},
        }
    }

    /// Records what a followed link turned out to be: a resource is
    /// added to the resources found, a page is queued unless it lies
    /// deeper than the crawl goes, and `None` leaves both as they are.
    ///
    /// Where no link was being followed nothing changes and the result
    /// is `false`.
    pub fn link_classified(&mut self, link: Option<CourseFileOrSubpage>) -> (expected: bool)
        requires
            old(self).wf(),
        ensures
            final(self).wf(),
            final(self).max_depth() == old(self).max_depth(),
            final(self).visited() == old(self).visited(),
            final(self).failures() == old(self).failures(),
            expected == old(self).phase() is Resolving,
            final(self).phase() == after_report(old(self).phase()),
            final(self).course_files() == match link {
                Some(CourseFileOrSubpage::CourseFile(file)) if expected => {
                    old(self).course_files().push(file)
                },
                _ => old(self).course_files(),
            },
            final(self).queue() == match link {
                Some(CourseFileOrSubpage::Subpage { subpage_depth, subpage_url }) if expected
                    && within_depth(subpage_depth as int, old(self).max_depth()) => {
                    old(self).queue().push((subpage_url, subpage_depth))
                },
                _ => old(self).queue(),
            },
    {
        match self.phase {
            CrawlPhase::Resolving { .. } => {},
            _ => {
                return false;
            },
        }
        match link {
            Some(CourseFileOrSubpage::CourseFile(file)) => {
                self.course_files.push(file);
            },
            Some(CourseFileOrSubpage::Subpage { subpage_depth, subpage_url }) => {
                if subpage_depth <= self.max_depth {
                    self.subpages.push((subpage_url, subpage_depth));
                }
            },
            None => {},
        }
        self.report();
        true
    }

    /// Records that following a link failed, with the reason.
    ///
    /// Where no link was being followed nothing changes and the result
    /// is `false`.
    pub fn link_failed(&mut self, reason: String) -> (expected: bool)
        requires
            old(self).wf(),
        ensures
            final(self).wf(),
            final(self).max_depth() == old(self).max_depth(),
            final(self).visited() == old(self).visited(),
            final(self).queue() == old(self).queue(),
            final(self).course_files() == old(self).course_files(),
            expected == old(self).phase() is Resolving,
            final(self).phase() == after_report(old(self).phase()),
            final(self).failures() == if expected {
                old(self).failures().push(reason)
            } else {
                old(self).failures()
            },
    {
        match self.phase {
            CrawlPhase::Resolving { .. } => {},
            _ => {
                return false;
            },
        }
        self.failures.push(reason);
        self.report();
        true
    }

    /// Records that a followed link led to `url`: classifies the link at
    /// the depth of the page it was found on, under the given titles, and
    /// records the outcome as [`Self::link_classified`] does.
    pub fn link_resolved(
        &mut self,
        url: String,
        lecture_title: String,
        section_title: String,
        activity_title: String,
    ) -> (expected: bool)
        requires
            old(self).wf(),
        ensures
            final(self).wf(),
            final(self).max_depth() == old(self).max_depth(),
            final(self).visited() == old(self).visited(),
            final(self).failures() == old(self).failures(),
            expected == old(self).phase() is Resolving,
            final(self).phase() == after_report(old(self).phase()),
            !expected ==> final(self).course_files() == old(self).course_files(),
            !expected ==> final(self).queue() == old(self).queue(),
            old(self).phase() matches CrawlPhase::Resolving { depth, pending } ==> match classified(
                url@,
                MetadataView::MoodleActivity {
                    lecture_title: lecture_title@,
                    section_title: section_title@,
                    activity_title: activity_title@,
                },
                depth as int,
                url_extension(url@),
            ) {
                Some(LinkView::CourseFile(file)) => {
                    &&& final(self).queue() == old(self).queue()
                    &&& final(self).course_files().len() == old(self).course_files().len() + 1
                    &&& final(self).course_files().drop_last() == old(self).course_files()
                    &&& final(self).course_files().last()@ == file
                },
                Some(LinkView::Subpage { subpage_depth, subpage_url }) => {
                    &&& final(self).course_files() == old(self).course_files()
                    &&& if within_depth(subpage_depth, old(self).max_depth()) {
                        &&& final(self).queue().len() == old(self).queue().len() + 1
                        &&& final(self).queue().drop_last() == old(self).queue()
                        &&& final(self).queue().last().0@ == subpage_url
                        &&& final(self).queue().last().1 == subpage_depth
                    } else {
                        final(self).queue() == old(self).queue()
                    }
                },
                None => {
                    &&& final(self).course_files() == old(self).course_files()
                    &&& final(self).queue() == old(self).queue()
                },
            },
    {
        let depth = match self.phase {
            CrawlPhase::Resolving { depth, .. } => depth,
            _ => {
                return false;
            },
        };
        let link = if depth < i32::MAX {
            moodle_course_file(url, lecture_title, section_title, activity_title, depth)
        } else {
            // A page one level further down lies deeper than any bound.
            match moodle_course_file(url, lecture_title, section_title, activity_title, depth - 1) {
                Some(CourseFileOrSubpage::Subpage { .. }) => None,
                other => other,
            }
        };
        let ghost files = self.course_files@;
        let ghost queue = self.subpages@;
        let ghost found = link;
        let expected = self.link_classified(link);
        proof {
            match found {
                Some(CourseFileOrSubpage::CourseFile(file)) => {
                    assert(files.push(file).drop_last() == files);
                },
                Some(CourseFileOrSubpage::Subpage { subpage_depth, subpage_url }) => {
                    assert(queue.push((subpage_url, subpage_depth)).drop_last() == queue);
                },
                None => {},
            }
        }
        expected
    }

    /// Records that the page being fetched could not be had, with the
    /// reason. The crawl goes on with the pages that wait.
    ///
    /// Where no page was being fetched nothing changes and the result is
    /// `false`.
    pub fn page_failed(&mut self, reason: String) -> (expected: bool)
        requires
            old(self).wf(),
        ensures
            final(self).wf(),
            final(self).max_depth() == old(self).max_depth(),
            final(self).visited() == old(self).visited(),
            final(self).queue() == old(self).queue(),
            final(self).course_files() == old(self).course_files(),
            expected == old(self).phase() is Loading,
            final(self).phase() == if expected {
                CrawlPhase::Idle
            } else {
                old(self).phase()
            },
            final(self).failures() == if expected {
                old(self).failures().push(reason)
            } else {
                old(self).failures()
            },
    {
        match self.phase {
            CrawlPhase::Loading { .. } => {},
            _ => {
                return false;
            },
        }
        self.failures.push(reason);
        self.phase = CrawlPhase::Idle;
        true
    }

    /// Names the page to visit next: the one that has waited longest.
    /// Pages are visited one at a time, and never one that lies deeper
    /// than the crawl goes.
    pub fn next(&mut self) -> (action: CrawlAction)
        requires
            old(self).wf(),
        ensures
            final(self).wf(),
            final(self).max_depth() == old(self).max_depth(),
            final(self).visited() == old(self).visited(),
            final(self).course_files() == old(self).course_files(),
            final(self).failures() == old(self).failures(),
            match action {
                CrawlAction::Visit { url, depth } => {
                    &&& old(self).phase() is Idle
                    &&& old(self).queue().len() > 0
                    &&& (url, depth) == old(self).queue()[0]
                    &&& depth <= old(self).max_depth()
                    &&& final(self).queue() == old(self).queue().remove(0)
                    &&& final(self).phase() == CrawlPhase::Loading { depth }
                },
                CrawlAction::Busy => {
                    &&& !(old(self).phase() is Idle)
                    &&& final(self).queue() == old(self).queue()
                    &&& final(self).phase() == old(self).phase()
                },
                CrawlAction::Finished => {
                    &&& old(self).phase() is Idle
                    &&& old(self).queue().len() == 0
                    &&& final(self).queue() == old(self).queue()
                    &&& final(self).phase() == old(self).phase()
                },
            },
    {
        match self.phase {
            CrawlPhase::Idle => {},
            _ => {
                return CrawlAction::Busy;
            },
        }
        if self.subpages.len() == 0 {
            return CrawlAction::Finished;
        }
        let (url, depth) = self.subpages.remove(0);
        self.phase = CrawlPhase::Loading { depth };
        CrawlAction::Visit { url, depth }
    }

    /// Ends the crawl: the resources found, or, where anything went
    /// wrong, the resources found together with every failure.
    pub fn finish(self) -> (found: Result<Vec<CourseFile>, MoodleCrawlingError>)
        ensures
            found is Ok == (self.failures().len() == 0),
            found matches Ok(files) ==> files@ == self.course_files(),
            found matches Err(e) ==> e.successful_detections@ == self.course_files()
                && e.failed_detections@ == self.failures(),
    {
        if self.failures.len() == 0 {
            Ok(self.course_files)
        } else {
            Err(
                MoodleCrawlingError {
                    successful_detections: self.course_files,
                    failed_detections: self.failures,
                },
            )
        }
    }

    /// Wherever a crawl stands, no page deeper than `max_depth` waits to
    /// be visited, and the page being visited is no deeper either unless
    /// it is the root page.
    pub proof fn lemma_depth_bound(&self)
        requires
            self.wf(),
        ensures
            forall|k: int|
                0 <= k < self.queue().len() ==> (#[trigger] self.queue()[k]).1 <= self.max_depth(),
            match self.phase() {
                CrawlPhase::Idle => true,
                CrawlPhase::Loading { depth } => depth <= self.max_depth() || depth == 0,
                CrawlPhase::Resolving { depth, pending } => (depth <= self.max_depth() || depth
                    == 0) && pending > 0,
            },
    {
    }

    /// What the crawl is doing at the moment.
    pub fn current_phase(&self) -> (phase: CrawlPhase)
        ensures
            phase == self.phase(),
    {
        self.phase
    }
}

/// No link is followed twice: the links taken up from a page have URLs
/// that were not taken up before and that differ from each other, and
/// every link of the page that is not taken up has a URL that was taken
/// up before or is taken up with an earlier link.
pub proof fn lemma_links_followed_once(visited: Set<Seq<char>>, links: Seq<CandidateLink>)
    ensures
        accepted_links(visited, links).len() <= links.len(),
        forall|k: int|
            0 <= k < accepted_links(visited, links).len() ==> !visited.contains(
                (#[trigger] accepted_links(visited, links)[k]).url@,
            ) && visited_with(visited, links).contains(accepted_links(visited, links)[k].url@),
        forall|k: int, l: int|
            0 <= k < l < accepted_links(visited, links).len() ==> (#[trigger] accepted_links(
                visited,
                links,
            )[k]).url@ != (#[trigger] accepted_links(visited, links)[l]).url@,
        forall|i: int|
            0 <= i < links.len() ==> visited.contains((#[trigger] links[i]).url@) || exists|k: int|
                0 <= k < accepted_links(visited, links).len() && (#[trigger] accepted_links(
                    visited,
                    links,
                )[k]).url@ == links[i].url@,
    decreases links.len(),
{
    if links.len() > 0 {
        let earlier = links.drop_last();
        let before = accepted_links(visited, earlier);
        let all = accepted_links(visited, links);
        let last = links.len() - 1;
        lemma_links_followed_once(visited, earlier);
        assert forall|k: int| 0 <= k < before.len() implies before[k] == all[k] by {}
        assert forall|k: int| 0 <= k < all.len() implies !visited.contains((#[trigger] all[k]).url@)
            && visited_with(visited, links).contains(all[k].url@) by {
            if k < before.len() {
                assert(before[k] == all[k]);
                assert(visited_with(visited, earlier).contains(before[k].url@));
                if !visited.contains(before[k].url@) {
                    let i = choose|i: int|
                        0 <= i < earlier.len() && (#[trigger] earlier[i]).url@ == before[k].url@;
                    assert(links[i].url@ == all[k].url@);
                }
            } else {
                assert(all[k] == links[last]);
            }
        }
        assert forall|k: int, l: int| 0 <= k < l < all.len() implies (#[trigger] all[k]).url@ != (
        #[trigger] all[l]).url@ by {
            if l < before.len() {
                assert(before[k] == all[k] && before[l] == all[l]);
            } else {
                assert(all[l] == links[last]);
                assert(before[k] == all[k]);
                assert(visited_with(visited, earlier).contains(before[k].url@));
                let i = choose|i: int|
                    0 <= i < earlier.len() && (#[trigger] earlier[i]).url@ == before[k].url@;
                assert(links[i].url@ == before[k].url@);
            }
        }
        assert forall|i: int| 0 <= i < links.len() implies visited.contains(
            (#[trigger] links[i]).url@,
        ) || exists|k: int|
            0 <= k < all.len() && (#[trigger] all[k]).url@ == links[i].url@ by {
            if !visited.contains(links[i].url@) {
                if i < last {
                    assert(earlier[i] == links[i]);
                    let k = choose|k: int|
                        0 <= k < before.len() && (#[trigger] before[k]).url@ == earlier[i].url@;
                    assert(all[k].url@ == links[i].url@);
                } else if first_seen(visited, links, last) {
                    assert(all[all.len() - 1].url@ == links[i].url@);
                } else {
                    let j = choose|j: int| 0 <= j < last && (#[trigger] links[j]).url@ == links[last].url@;
                    assert(earlier[j] == links[j]);
                    let k = choose|k: int|
                        0 <= k < before.len() && (#[trigger] before[k]).url@ == earlier[j].url@;
                    assert(all[k].url@ == links[i].url@);
                }
            }
        }
    }
}

} // verus!
