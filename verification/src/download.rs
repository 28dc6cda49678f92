//! The download scheduler: which record is admitted next, how many
//! downloads run at once, and what each result does to its record.
//!
//! The scheduler performs no transfer itself. [`DownloadScheduler::next`]
//! hands out one action at a time; the caller carries it out and reports
//! the result of the oldest running download with
//! [`DownloadScheduler::complete`].

use crate::clock::current_time;
use crate::data::{
    is_position, precedes, same_but_download, same_but_record, states_advance, Course,
    CourseFile, CourseFileDownload, CourseFileResource, DownloadState, ResourceView, Timestamp,
};
use crate::urls::{last_path_segment, last_segment};
use std::path::PathBuf;
use vstd::prelude::*;

verus! {

/// Why a download did not produce a file.
#[derive(Debug, Clone, PartialEq)]
pub enum DownloadError {
    /// No file name can be derived from the resource's URL.
    MalformedUrl,
    /// The resource is of a kind that cannot be downloaded.
    UnsupportedResource,
    /// The transfer itself failed; the text says how.
    Transfer(String),
}

/// The text that `urlencoding::decode` makes of `text`: the percent
/// escapes replaced by the bytes they stand for, read as UTF-8, or `None`
/// where those bytes are not UTF-8.
pub uninterp spec fn percent_decoded(text: Seq<char>) -> Option<Seq<char>>;

/// Calls `urlencoding::decode`. The result is the decoded text, and `None`
/// exactly where the crate reports that the decoded bytes are not UTF-8.
#[verifier::external_body]
fn percent_decode(text: &str) -> (decoded: Option<String>)
    ensures
        decoded is Some == percent_decoded(text@) is Some,
        decoded matches Some(d) ==> percent_decoded(text@) == Some(d@),
{
    match urlencoding::decode(text) {
        Ok(decoded) => Some(decoded.into_owned()),
        Err(_) => None,
    }
}

/// The path that `Path::join` makes of a directory and a name.
pub uninterp spec fn joined_path(directory: PathBuf, name: Seq<char>) -> PathBuf;

/// Calls `Path::join`: the path of `name` inside `directory`.
#[verifier::external_body]
fn join_path(directory: &PathBuf, name: &str) -> (path: PathBuf)
    ensures
        path == joined_path(*directory, name@),
{
    directory.join(name)
}

/// The path at which a resource of a course is stored: its file name
/// inside the video directory for a video and inside the file directory
/// for a document.
pub open spec fn target_path(course: Course, file: CourseFile) -> PathBuf {
    joined_path(
        if file@.is_video() {
            course.video_download_directory
        } else {
            course.file_download_directory
        },
        file_name_of(file@.resource.url())->0,
    )
}

/// The file name under which the resource at `url` is stored: the last
/// segment of the URL's path, percent-decoded. There is none where the
/// URL has no path, where the last segment is empty, and where it does
/// not decode.
pub open spec fn file_name_of(url: Seq<char>) -> Option<Seq<char>> {
    match last_path_segment(url) {
        Some(segment) if segment.len() > 0 => percent_decoded(segment),
        _ => None,
    }
}

/// The reason for which a resource is turned away before any transfer
/// starts, if there is one.
pub open spec fn rejection_of(resource: ResourceView) -> Option<DownloadError> {
    if resource is HlsStream {
        Some(DownloadError::UnsupportedResource)
    } else if file_name_of(resource.url()) is None {
        Some(DownloadError::MalformedUrl)
    } else {
        None
    }
}

/// Derives the name of the local file from a resource URL. A URL that
/// yields no name is malformed.
pub fn derive_file_name(url: &str) -> (name: Result<String, DownloadError>)
    ensures
        name is Ok == file_name_of(url@) is Some,
        name matches Ok(n) ==> file_name_of(url@) == Some(n@),
        name matches Err(e) ==> e == DownloadError::MalformedUrl,
{
    match last_segment(url) {
        Some(segment) => {
            if segment.as_str().unicode_len() == 0 {
                return Err(DownloadError::MalformedUrl);
            }
            match percent_decode(segment.as_str()) {
                Some(decoded) => Ok(decoded),
                None => Err(DownloadError::MalformedUrl),
            }
        },
        None => Err(DownloadError::MalformedUrl),
    }
}

/// Tells for one resource of a course whether it can be downloaded, and
/// if so into which directory and under which name: videos go to the
/// course's video directory, documents to its file directory.
pub fn download_target<'a>(course: &'a Course, file: &CourseFile) -> (target: Result<
    (&'a PathBuf, String),
    DownloadError,
>)
    ensures
        target is Err == rejection_of(file@.resource) is Some,
        target matches Err(e) ==> rejection_of(file@.resource) == Some(e),
        target matches Ok((directory, name)) ==> {
            &&& file_name_of(file@.resource.url()) == Some(name@)
            &&& *directory == if file@.is_video() {
                course.video_download_directory
            } else {
                course.file_download_directory
            }
        },
{
    match &file.resource {
        CourseFileResource::Mp4File { url } => {
            match derive_file_name(url.as_str()) {
                Ok(name) => Ok((&course.video_download_directory, name)),
                Err(e) => Err(e),
            }
        },
        CourseFileResource::HlsStream { .. } => Err(DownloadError::UnsupportedResource),
        CourseFileResource::Document { url, .. } => {
            match derive_file_name(url.as_str()) {
                Ok(name) => Ok((&course.file_download_directory, name)),
                Err(e) => Err(e),
            }
        },
    }
}

/// Whether a line of a playlist carries an entry: it does not start with
/// `#`, which marks a comment.
pub fn is_no_comment(line: &&str) -> (entry: bool)
    ensures
        entry == ((*line)@.len() == 0 || (*line)@[0] != '#'),
{
    let text: &str = *line;
    if text.unicode_len() == 0 {
        true
    } else {
        text.get_char(0) != '#'
    }
}

/// A record that was admitted and whose result has not been collected.
#[derive(Debug, Clone, PartialEq)]
pub struct Admission {
    pub course: usize,
    pub file: usize,
    /// Set where the record was turned away without a transfer.
    pub rejection: Option<DownloadError>,
}

/// What the caller of the scheduler has to do next.
#[derive(Debug, Clone, PartialEq)]
pub enum DownloadAction {
    /// Start fetching `url` into `path`, without waiting for it to finish.
    Start { course: usize, file: usize, url: String, path: PathBuf, is_video: bool },
    /// Wait until the download of this record, the oldest one running,
    /// has finished, and report its result.
    Wait { course: usize, file: usize },
    /// Nothing to carry out: ask again.
    Continue,
    /// Every requested record has been dealt with.
    Finished,
}

/// Whether record `(i, j)` waits to be downloaded.
pub open spec fn requested_at(courses: Seq<Course>, i: int, j: int) -> bool {
    is_position(courses, i, j) && courses[i].files@[j].download_state is Requested
}

/// Whether `(i, j)` is the first record, course by course, that waits to
/// be downloaded.
pub open spec fn first_requested(courses: Seq<Course>, i: int, j: int) -> bool {
    &&& requested_at(courses, i, j)
    &&& forall|a: int, b: int| precedes(a, b, i, j) ==> !#[trigger] requested_at(courses, a, b)
}

/// Whether no record waits to be downloaded.
pub open spec fn none_requested(courses: Seq<Course>) -> bool {
    forall|a: int, b: int| !#[trigger] requested_at(courses, a, b)
}

/// How many of the first `upto` of `files` wait to be downloaded.
pub open spec fn requested_in(files: Seq<CourseFileDownload<CourseFile>>, upto: int) -> nat
    decreases upto,
{
    if upto <= 0 {
        0
    } else {
        requested_in(files, upto - 1) + if files[upto - 1].download_state is Requested {
            1nat
        } else {
            0nat
        }
    }
}

/// How many records before position `(i, j)` wait to be downloaded.
pub open spec fn requested_before(courses: Seq<Course>, i: int, j: int) -> nat
    decreases i,
{
    if i <= 0 {
        requested_in(courses[0].files@, j)
    } else {
        requested_before(courses, i - 1, courses[i - 1].files@.len() as int) + requested_in(
            courses[i].files@,
            j,
        )
    }
}

/// How many records of `courses` wait to be downloaded.
pub open spec fn requested_count(courses: Seq<Course>) -> nat {
    requested_before(courses, courses.len() as int, 0)
}

/// A record while its download runs: in the state `Running` at the path
/// it is stored at, and otherwise as it was.
pub open spec fn running_record(
    course: Course,
    record: CourseFileDownload<CourseFile>,
) -> CourseFileDownload<CourseFile> {
    CourseFileDownload {
        file: record.file,
        available: record.available,
        download_state: DownloadState::Running(target_path(course, record.file)),
        discovery_time: record.discovery_time,
        download_time: record.download_time,
    }
}

/// A record after its download failed: in the state `Failed`, and
/// otherwise as it was.
pub open spec fn failed_record(record: CourseFileDownload<CourseFile>) -> CourseFileDownload<
    CourseFile,
> {
    CourseFileDownload {
        file: record.file,
        available: record.available,
        download_state: DownloadState::Failed,
        discovery_time: record.discovery_time,
        download_time: record.download_time,
    }
}

/// A record after its download arrived at the time `at`: stored at its
/// path, waiting for postprocessing where it is a video of a course with
/// postprocessing steps and complete otherwise, downloaded at `at`, and
/// otherwise as it was.
pub open spec fn downloaded_record(
    course: Course,
    record: CourseFileDownload<CourseFile>,
    at: Timestamp,
) -> CourseFileDownload<CourseFile> {
    CourseFileDownload {
        file: record.file,
        available: record.available,
        download_state: if record.file@.is_video() && course.video_post_processing_steps@.len()
            > 0 {
            DownloadState::PostprocessingPending(target_path(course, record.file))
        } else {
            DownloadState::Completed(target_path(course, record.file))
        },
        discovery_time: record.discovery_time,
        download_time: Some(at),
    }
}

/// Whether a download has come to its end, one way or the other.
pub open spec fn settled(state: DownloadState) -> bool {
    state is Completed || state is PostprocessingPending || state is Failed
}

/// Whether every record that waited to be downloaded in `initial` has
/// come to its end in `courses`.
pub open spec fn all_settled(initial: Seq<Course>, courses: Seq<Course>) -> bool {
    forall|a: int, b: int|
        is_position(initial, a, b) && initial[a].files@[b].download_state is Requested
            ==> settled((#[trigger] courses[a].files@[b]).download_state)
}

/// The state in which a finished download leaves its record: a video of
/// a course with postprocessing steps still has those before it, anything
/// else is complete.
pub open spec fn settled_state(
    course: Course,
    record: CourseFileDownload<CourseFile>,
) -> DownloadState {
    match record.download_state {
        DownloadState::Running(path) => if record.file@.is_video()
            && course.video_post_processing_steps@.len() > 0 {
            DownloadState::PostprocessingPending(path)
        } else {
            DownloadState::Completed(path)
        },
        other => other,
    }
}

/// One transfer whose result was reported: which record it was for, how
/// it went, and when the result arrived.
pub ghost struct Transfer {
    pub course: usize,
    pub file: usize,
    pub outcome: Result<(), String>,
    pub at: Timestamp,
}

/// The records whose transfer succeeded, in the order of `transfers`.
pub open spec fn successes(transfers: Seq<Transfer>) -> Seq<(usize, usize)>
    decreases transfers.len(),
{
    if transfers.len() == 0 {
        Seq::empty()
    } else {
        let earlier = successes(transfers.drop_last());
        match transfers.last().outcome {
            Ok(_) => earlier.push((transfers.last().course, transfers.last().file)),
            Err(_) => earlier,
        }
    }
}

/// The records whose transfer failed, each with the reason, in the order
/// of `transfers`.
pub open spec fn failures(transfers: Seq<Transfer>) -> Seq<(usize, usize, DownloadError)>
    decreases transfers.len(),
{
    if transfers.len() == 0 {
        Seq::empty()
    } else {
        let earlier = failures(transfers.drop_last());
        match transfers.last().outcome {
            Ok(_) => earlier,
            Err(reason) => earlier.push(
                (transfers.last().course, transfers.last().file, DownloadError::Transfer(reason)),
            ),
        }
    }
}

/// Those of `failed` that failed in the transfer, in their order.
pub open spec fn transfer_failures(failed: Seq<(usize, usize, DownloadError)>) -> Seq<
    (usize, usize, DownloadError),
>
    decreases failed.len(),
{
    if failed.len() == 0 {
        Seq::empty()
    } else {
        let earlier = transfer_failures(failed.drop_last());
        if failed.last().2 is Transfer {
            earlier.push(failed.last())
        } else {
            earlier
        }
    }
}

/// Every reported transfer either succeeded or failed.
pub proof fn lemma_transfers_counted(transfers: Seq<Transfer>)
    ensures
        successes(transfers).len() + failures(transfers).len() == transfers.len(),
    decreases transfers.len(),
{
    if transfers.len() > 0 {
        lemma_transfers_counted(transfers.drop_last());
    }
}

/// Where every transfer but number `l` succeeded, the failures are that
/// one transfer, and all the others are successes.
pub proof fn lemma_single_failure(transfers: Seq<Transfer>, l: int)
    requires
        0 <= l < transfers.len(),
        transfers[l].outcome is Err,
        forall|m: int| 0 <= m < transfers.len() && m != l ==> (#[trigger] transfers[m]).outcome is Ok,
    ensures
        failures(transfers) == seq![
            (transfers[l].course, transfers[l].file, DownloadError::Transfer(transfers[l].outcome->Err_0)),
        ],
        successes(transfers).len() == transfers.len() - 1,
    decreases transfers.len(),
{
    let earlier = transfers.drop_last();
    if l == transfers.len() - 1 {
        lemma_no_failure(earlier);
        assert(failures(transfers) =~= seq![
            (transfers[l].course, transfers[l].file, DownloadError::Transfer(transfers[l].outcome->Err_0)),
        ]);
    } else {
        assert(earlier[l] == transfers[l]);
        assert forall|m: int| 0 <= m < earlier.len() && m != l implies (#[trigger] earlier[m]).outcome is Ok by {
            assert(earlier[m] == transfers[m]);
        }
        lemma_single_failure(earlier, l);
        assert(transfers[transfers.len() - 1].outcome is Ok);
    }
    lemma_transfers_counted(transfers);
}

/// Where every transfer succeeded there are no failures.
pub proof fn lemma_no_failure(transfers: Seq<Transfer>)
    requires
        forall|m: int| 0 <= m < transfers.len() ==> (#[trigger] transfers[m]).outcome is Ok,
    ensures
        failures(transfers) == Seq::<(usize, usize, DownloadError)>::empty(),
    decreases transfers.len(),
{
    if transfers.len() > 0 {
        let earlier = transfers.drop_last();
        assert forall|m: int| 0 <= m < earlier.len() implies (#[trigger] earlier[m]).outcome is Ok by {
            assert(earlier[m] == transfers[m]);
        }
        lemma_no_failure(earlier);
        assert(transfers[transfers.len() - 1].outcome is Ok);
    }
}

/// A list of failures that all lie in the transfer is the list of its
/// transfer failures.
pub proof fn lemma_only_transfer_failures(failed: Seq<(usize, usize, DownloadError)>)
    requires
        forall|k: int| 0 <= k < failed.len() ==> (#[trigger] failed[k]).2 is Transfer,
    ensures
        transfer_failures(failed) == failed,
    decreases failed.len(),
{
    if failed.len() > 0 {
        let earlier = failed.drop_last();
        assert forall|k: int| 0 <= k < earlier.len() implies (#[trigger] earlier[k]).2 is Transfer by {
            assert(earlier[k] == failed[k]);
        }
        lemma_only_transfer_failures(earlier);
        assert(failed[failed.len() - 1].2 is Transfer);
        assert(earlier.push(failed.last()) =~= failed);
    }
}

/// Whether record `(a, b)` is among the admitted records `queue`.
pub open spec fn queue_holds(queue: Seq<Admission>, a: int, b: int) -> bool {
    exists|l: int|
        0 <= l < queue.len() && (#[trigger] queue[l]).course == a && queue[l].file == b
}

/// A record that is held stays held when another is admitted, and the
/// admitted one is held.
proof fn lemma_holds_after_push(queue: Seq<Admission>, entry: Admission, a: int, b: int)
    requires
        queue_holds(queue, a, b) || (entry.course == a && entry.file == b),
    ensures
        queue_holds(queue.push(entry), a, b),
{
    let longer = queue.push(entry);
    if queue_holds(queue, a, b) {
        let l = choose|l: int|
            0 <= l < queue.len() && (#[trigger] queue[l]).course == a && queue[l].file == b;
        assert(longer[l] == queue[l]);
    } else {
        assert(longer[queue.len() as int] == entry);
    }
}

/// A record that is held stays held when the oldest one is collected,
/// unless it is the oldest one itself.
proof fn lemma_holds_after_collect(queue: Seq<Admission>, a: int, b: int)
    requires
        queue_holds(queue, a, b),
        queue.len() > 0,
        !(queue[0].course == a && queue[0].file == b),
    ensures
        queue_holds(queue.remove(0), a, b),
{
    let l = choose|l: int|
        0 <= l < queue.len() && (#[trigger] queue[l]).course == a && queue[l].file == b;
    assert(queue.remove(0)[l - 1] == queue[l]);
}

/// Admits the requested records of a list of courses one by one, never
/// holding more than `limit` of them at a time, and records what became
/// of each.
pub struct DownloadScheduler {
    courses: Vec<Course>,
    limit: usize,
    course: usize,
    file: usize,
    in_flight: Vec<Admission>,
    succeeded: Vec<(usize, usize)>,
    failed: Vec<(usize, usize, DownloadError)>,
    initial: Ghost<Seq<Course>>,
    transfers: Ghost<Seq<Transfer>>,
}

impl DownloadScheduler {
    /// The courses as they stand.
    pub closed spec fn courses(&self) -> Seq<Course> {
        self.courses@
    }

    /// The courses as they were handed to the scheduler.
    pub closed spec fn initial(&self) -> Seq<Course> {
        self.initial@
    }

    /// The most records that may be admitted and uncollected at once.
    pub closed spec fn limit(&self) -> nat {
        self.limit as nat
    }

    /// The admitted records whose result has not been collected, oldest
    /// first.
    pub closed spec fn in_flight(&self) -> Seq<Admission> {
        self.in_flight@
    }

    /// The records downloaded so far, in the order of their admission.
    pub closed spec fn succeeded(&self) -> Seq<(usize, usize)> {
        self.succeeded@
    }

    /// The records that failed so far, in the order of their admission.
    pub closed spec fn failed(&self) -> Seq<(usize, usize, DownloadError)> {
        self.failed@
    }

    /// The transfers whose result was reported so far, in the order in
    /// which the results were taken.
    pub closed spec fn transfers(&self) -> Seq<Transfer> {
        self.transfers@
    }

    /// Whether the run is over: every record has been looked at and no
    /// admitted record is left uncollected.
    pub closed spec fn finished(&self) -> bool {
        self.course == self.courses@.len() && self.in_flight@.len() == 0
    }

    /// The invariant of the scheduler.
    pub closed spec fn wf(&self) -> bool {
        &&& 1 <= self.limit
        &&& self.in_flight@.len() <= self.limit
        &&& self.course <= self.courses@.len()
        &&& self.course < self.courses@.len() ==> self.file
            <= self.courses@[self.course as int].files@.len()
        &&& self.course == self.courses@.len() ==> self.file == 0
        &&& forall|a: int, b: int|
            precedes(a, b, self.course as int, self.file as int) ==> !#[trigger] requested_at(
                self.courses@,
                a,
                b,
            )
        &&& forall|k: int|
            0 <= k < self.in_flight@.len() ==> {
                let e = #[trigger] self.in_flight@[k];
                &&& is_position(self.courses@, e.course as int, e.file as int)
                &&& precedes(e.course as int, e.file as int, self.course as int, self.file as int)
                &&& self.initial@[e.course as int].files@[e.file as int].download_state
                    is Requested
                &&& match e.rejection {
                    Some(error) => {
                        &&& rejection_of(
                            self.initial@[e.course as int].files@[e.file as int].file@.resource,
                        ) == Some(error)
                        &&& self.courses@[e.course as int].files@[e.file as int] == failed_record(
                            self.initial@[e.course as int].files@[e.file as int],
                        )
                    },
                    None => {
                        &&& rejection_of(
                            self.initial@[e.course as int].files@[e.file as int].file@.resource,
                        ) is None
                        &&& self.courses@[e.course as int].files@[e.file as int]
                            == running_record(
                            self.initial@[e.course as int],
                            self.initial@[e.course as int].files@[e.file as int],
                        )
                    },
                }
            }
        &&& forall|k: int, l: int|
            0 <= k < l < self.in_flight@.len() ==> precedes(
                (#[trigger] self.in_flight@[k]).course as int,
                self.in_flight@[k].file as int,
                (#[trigger] self.in_flight@[l]).course as int,
                self.in_flight@[l].file as int,
            )
        &&& forall|k: int|
            0 <= k < self.succeeded@.len() ==> {
                let done = #[trigger] self.succeeded@[k];
                &&& is_position(self.courses@, done.0 as int, done.1 as int)
                &&& precedes(done.0 as int, done.1 as int, self.course as int, self.file as int)
                &&& self.courses@[done.0 as int].files@[done.1 as int].download_state is Completed
                    || self.courses@[done.0 as int].files@[done.1 as int].download_state
                    is PostprocessingPending
            }
        &&& forall|k: int|
            0 <= k < self.failed@.len() ==> {
                let lost = #[trigger] self.failed@[k];
                &&& is_position(self.courses@, lost.0 as int, lost.1 as int)
                &&& precedes(lost.0 as int, lost.1 as int, self.course as int, self.file as int)
                &&& self.courses@[lost.0 as int].files@[lost.1 as int].download_state is Failed
            }
        &&& forall|k: int, l: int|
            0 <= k < self.succeeded@.len() && 0 <= l < self.in_flight@.len() ==> ((
            #[trigger] self.succeeded@[k]).0, self.succeeded@[k].1) != ((
            #[trigger] self.in_flight@[l]).course, self.in_flight@[l].file)
        &&& forall|k: int, l: int|
            0 <= k < self.failed@.len() && 0 <= l < self.in_flight@.len() ==> ((
            #[trigger] self.failed@[k]).0, self.failed@[k].1) != ((
            #[trigger] self.in_flight@[l]).course, self.in_flight@[l].file)
        &&& self.courses@.len() == self.initial@.len()
        &&& forall|a: int|
            0 <= a < self.courses@.len() ==> (#[trigger] self.courses@[a]).files@.len()
                == self.initial@[a].files@.len()
        &&& forall|a: int, b: int|
            is_position(self.courses@, a, b) && !precedes(
                a,
                b,
                self.course as int,
                self.file as int,
            ) ==> #[trigger] self.courses@[a].files@[b] == self.initial@[a].files@[b]
        &&& forall|a: int|
            0 <= a < self.courses@.len() ==> (#[trigger] self.courses@[a]).same_settings(
                self.initial@[a],
            )
        &&& forall|a: int, b: int|
            is_position(self.courses@, a, b) && !(self.initial@[a].files@[b].download_state
                is Requested) ==> #[trigger] self.courses@[a].files@[b]
                == self.initial@[a].files@[b]
        &&& forall|a: int, b: int|
            is_position(self.courses@, a, b) && precedes(
                a,
                b,
                self.course as int,
                self.file as int,
            ) && self.initial@[a].files@[b].download_state is Requested ==> settled(
                (#[trigger] self.courses@[a].files@[b]).download_state,
            ) || queue_holds(self.in_flight@, a, b)
        &&& self.succeeded@.len() + self.failed@.len() + self.in_flight@.len()
            == requested_before(self.initial@, self.course as int, self.file as int)
        &&& forall|l: int|
            0 <= l < self.transfers@.len() ==> {
                let t = #[trigger] self.transfers@[l];
                let before = self.initial@[t.course as int].files@[t.file as int];
                &&& is_position(self.courses@, t.course as int, t.file as int)
                &&& precedes(t.course as int, t.file as int, self.course as int, self.file as int)
                &&& before.download_state is Requested
                &&& rejection_of(before.file@.resource) is None
                &&& self.courses@[t.course as int].files@[t.file as int] == match t.outcome {
                    Ok(_) => downloaded_record(self.initial@[t.course as int], before, t.at),
                    Err(_) => failed_record(before),
                }
            }
        &&& forall|l: int, k: int|
            0 <= l < self.transfers@.len() && 0 <= k < self.in_flight@.len() ==> ((
            #[trigger] self.transfers@[l]).course, self.transfers@[l].file) != ((
            #[trigger] self.in_flight@[k]).course, self.in_flight@[k].file)
        &&& self.succeeded@ == successes(self.transfers@)
        &&& transfer_failures(self.failed@) == failures(self.transfers@)
        &&& forall|k: int|
            0 <= k < self.failed@.len() && !((#[trigger] self.failed@[k]).2 is Transfer) ==> {
                let before = self.initial@[self.failed@[k].0 as int].files@[self.failed@[k].1 as int];
                &&& before.download_state is Requested
                &&& rejection_of(before.file@.resource) == Some(self.failed@[k].2)
            }
    }

    /// Whether the oldest admitted record has to be collected before
    /// anything else happens: the limit is reached, or nothing is left to
    /// admit.
    pub open spec fn must_collect(&self) -> bool {
        self.in_flight().len() >= self.limit() || (none_requested(self.courses())
            && self.in_flight().len() > 0)
    }

    /// A scheduler for `courses` that holds at most `limit` records at a
    /// time.
    pub fn new(courses: Vec<Course>, limit: usize) -> (scheduler: Self)
        requires
            limit >= 1,
        ensures
            scheduler.wf(),
            scheduler.courses() == courses@,
            scheduler.initial() == courses@,
            scheduler.limit() == limit,
            scheduler.in_flight().len() == 0,
            scheduler.succeeded().len() == 0,
            scheduler.failed().len() == 0,
            scheduler.transfers().len() == 0,
    {
        let ghost initial = courses@;
        DownloadScheduler {
            courses,
            limit,
            course: 0,
            file: 0,
            in_flight: Vec::new(),
            succeeded: Vec::new(),
            failed: Vec::new(),
            initial: Ghost(initial),
            transfers: Ghost(Seq::empty()),
        }
    }

    /// Moves the cursor to the first record that waits to be downloaded,
    /// or behind the last course where there is none.
    fn seek(&mut self)
        requires
            old(self).wf(),
        ensures
            final(self).wf(),
            final(self).courses@ == old(self).courses@,
            final(self).initial@ == old(self).initial@,
            final(self).transfers@ == old(self).transfers@,
            final(self).limit == old(self).limit,
            final(self).in_flight@ == old(self).in_flight@,
            final(self).succeeded@ == old(self).succeeded@,
            final(self).failed@ == old(self).failed@,
            final(self).course < final(self).courses@.len() ==> first_requested(
                final(self).courses@,
                final(self).course as int,
                final(self).file as int,
            ),
            final(self).course == final(self).courses@.len() ==> none_requested(
                final(self).courses@,
            ) && final(self).file == 0,
    {
        while self.course < self.courses.len()
            invariant
                self.wf(),
                self.courses@ == old(self).courses@,
                self.initial@ == old(self).initial@,
                self.transfers@ == old(self).transfers@,
                self.limit == old(self).limit,
                self.in_flight@ == old(self).in_flight@,
                self.succeeded@ == old(self).succeeded@,
                self.failed@ == old(self).failed@,
            decreases
                    self.courses@.len() - self.course,
                    self.courses@[self.course as int].files@.len() - self.file,
        {
            if self.file < self.courses[self.course].files.len() {
                if self.courses[self.course].files[self.file].download_state.is_requested() {
                    return ;
                }
                self.file = self.file + 1;
            } else {
                self.course = self.course + 1;
                self.file = 0;
            }
        }
    }

    /// Decides what happens next.
    ///
    /// While fewer than `limit` records are held and a record waits to be
    /// downloaded, the first such record is admitted: it starts running,
    /// or, where it cannot be downloaded at all, it fails on the spot and
    /// keeps its place in the queue until it is collected. Once the limit
    /// is reached, or nothing is left to admit, the oldest admitted record
    /// is collected: a record that failed on admission moves to the list
    /// of failures, a running one has to be waited for.
    pub fn next(&mut self) -> (action: DownloadAction)
        requires
            old(self).wf(),
        ensures
            final(self).wf(),
            final(self).initial() == old(self).initial(),
            final(self).transfers() == old(self).transfers(),
            final(self).limit() == old(self).limit(),
            final(self).in_flight().len() <= final(self).limit(),
            final(self).succeeded() == old(self).succeeded(),
            states_advance(old(self).courses(), final(self).courses()),
            action is Finished ==> final(self).finished(),
            match action {
                DownloadAction::Start { course, file, url, path, is_video } => {
                    let before = old(self).courses()[course as int].files@[file as int];
                    let after = final(self).courses()[course as int].files@[file as int];
                    &&& !old(self).must_collect()
                    &&& first_requested(old(self).courses(), course as int, file as int)
                    &&& rejection_of(before.file@.resource) is None
                    &&& same_but_record(
                        old(self).courses(),
                        final(self).courses(),
                        course as int,
                        file as int,
                    )
                    &&& same_but_download(before, after)
                    &&& after.download_state == DownloadState::Running(path)
                    &&& path == target_path(old(self).courses()[course as int], before.file)
                    &&& after.download_time == before.download_time
                    &&& url@ == before.file@.resource.url()
                    &&& is_video == before.file@.is_video()
                    &&& final(self).in_flight() == old(self).in_flight().push(
                        Admission { course, file, rejection: None },
                    )
                    &&& final(self).failed() == old(self).failed()
                },
                DownloadAction::Wait { course, file } => {
                    &&& old(self).must_collect()
                    &&& old(self).in_flight()[0] == Admission { course, file, rejection: None }
                    &&& final(self).courses() == old(self).courses()
                    &&& final(self).in_flight() == old(self).in_flight()
                    &&& final(self).failed() == old(self).failed()
                },
                DownloadAction::Continue => if old(self).must_collect() {
                    let oldest = old(self).in_flight()[0];
                    &&& oldest.rejection is Some
                    &&& final(self).courses() == old(self).courses()
                    &&& final(self).in_flight() == old(self).in_flight().remove(0)
                    &&& final(self).failed() == old(self).failed().push(
                        (oldest.course, oldest.file, oldest.rejection->0),
                    )
                } else {
                    exists|i: int, j: int|
                        {
                            let before = old(self).courses()[i].files@[j];
                            let after = final(self).courses()[i].files@[j];
                            &&& #[trigger] first_requested(old(self).courses(), i, j)
                            &&& rejection_of(before.file@.resource) is Some
                            &&& same_but_record(old(self).courses(), final(self).courses(), i, j)
                            &&& same_but_download(before, after)
                            &&& after.download_state == DownloadState::Failed
                            &&& after.download_time == before.download_time
                            &&& final(self).in_flight() == old(self).in_flight().push(
                                Admission {
                                    course: i as usize,
                                    file: j as usize,
                                    rejection: rejection_of(before.file@.resource),
                                },
                            )
                            &&& final(self).failed() == old(self).failed()
                        }
                },
                DownloadAction::Finished => {
                    &&& none_requested(old(self).courses())
                    &&& old(self).in_flight().len() == 0
                    &&& final(self).courses() == old(self).courses()
                    &&& final(self).in_flight() == old(self).in_flight()
                    &&& final(self).failed() == old(self).failed()
                    &&& final(self).succeeded().len() + final(self).failed().len()
                        == requested_count(final(self).initial())
                    &&& all_settled(final(self).initial(), final(self).courses())
                },
            },
    {
        self.seek();
        let more = self.course < self.courses.len();
        if self.in_flight.len() >= self.limit || (!more && self.in_flight.len() > 0) {
            if self.in_flight[0].rejection.is_some() {
                let ghost queued = self.in_flight@;
                let ghost lost = self.failed@;
                let oldest = self.in_flight.remove(0);
                match oldest.rejection {
                    Some(error) => {
                        self.failed.push((oldest.course, oldest.file, error));
                    },
                    None => {},
                }
                proof {
                    assert(oldest == queued[0]);
                    assert(self.failed@.drop_last() == lost);
                    assert(!(self.failed@.last().2 is Transfer));
                    assert forall|k: int| 0 <= k < self.in_flight@.len() implies (
                    #[trigger] self.in_flight@[k]) == queued[k + 1] by {}
                    assert forall|a: int, b: int|
                        is_position(self.courses@, a, b) && queue_holds(queued, a, b) implies settled(
                        (#[trigger] self.courses@[a].files@[b]).download_state,
                    ) || queue_holds(self.in_flight@, a, b) by {
                        if !(queued[0].course == a && queued[0].file == b) {
                            lemma_holds_after_collect(queued, a, b);
                        }
                    }
                }
                DownloadAction::Continue
            } else {
                DownloadAction::Wait {
                    course: self.in_flight[0].course,
                    file: self.in_flight[0].file,
                }
            }
        } else if !more {
            proof {
                assert forall|a: int, b: int|
                    is_position(self.initial@, a, b) && self.initial@[a].files@[b].download_state
                        is Requested implies settled(
                    (#[trigger] self.courses@[a].files@[b]).download_state,
                ) by {
                    assert(precedes(a, b, self.course as int, self.file as int));
                    assert(!queue_holds(self.in_flight@, a, b));
                }
            }
            DownloadAction::Finished
        } else {
            let course = self.course;
            let file = self.file;
            let target = match download_target(
                &self.courses[course],
                &self.courses[course].files[file].file,
            ) {
                Ok((directory, name)) => Ok(join_path(directory, name.as_str())),
                Err(error) => Err(error),
            };
            let url = self.courses[course].files[file].file.resource.url().clone();
            let is_video = self.courses[course].files[file].file.is_video();
            match target {
                Ok(path) => {
                    self.take_in(DownloadState::Running(path.clone()), None);
                    DownloadAction::Start { course, file, url, path, is_video }
                },
                Err(error) => {
                    self.take_in(DownloadState::Failed, Some(error));
                    DownloadAction::Continue
                },
            }
        }
    }

    /// Admits the record under the cursor, which waits to be downloaded,
    /// in the state `state`: running, or failed where it is turned away.
    fn take_in(&mut self, state: DownloadState, rejection: Option<DownloadError>)
        requires
            old(self).wf(),
            old(self).in_flight@.len() < old(self).limit,
            requested_at(old(self).courses@, old(self).course as int, old(self).file as int),
            match rejection {
                Some(error) => state is Failed && rejection_of(
                    old(self).courses@[old(self).course as int].files@[old(
                        self,
                    ).file as int].file@.resource,
                ) == Some(error),
                None => state == DownloadState::Running(
                    target_path(
                        old(self).courses@[old(self).course as int],
                        old(self).courses@[old(self).course as int].files@[old(
                            self,
                        ).file as int].file,
                    ),
                ) && rejection_of(
                    old(self).courses@[old(self).course as int].files@[old(
                        self,
                    ).file as int].file@.resource,
                ) is None,
            },
        ensures
            final(self).wf(),
            final(self).initial@ == old(self).initial@,
            final(self).transfers@ == old(self).transfers@,
            final(self).limit == old(self).limit,
            final(self).succeeded@ == old(self).succeeded@,
            final(self).failed@ == old(self).failed@,
            final(self).in_flight@ == old(self).in_flight@.push(
                Admission { course: old(self).course, file: old(self).file, rejection },
            ),
            same_but_record(
                old(self).courses@,
                final(self).courses@,
                old(self).course as int,
                old(self).file as int,
            ),
            ({
                let before = old(self).courses@[old(self).course as int].files@[old(
                    self,
                ).file as int];
                let after = final(self).courses@[old(self).course as int].files@[old(
                    self,
                ).file as int];
                &&& same_but_download(before, after)
                &&& after.download_state == state
                &&& after.download_time == before.download_time
            }),
    {
        let course = self.course;
        let file = self.file;
        let ghost before = self.courses@;
        let ghost queued = self.in_flight@;
        proof {
            vstd::std_specs::vec::axiom_spec_len(&self.courses@[course as int].files);
        }
        let entry = Admission { course, file, rejection };
        self.courses[course].files[file].download_state = state;
        self.in_flight.push(entry);
        self.file = file + 1;
        proof {
            assert(same_but_record(before, self.courses@, course as int, file as int));
            assert forall|a: int, b: int|
                precedes(a, b, self.course as int, self.file as int) implies !requested_at(
                self.courses@,
                a,
                b,
            ) by {
                if is_position(self.courses@, a, b) && !(a == course && b == file) {
                    assert(!requested_at(before, a, b));
                    assert(self.courses@[a].files@[b] == before[a].files@[b]);
                }
            }
            assert forall|k: int| 0 <= k < queued.len() implies precedes(
                (#[trigger] queued[k]).course as int,
                queued[k].file as int,
                course as int,
                file as int,
            ) && self.courses@[queued[k].course as int].files@[queued[k].file as int]
                == before[queued[k].course as int].files@[queued[k].file as int] by {
                assert(self.in_flight@[k] == queued[k]);
            }
            assert forall|a: int, b: int|
                is_position(self.courses@, a, b) && precedes(
                    a,
                    b,
                    self.course as int,
                    self.file as int,
                ) && self.initial@[a].files@[b].download_state is Requested implies settled(
                (#[trigger] self.courses@[a].files@[b]).download_state,
            ) || queue_holds(self.in_flight@, a, b) by {
                if a == course && b == file {
                    lemma_holds_after_push(queued, entry, a, b);
                } else {
                    assert(self.courses@[a].files@[b] == before[a].files@[b]);
                    if queue_holds(queued, a, b) {
                        lemma_holds_after_push(queued, entry, a, b);
                    }
                }
            }
        }
    }

    /// Records the result of the oldest admitted record, which must be a
    /// running download, as having arrived at `now`.
    ///
    /// On success the record becomes `PostprocessingPending` where it is
    /// a video of a course with postprocessing steps and `Completed`
    /// otherwise, and its download time is `now`. On failure it becomes
    /// `Failed`. No other record changes. Where no running download is
    /// the oldest admitted record, nothing happens and the result is
    /// `false`.
    pub fn complete_at(&mut self, outcome: Result<(), String>, now: Timestamp) -> (accepted: bool)
        requires
            old(self).wf(),
        ensures
            final(self).wf(),
            final(self).initial() == old(self).initial(),
            final(self).limit() == old(self).limit(),
            final(self).in_flight().len() <= final(self).limit(),
            states_advance(old(self).courses(), final(self).courses()),
            accepted == (old(self).in_flight().len() > 0 && old(self).in_flight()[0].rejection
                is None),
            !accepted ==> {
                &&& final(self).courses() == old(self).courses()
                &&& final(self).in_flight() == old(self).in_flight()
                &&& final(self).succeeded() == old(self).succeeded()
                &&& final(self).failed() == old(self).failed()
                &&& final(self).transfers() == old(self).transfers()
            },
            accepted ==> final(self).transfers() == old(self).transfers().push(
                Transfer {
                    course: old(self).in_flight()[0].course,
                    file: old(self).in_flight()[0].file,
                    outcome,
                    at: now,
                },
            ),
            accepted ==> {
                let oldest = old(self).in_flight()[0];
                let course = old(self).courses()[oldest.course as int];
                let before = course.files@[oldest.file as int];
                let after = final(self).courses()[oldest.course as int].files@[oldest.file as int];
                &&& is_position(old(self).courses(), oldest.course as int, oldest.file as int)
                &&& before.download_state is Running
                &&& final(self).in_flight() == old(self).in_flight().remove(0)
                &&& same_but_record(
                    old(self).courses(),
                    final(self).courses(),
                    oldest.course as int,
                    oldest.file as int,
                )
                &&& same_but_download(before, after)
                &&& match outcome {
                    Ok(_) => {
                        &&& after.download_state == settled_state(course, before)
                        &&& after.download_time == Some(now)
                        &&& final(self).succeeded() == old(self).succeeded().push(
                            (oldest.course, oldest.file),
                        )
                        &&& final(self).failed() == old(self).failed()
                    },
                    Err(reason) => {
                        &&& after.download_state == DownloadState::Failed
                        &&& after.download_time == before.download_time
                        &&& final(self).succeeded() == old(self).succeeded()
                        &&& final(self).failed() == old(self).failed().push(
                            (oldest.course, oldest.file, DownloadError::Transfer(reason)),
                        )
                    },
                }
            },
    {
        if self.in_flight.len() == 0 || self.in_flight[0].rejection.is_some() {
            return false;
        }
        let ghost before = self.courses@;
        let ghost queued = self.in_flight@;
        let ghost reported = self.transfers@;
        let ghost done = self.succeeded@;
        let ghost lost = self.failed@;
        let oldest = self.in_flight.remove(0);
        let course = oldest.course;
        let file = oldest.file;
        assert(oldest == queued[0]);
        let ghost transfer = Transfer { course, file, outcome, at: now };
        proof {
            self.transfers@ = reported.push(transfer);
        }
        match outcome {
            Ok(_) => {
                let pending = self.courses[course].video_post_processing_steps.len() > 0
                    && self.courses[course].files[file].file.is_video();
                let settled = match &self.courses[course].files[file].download_state {
                    DownloadState::Running(path) => if pending {
                        DownloadState::PostprocessingPending(path.clone())
                    } else {
                        DownloadState::Completed(path.clone())
                    },
                    other => other.clone(),
                };
                self.courses[course].files[file].download_state = settled;
                self.courses[course].files[file].download_time = Some(now);
                self.succeeded.push((course, file));
            },
            Err(reason) => {
                self.courses[course].files[file].download_state = DownloadState::Failed;
                self.failed.push((course, file, DownloadError::Transfer(reason)));
            },
        }
        proof {
            assert(same_but_record(before, self.courses@, course as int, file as int));
            assert forall|a: int, b: int|
                precedes(a, b, self.course as int, self.file as int) implies !requested_at(
                self.courses@,
                a,
                b,
            ) by {
                if is_position(self.courses@, a, b) && !(a == course && b == file) {
                    assert(!requested_at(before, a, b));
                    assert(self.courses@[a].files@[b] == before[a].files@[b]);
                }
            }
            assert forall|k: int| 0 <= k < self.in_flight@.len() implies {
                let e = #[trigger] self.in_flight@[k];
                &&& e == queued[k + 1]
                &&& precedes(course as int, file as int, e.course as int, e.file as int)
                &&& self.courses@[e.course as int].files@[e.file as int]
                    == before[e.course as int].files@[e.file as int]
            } by {
                assert(precedes(
                    queued[0].course as int,
                    queued[0].file as int,
                    queued[k + 1].course as int,
                    queued[k + 1].file as int,
                ));
            }
            assert forall|a: int, b: int|
                is_position(self.courses@, a, b) && !(a == course && b == file) && queue_holds(
                    queued,
                    a,
                    b,
                ) implies queue_holds(self.in_flight@, a, b) by {
                lemma_holds_after_collect(queued, a, b);
            }
            assert forall|a: int, b: int|
                is_position(self.courses@, a, b) && !(a == course && b == file) implies (
            #[trigger] self.courses@[a].files@[b]) == before[a].files@[b] by {}
            assert(self.transfers@.drop_last() == reported);
            assert(self.transfers@.last() == transfer);
            if transfer.outcome is Ok {
                assert(self.succeeded@.drop_last() == done);
            } else {
                assert(self.failed@.drop_last() == lost);
                assert(self.failed@.last().2 is Transfer);
            }
            assert forall|l: int| 0 <= l < reported.len() implies (#[trigger] self.transfers@[l])
                == reported[l] && !(reported[l].course == course && reported[l].file == file) by {
                assert(queued[0].course == course);
            }
        }
        true
    }

    /// Records the result of the oldest admitted record as having arrived
    /// now: [`Self::complete_at`] with the reading of the clock.
    pub fn complete(&mut self, outcome: Result<(), String>) -> (accepted: bool)
        requires
            old(self).wf(),
        ensures
            final(self).wf(),
            final(self).initial() == old(self).initial(),
            final(self).limit() == old(self).limit(),
            final(self).in_flight().len() <= final(self).limit(),
            states_advance(old(self).courses(), final(self).courses()),
            accepted == (old(self).in_flight().len() > 0 && old(self).in_flight()[0].rejection
                is None),
            !accepted ==> {
                &&& final(self).courses() == old(self).courses()
                &&& final(self).in_flight() == old(self).in_flight()
                &&& final(self).succeeded() == old(self).succeeded()
                &&& final(self).failed() == old(self).failed()
                &&& final(self).transfers() == old(self).transfers()
            },
            accepted ==> {
                &&& final(self).transfers().len() == old(self).transfers().len() + 1
                &&& final(self).transfers().drop_last() == old(self).transfers()
                &&& final(self).transfers().last().course == old(self).in_flight()[0].course
                &&& final(self).transfers().last().file == old(self).in_flight()[0].file
                &&& final(self).transfers().last().outcome == outcome
            },
            accepted ==> {
                let oldest = old(self).in_flight()[0];
                let course = old(self).courses()[oldest.course as int];
                let before = course.files@[oldest.file as int];
                let after = final(self).courses()[oldest.course as int].files@[oldest.file as int];
                &&& final(self).in_flight() == old(self).in_flight().remove(0)
                &&& same_but_record(
                    old(self).courses(),
                    final(self).courses(),
                    oldest.course as int,
                    oldest.file as int,
                )
                &&& same_but_download(before, after)
                &&& match outcome {
                    Ok(_) => {
                        &&& after.download_state == settled_state(course, before)
                        &&& after.download_time is Some
                        &&& final(self).succeeded() == old(self).succeeded().push(
                            (oldest.course, oldest.file),
                        )
                        &&& final(self).failed() == old(self).failed()
                    },
                    Err(reason) => {
                        &&& after.download_state == DownloadState::Failed
                        &&& after.download_time == before.download_time
                        &&& final(self).succeeded() == old(self).succeeded()
                        &&& final(self).failed() == old(self).failed().push(
                            (oldest.course, oldest.file, DownloadError::Transfer(reason)),
                        )
                    },
                }
            },
    {
        let now = current_time();
        let ghost reported = self.transfers@;
        let accepted = self.complete_at(outcome, now);
        proof {
            if accepted {
                assert(self.transfers@.drop_last() == reported);
            }
        }
        accepted
    }

    /// Wherever a run stands, at most `limit` records are held. Each of
    /// them is a record of the courses, none is held twice, and one that
    /// was not turned away is running: no more than `limit` downloads are
    /// ever under way.
    pub proof fn lemma_bounded_concurrency(&self)
        requires
            self.wf(),
        ensures
            self.limit() >= 1,
            self.in_flight().len() <= self.limit(),
            forall|k: int|
                0 <= k < self.in_flight().len() ==> {
                    let held = #[trigger] self.in_flight()[k];
                    let record = self.courses()[held.course as int].files@[held.file as int];
                    &&& is_position(self.courses(), held.course as int, held.file as int)
                    &&& held.rejection is None ==> record.download_state is Running
                    &&& held.rejection is Some ==> record.download_state is Failed
                },
            forall|k: int, l: int|
                0 <= k < l < self.in_flight().len() ==> {
                    let earlier = #[trigger] self.in_flight()[k];
                    let later = #[trigger] self.in_flight()[l];
                    (earlier.course, earlier.file) != (later.course, later.file)
                },
    {
        assert forall|k: int, l: int| 0 <= k < l < self.in_flight().len() implies {
            let earlier = #[trigger] self.in_flight()[k];
            let later = #[trigger] self.in_flight()[l];
            (earlier.course, earlier.file) != (later.course, later.file)
        } by {
            assert(precedes(
                self.in_flight@[k].course as int,
                self.in_flight@[k].file as int,
                self.in_flight@[l].course as int,
                self.in_flight@[l].file as int,
            ));
        }
    }

    /// Wherever a run stands, every record reported as downloaded is
    /// complete or waits for postprocessing, and every record reported as
    /// failed is in the state `Failed`: what happens to one download
    /// never reaches the record of another.
    pub proof fn lemma_reported_outcomes(&self)
        requires
            self.wf(),
        ensures
            forall|k: int|
                0 <= k < self.succeeded().len() ==> {
                    let done = #[trigger] self.succeeded()[k];
                    let record = self.courses()[done.0 as int].files@[done.1 as int];
                    &&& is_position(self.courses(), done.0 as int, done.1 as int)
                    &&& record.download_state is Completed || record.download_state
                        is PostprocessingPending
                },
            forall|k: int|
                0 <= k < self.failed().len() ==> {
                    let lost = #[trigger] self.failed()[k];
                    let record = self.courses()[lost.0 as int].files@[lost.1 as int];
                    &&& is_position(self.courses(), lost.0 as int, lost.1 as int)
                    &&& record.download_state is Failed
                },
    {
    }

    /// Wherever a run stands, a record that did not wait to be downloaded
    /// when the run began is exactly as it was then.
    pub proof fn lemma_others_untouched(&self)
        requires
            self.wf(),
        ensures
            self.courses().len() == self.initial().len(),
            forall|a: int|
                0 <= a < self.courses().len() ==> (#[trigger] self.courses()[a]).files@.len()
                    == self.initial()[a].files@.len(),
            forall|a: int|
                0 <= a < self.courses().len() ==> (#[trigger] self.courses()[a]).same_settings(
                    self.initial()[a],
                ),
            forall|a: int, b: int|
                is_position(self.courses(), a, b) && !(self.initial()[a].files@[b].download_state
                    is Requested) ==> #[trigger] self.courses()[a].files@[b]
                    == self.initial()[a].files@[b],
    {
    }

    /// Wherever a run stands, the records reported as downloaded are the
    /// transfers that succeeded, in their order, and the failures that lie
    /// in the transfer are the transfers that failed. A record whose
    /// transfer succeeded is stored at its path and dated with the time
    /// its result arrived; one whose transfer failed is `Failed`; nothing
    /// else of either has changed since the run began. A failure that
    /// does not lie in the transfer is the reason for which the record
    /// was turned away.
    pub proof fn lemma_transfers_recorded(&self)
        requires
            self.wf(),
        ensures
            self.succeeded() == successes(self.transfers()),
            transfer_failures(self.failed()) == failures(self.transfers()),
            forall|l: int|
                0 <= l < self.transfers().len() ==> {
                    let t = #[trigger] self.transfers()[l];
                    let before = self.initial()[t.course as int].files@[t.file as int];
                    &&& is_position(self.courses(), t.course as int, t.file as int)
                    &&& before.download_state is Requested
                    &&& self.courses()[t.course as int].files@[t.file as int] == match t.outcome {
                        Ok(_) => downloaded_record(self.initial()[t.course as int], before, t.at),
                        Err(_) => failed_record(before),
                    }
                },
            forall|k: int|
                0 <= k < self.failed().len() && !((#[trigger] self.failed()[k]).2 is Transfer) ==> {
                    let lost = self.failed()[k];
                    let before = self.initial()[lost.0 as int].files@[lost.1 as int];
                    &&& before.download_state is Requested
                    &&& rejection_of(before.file@.resource) == Some(lost.2)
                },
    {
    }

    /// When a run is over, as many records have been reported as waited
    /// to be downloaded when it began, and each of those has come to its
    /// end.
    pub proof fn lemma_run_complete(&self)
        requires
            self.wf(),
            self.finished(),
        ensures
            self.in_flight().len() == 0,
            self.succeeded().len() + self.failed().len() == requested_count(self.initial()),
            all_settled(self.initial(), self.courses()),
    {
        assert forall|a: int, b: int|
            is_position(self.initial@, a, b) && self.initial@[a].files@[b].download_state
                is Requested implies settled(
            (#[trigger] self.courses@[a].files@[b]).download_state,
        ) by {
            assert(precedes(a, b, self.course as int, self.file as int));
            assert(!queue_holds(self.in_flight@, a, b));
        }
    }

    /// One failure among many: when a run is over in which no record was
    /// turned away and every transfer but one succeeded, every record
    /// that waited has had its transfer, all but one are reported as
    /// downloaded, and the one failure reported is the transfer that
    /// failed. Its record is `Failed` and otherwise as it was; the
    /// records of the other transfers are stored and dated.
    pub proof fn lemma_one_failure_among_many(&self, l: int)
        requires
            self.wf(),
            self.finished(),
            forall|a: int, b: int|
                is_position(self.initial(), a, b) && (#[trigger] self.initial()[a].files@[b]).download_state
                    is Requested ==> rejection_of(self.initial()[a].files@[b].file@.resource)
                    is None,
            0 <= l < self.transfers().len(),
            self.transfers()[l].outcome is Err,
            forall|m: int|
                0 <= m < self.transfers().len() && m != l ==> (#[trigger] self.transfers()[m]).outcome
                    is Ok,
        ensures
            self.transfers().len() == requested_count(self.initial()),
            self.succeeded().len() == requested_count(self.initial()) - 1,
            self.succeeded() == successes(self.transfers()),
            self.failed() == seq![
                (
                    self.transfers()[l].course,
                    self.transfers()[l].file,
                    DownloadError::Transfer(self.transfers()[l].outcome->Err_0),
                ),
            ],
            self.courses()[self.transfers()[l].course as int].files@[self.transfers()[l].file as int]
                == failed_record(
                self.initial()[self.transfers()[l].course as int].files@[self.transfers()[l].file as int],
            ),
            forall|m: int|
                0 <= m < self.transfers().len() && m != l ==> {
                    let t = #[trigger] self.transfers()[m];
                    self.courses()[t.course as int].files@[t.file as int] == downloaded_record(
                        self.initial()[t.course as int],
                        self.initial()[t.course as int].files@[t.file as int],
                        t.at,
                    )
                },
            forall|a: int, b: int|
                is_position(self.courses(), a, b) && !(self.initial()[a].files@[b].download_state
                    is Requested) ==> #[trigger] self.courses()[a].files@[b]
                    == self.initial()[a].files@[b],
    {
        self.lemma_run_complete();
        assert forall|k: int| 0 <= k < self.failed@.len() implies (#[trigger] self.failed@[k]).2
            is Transfer by {
            if !(self.failed@[k].2 is Transfer) {
                let a = self.failed@[k].0 as int;
                let b = self.failed@[k].1 as int;
                assert(is_position(self.courses@, a, b));
                assert(self.initial@[a].files@[b].download_state is Requested);
            }
        }
        lemma_only_transfer_failures(self.failed@);
        lemma_single_failure(self.transfers@, l);
        lemma_transfers_counted(self.transfers@);
    }

    /// Wherever a run stands, no download is lost: a record that waited
    /// to be downloaded when the run began still waits, or is held, or has
    /// come to its end.
    pub proof fn lemma_nothing_lost(&self)
        requires
            self.wf(),
        ensures
            forall|a: int, b: int|
                is_position(self.courses(), a, b) && self.initial()[a].files@[b].download_state
                    is Requested ==> {
                    let state = (#[trigger] self.courses()[a].files@[b]).download_state;
                    state is Requested || settled(state) || queue_holds(self.in_flight(), a, b)
                },
    {
        assert forall|a: int, b: int|
            is_position(self.courses(), a, b) && self.initial()[a].files@[b].download_state
                is Requested implies {
            let state = (#[trigger] self.courses()[a].files@[b]).download_state;
            state is Requested || settled(state) || queue_holds(self.in_flight(), a, b)
        } by {
            if !precedes(a, b, self.course as int, self.file as int) {
                assert(self.courses@[a].files@[b] == self.initial@[a].files@[b]);
            }
        }
    }

    /// The most records that may be held at once.
    pub fn concurrency_limit(&self) -> (limit: usize)
        ensures
            limit == self.limit(),
    {
        self.limit
    }

    /// How many admitted records have not been collected yet.
    pub fn in_flight_count(&self) -> (count: usize)
        ensures
            count == self.in_flight().len(),
    {
        self.in_flight.len()
    }

    /// The courses as they stand.
    pub fn current_courses(&self) -> (courses: &Vec<Course>)
        ensures
            courses@ == self.courses(),
    {
        &self.courses
    }

    /// Ends the run and hands back the courses, the records that were
    /// downloaded and the records that failed with the reason of each,
    /// both in the order of admission.
    pub fn finish(self) -> (report: (
        Vec<Course>,
        Vec<(usize, usize)>,
        Vec<(usize, usize, DownloadError)>,
    ))
        ensures
            report.0@ == self.courses(),
            report.1@ == self.succeeded(),
            report.2@ == self.failed(),
    {
        (self.courses, self.succeeded, self.failed)
    }
}

} // verus!
