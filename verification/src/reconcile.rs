//! Reconciliation: merging what a crawl found into the records a course
//! already has.
//!
//! Every known record looks for itself among the crawled resources. A
//! record that finds itself claims that resource; one that does not is
//! marked unavailable and otherwise left alone. What nobody claimed is new
//! and becomes a record of its own.

use crate::clock::current_time;
use crate::data::{
    AutoDownloadMode, Course, CourseFile, CourseFileDownload, DownloadState, ResourceIdentity,
    Timestamp,
};
use crate::moodle::MoodleCrawlingError;
use crate::vectors::reversed;
use vstd::prelude::*;

verus! {

/// The index of the first of `crawled` whose identity is `identity`, or
/// the length of `crawled` where there is none.
pub open spec fn first_match(crawled: Seq<CourseFile>, identity: ResourceIdentity) -> int
    decreases crawled.len(),
{
    if crawled.len() == 0 {
        0
    } else if crawled[0]@.identity() == identity {
        0
    } else {
        1 + first_match(crawled.drop_first(), identity)
    }
}

/// What is left of `crawled` once each of `existing`, in order, has
/// claimed the first crawled resource of its own identity.
pub open spec fn unclaimed(
    existing: Seq<CourseFileDownload<CourseFile>>,
    crawled: Seq<CourseFile>,
) -> Seq<CourseFile>
    decreases existing.len(),
{
    if existing.len() == 0 {
        crawled
    } else {
        let rest = unclaimed(existing.drop_last(), crawled);
        let found = first_match(rest, existing.last().file@.identity());
        if found < rest.len() {
            rest.remove(found)
        } else {
            rest
        }
    }
}

/// Whether record `k` of `existing` finds a crawled resource to claim.
pub open spec fn still_offered(
    existing: Seq<CourseFileDownload<CourseFile>>,
    crawled: Seq<CourseFile>,
    k: int,
) -> bool {
    let rest = unclaimed(existing.take(k), crawled);
    first_match(rest, existing[k].file@.identity()) < rest.len()
}

/// Whether a newly found resource is requested at once under a course's
/// download policy.
pub open spec fn wanted(mode: AutoDownloadMode, file: CourseFile) -> bool {
    match mode {
        AutoDownloadMode::Disabled => false,
        AutoDownloadMode::Videos => file@.is_video(),
        AutoDownloadMode::Documents => file@.is_document(),
        AutoDownloadMode::All => true,
    }
}

/// The record made for a newly found resource.
pub open spec fn new_record(file: CourseFile, mode: AutoDownloadMode, now: Timestamp)
    -> CourseFileDownload<CourseFile> {
    CourseFileDownload {
        file,
        available: true,
        download_state: if wanted(mode, file) {
            DownloadState::Requested
        } else {
            DownloadState::NotRequested
        },
        discovery_time: now,
        download_time: None,
    }
}

/// A known record after reconciliation: unavailable where it found
/// nothing to claim, and otherwise untouched.
pub open spec fn kept_record(record: CourseFileDownload<CourseFile>, offered: bool)
    -> CourseFileDownload<CourseFile> {
    CourseFileDownload {
        file: record.file,
        available: record.available && offered,
        download_state: record.download_state,
        discovery_time: record.discovery_time,
        download_time: record.download_time,
    }
}

/// The records of a course after reconciliation with `crawled` at time
/// `now`: the known records in their order, followed by one new record
/// for each unclaimed resource in crawl order.
pub open spec fn reconciled(
    existing: Seq<CourseFileDownload<CourseFile>>,
    crawled: Seq<CourseFile>,
    mode: AutoDownloadMode,
    now: Timestamp,
) -> Seq<CourseFileDownload<CourseFile>> {
    Seq::new(
        existing.len(),
        |k: int| kept_record(existing[k], still_offered(existing, crawled, k)),
    ) + unclaimed(existing, crawled).map_values(|file: CourseFile| new_record(file, mode, now))
}

/// How many of `files` are videos.
pub open spec fn video_count(files: Seq<CourseFile>) -> nat
    decreases files.len(),
{
    if files.len() == 0 {
        0
    } else {
        video_count(files.drop_last()) + if files.last()@.is_video() {
            1nat
        } else {
            0nat
        }
    }
}

/// The resources that a crawl brought back, whether or not anything went
/// wrong on the way.
pub open spec fn crawled_files(found: Result<Vec<CourseFile>, MoodleCrawlingError>) -> Seq<
    CourseFile,
> {
    match found {
        Ok(files) => files@,
        Err(error) => error.successful_detections@,
    }
}

/// What went wrong during a crawl.
pub open spec fn crawl_failures(found: Result<Vec<CourseFile>, MoodleCrawlingError>) -> Seq<
    String,
> {
    match found {
        Ok(_) => Seq::empty(),
        Err(error) => error.failed_detections@,
    }
}

/// Whether one of `files` has the identity `identity`.
pub open spec fn offers(files: Seq<CourseFile>, identity: ResourceIdentity) -> bool {
    exists|i: int| 0 <= i < files.len() && (#[trigger] files[i])@.identity() == identity
}

/// Whether no two of `files` have the same identity.
pub open spec fn distinct_files(files: Seq<CourseFile>) -> bool {
    forall|a: int, b: int|
        0 <= a < b < files.len() ==> (#[trigger] files[a])@.identity() != (
        #[trigger] files[b])@.identity()
}

/// Whether no two of `records` have the same identity.
pub open spec fn no_duplicates(records: Seq<CourseFileDownload<CourseFile>>) -> bool {
    forall|a: int, b: int|
        0 <= a < b < records.len() ==> (#[trigger] records[a]).file@.identity() != (
        #[trigger] records[b]).file@.identity()
}

/// `first_match` is a position of `crawled` or its length, nothing before
/// it has the identity, and the resource at it has.
pub proof fn lemma_first_match(crawled: Seq<CourseFile>, identity: ResourceIdentity)
    ensures
        0 <= first_match(crawled, identity) <= crawled.len(),
        forall|i: int|
            0 <= i < first_match(crawled, identity) ==> (#[trigger] crawled[i])@.identity()
                != identity,
        first_match(crawled, identity) < crawled.len() ==> crawled[first_match(
            crawled,
            identity,
        )]@.identity() == identity,
    decreases crawled.len(),
{
    if crawled.len() > 0 && crawled[0]@.identity() != identity {
        let tail = crawled.drop_first();
        lemma_first_match(tail, identity);
        assert forall|i: int| 0 <= i < first_match(crawled, identity) implies (
        #[trigger] crawled[i])@.identity() != identity by {
            if i > 0 {
                assert(crawled[i] == tail[i - 1]);
            }
        }
        if first_match(crawled, identity) < crawled.len() {
            assert(crawled[first_match(crawled, identity)] == tail[first_match(tail, identity)]);
        }
    }
}

/// Searches `crawled` for the first resource with the identity of `file`.
fn find_match(crawled: &Vec<CourseFile>, file: &CourseFile) -> (found: usize)
    ensures
        found == first_match(crawled@, file@.identity()),
        found <= crawled@.len(),
{
    let mut i: usize = 0;
    while i < crawled.len()
        invariant
            i <= crawled@.len(),
            forall|t: int| 0 <= t < i ==> (#[trigger] crawled@[t])@.identity() != file@.identity(),
        decreases crawled@.len() - i,
    {
        if crawled[i].resource.same_identity(&file.resource) {
            proof {
                lemma_first_match(crawled@, file@.identity());
            }
            return i;
        }
        i = i + 1;
    }
    proof {
        lemma_first_match(crawled@, file@.identity());
    }
    i
}

/// Tells whether a newly found resource is requested at once.
fn is_wanted(mode: AutoDownloadMode, file: &CourseFile) -> (yes: bool)
    ensures
        yes == wanted(mode, *file),
{
    match mode {
        AutoDownloadMode::Disabled => false,
        AutoDownloadMode::Videos => file.is_video(),
        AutoDownloadMode::Documents => file.is_document(),
        AutoDownloadMode::All => true,
    }
}

/// Merges the resources found by a crawl into the records of `course`,
/// taking `now` as the time of discovery, and returns how many new videos
/// and how many new documents were found.
///
/// No record is removed and no known record changes but in its
/// availability. The settings of the course stay as they are.
pub fn reconcile_at(course: &mut Course, crawled: Vec<CourseFile>, now: Timestamp) -> (found: (
    usize,
    usize,
))
    ensures
        final(course).same_settings(*old(course)),
        final(course).files@ == reconciled(
            old(course).files@,
            crawled@,
            old(course).auto_download_mode,
            now,
        ),
        found.0 == video_count(unclaimed(old(course).files@, crawled@)),
        found.0 + found.1 == unclaimed(old(course).files@, crawled@).len(),
        no_duplicates(old(course).files@) && distinct_files(crawled@) ==> no_duplicates(
            final(course).files@,
        ),
        forall|k: int|
            0 <= k < old(course).files@.len() && !offers(
                crawled@,
                (#[trigger] old(course).files@[k]).file@.identity(),
            ) ==> final(course).files@[k] == kept_record(old(course).files@[k], false),
{
    let ghost existing = course.files@;
    let ghost offered = crawled@;
    let mut crawled = crawled;
    let known: usize = course.files.len();
    let mut k: usize = 0;
    while k < known
        invariant
            k <= known,
            known == existing.len(),
            course.same_settings(*old(course)),
            course.files@.len() == known,
            crawled@ == unclaimed(existing.take(k as int), offered),
            forall|t: int|
                0 <= t < k ==> #[trigger] course.files@[t] == kept_record(
                    existing[t],
                    still_offered(existing, offered, t),
                ),
            forall|t: int| k <= t < known ==> #[trigger] course.files@[t] == existing[t],
        decreases known - k,
    {
        let found = find_match(&crawled, &course.files[k].file);
        proof {
            let next = existing.take(k + 1);
            assert(next.drop_last() == existing.take(k as int));
            assert(next.last() == existing[k as int]);
        }
        if found < crawled.len() {
            crawled.remove(found);
        } else {
            course.files[k].available = false;
        }
        k = k + 1;
    }
    proof {
        assert(existing.take(known as int) == existing);
    }
    let ghost fresh = crawled@;
    let total: usize = crawled.len();
    let mut reversed = reversed(crawled);
    let mode = course.auto_download_mode;
    let mut videos: usize = 0;
    let mut documents: usize = 0;
    let ghost kept = course.files@;
    while reversed.len() > 0
        invariant
            mode == old(course).auto_download_mode,
            course.same_settings(*old(course)),
            total == fresh.len(),
            reversed@.len() <= fresh.len(),
            forall|t: int|
                0 <= t < reversed@.len() ==> #[trigger] reversed@[t] == fresh[fresh.len() - 1 - t],
            course.files@ == kept + fresh.take(fresh.len() - reversed@.len()).map_values(
                |file: CourseFile| new_record(file, mode, now),
            ),
            videos == video_count(fresh.take(fresh.len() - reversed@.len())),
            videos + documents == fresh.len() - reversed@.len(),
        decreases reversed@.len(),
    {
        let ghost done = fresh.len() - reversed@.len();
        match reversed.pop() {
            Some(file) => {
                proof {
                    let next = fresh.take(done + 1);
                    assert(next.drop_last() == fresh.take(done));
                    assert(next.last() == file);
                    assert(next.map_values(|file: CourseFile| new_record(file, mode, now))
                        == fresh.take(done).map_values(
                        |file: CourseFile| new_record(file, mode, now),
                    ).push(new_record(file, mode, now)));
                }
                if file.is_video() {
                    videos = videos + 1;
                } else {
                    documents = documents + 1;
                }
                let download_state = if is_wanted(mode, &file) {
                    DownloadState::Requested
                } else {
                    DownloadState::NotRequested
                };
                course.files.push(
                    CourseFileDownload {
                        file,
                        available: true,
                        download_state,
                        discovery_time: now,
                        download_time: None,
                    },
                );
            },
            None => {},
        }
    }
    proof {
        assert(fresh.take(fresh.len() as int) == fresh);
        assert(kept == Seq::new(
            existing.len(),
            |k: int| kept_record(existing[k], still_offered(existing, offered, k)),
        ));
        if no_duplicates(existing) && distinct_files(offered) {
            lemma_reconciled_has_no_duplicates(existing, offered, mode, now);
        }
        assert forall|k: int|
            0 <= k < existing.len() && !offers(
                offered,
                (#[trigger] existing[k]).file@.identity(),
            ) implies course.files@[k] == kept_record(existing[k], false) by {
            lemma_absent_becomes_unavailable(existing, offered, mode, now, k);
        }
    }
    (videos, documents)
}

/// Merges the resources found by a crawl into the records of `course`,
/// with the reading of the clock as the time of discovery:
/// [`reconcile_at`] at some `now`.
pub fn reconcile(course: &mut Course, crawled: Vec<CourseFile>) -> (found: (usize, usize))
    ensures
        final(course).same_settings(*old(course)),
        exists|now: Timestamp|
            final(course).files@ == #[trigger] reconciled(
                old(course).files@,
                crawled@,
                old(course).auto_download_mode,
                now,
            ),
        found.0 == video_count(unclaimed(old(course).files@, crawled@)),
        found.0 + found.1 == unclaimed(old(course).files@, crawled@).len(),
        no_duplicates(old(course).files@) && distinct_files(crawled@) ==> no_duplicates(
            final(course).files@,
        ),
        forall|k: int|
            0 <= k < old(course).files@.len() && !offers(
                crawled@,
                (#[trigger] old(course).files@[k]).file@.identity(),
            ) ==> final(course).files@[k] == kept_record(old(course).files@[k], false),
{
    let now = current_time();
    reconcile_at(course, crawled, now)
}

/// What is left unclaimed was crawled. Where the crawl found no resource
/// twice, nothing is left twice, and nothing is left that a known record
/// names.
pub proof fn lemma_unclaimed(
    existing: Seq<CourseFileDownload<CourseFile>>,
    crawled: Seq<CourseFile>,
)
    ensures
        forall|identity: ResourceIdentity|
            offers(unclaimed(existing, crawled), identity) ==> offers(crawled, identity),
        distinct_files(crawled) ==> distinct_files(unclaimed(existing, crawled)),
        distinct_files(crawled) ==> forall|k: int|
            0 <= k < existing.len() ==> !offers(
                unclaimed(existing, crawled),
                (#[trigger] existing[k]).file@.identity(),
            ),
    decreases existing.len(),
{
    if existing.len() > 0 {
        let rest = unclaimed(existing.drop_last(), crawled);
        let left = unclaimed(existing, crawled);
        let last = existing.last().file@.identity();
        let found = first_match(rest, last);
        lemma_unclaimed(existing.drop_last(), crawled);
        lemma_first_match(rest, last);
        assert forall|identity: ResourceIdentity| offers(left, identity) implies offers(
            rest,
            identity,
        ) by {
            let i = choose|i: int| 0 <= i < left.len() && (#[trigger] left[i])@.identity() == identity;
            if found < rest.len() && i >= found {
                assert(rest[i + 1]@.identity() == identity);
            } else {
                assert(rest[i]@.identity() == identity);
            }
        }
        if distinct_files(crawled) {
            assert forall|a: int, b: int| 0 <= a < b < left.len() implies (#[trigger] left[a])@.identity()
                != (#[trigger] left[b])@.identity() by {
                let a0 = if found < rest.len() && a >= found { a + 1 } else { a };
                let b0 = if found < rest.len() && b >= found { b + 1 } else { b };
                assert(left[a] == rest[a0] && left[b] == rest[b0]);
            }
            assert forall|k: int| 0 <= k < existing.len() implies !offers(
                left,
                (#[trigger] existing[k]).file@.identity(),
            ) by {
                if k < existing.len() - 1 {
                    assert(existing[k] == existing.drop_last()[k]);
                } else if offers(left, last) {
                    let i = choose|i: int| 0 <= i < left.len() && (#[trigger] left[i])@.identity() == last;
                    if found < rest.len() {
                        let i0 = if i >= found { i + 1 } else { i };
                        assert(left[i] == rest[i0]);
                        if i0 < found {
                            assert(rest[i0]@.identity() != rest[found]@.identity());
                        } else {
                            assert(rest[found]@.identity() != rest[i0]@.identity());
                        }
                    } else {
                        assert(left[i] == rest[i]);
                    }
                }
            }
        }
    }
}

/// A resource that no known record names stays offered until the end.
pub proof fn lemma_unnamed_stays_offered(
    existing: Seq<CourseFileDownload<CourseFile>>,
    crawled: Seq<CourseFile>,
    identity: ResourceIdentity,
)
    requires
        offers(crawled, identity),
        forall|k: int| 0 <= k < existing.len() ==> (#[trigger] existing[k]).file@.identity() != identity,
    ensures
        offers(unclaimed(existing, crawled), identity),
    decreases existing.len(),
{
    if existing.len() > 0 {
        let rest = unclaimed(existing.drop_last(), crawled);
        let left = unclaimed(existing, crawled);
        let last = existing.last().file@.identity();
        let found = first_match(rest, last);
        assert forall|k: int| 0 <= k < existing.drop_last().len() implies (
        #[trigger] existing.drop_last()[k]).file@.identity() != identity by {
            assert(existing.drop_last()[k] == existing[k]);
        }
        lemma_unnamed_stays_offered(existing.drop_last(), crawled, identity);
        lemma_first_match(rest, last);
        let i = choose|i: int| 0 <= i < rest.len() && (#[trigger] rest[i])@.identity() == identity;
        if found < rest.len() {
            assert(i != found);
            let i1 = if i > found { i - 1 } else { i };
            assert(left[i1] == rest[i]);
        } else {
            assert(left[i] == rest[i]);
        }
    }
}

/// After reconciliation no two records of a course name the same
/// resource, provided that no two of its records did before and that the
/// crawl found no resource twice.
pub proof fn lemma_reconciled_has_no_duplicates(
    existing: Seq<CourseFileDownload<CourseFile>>,
    crawled: Seq<CourseFile>,
    mode: AutoDownloadMode,
    now: Timestamp,
)
    requires
        no_duplicates(existing),
        distinct_files(crawled),
    ensures
        no_duplicates(reconciled(existing, crawled, mode, now)),
{
    let left = unclaimed(existing, crawled);
    let after = reconciled(existing, crawled, mode, now);
    lemma_unclaimed(existing, crawled);
    assert forall|a: int, b: int| 0 <= a < b < after.len() implies (#[trigger] after[a]).file@.identity()
        != (#[trigger] after[b]).file@.identity() by {
        let n = existing.len() as int;
        if b < n {
            assert(after[a].file == existing[a].file && after[b].file == existing[b].file);
        } else if a < n {
            assert(after[a].file == existing[a].file);
            assert(after[b].file == left[b - n]);
            assert(!offers(left, existing[a].file@.identity()));
        } else {
            assert(after[a].file == left[a - n] && after[b].file == left[b - n]);
        }
    }
}

/// A known record whose resource the crawl did not find is marked
/// unavailable, and nothing else of it changes.
pub proof fn lemma_absent_becomes_unavailable(
    existing: Seq<CourseFileDownload<CourseFile>>,
    crawled: Seq<CourseFile>,
    mode: AutoDownloadMode,
    now: Timestamp,
    k: int,
)
    requires
        0 <= k < existing.len(),
        !offers(crawled, existing[k].file@.identity()),
    ensures
        reconciled(existing, crawled, mode, now)[k] == kept_record(existing[k], false),
        !reconciled(existing, crawled, mode, now)[k].available,
        reconciled(existing, crawled, mode, now)[k].file == existing[k].file,
        reconciled(existing, crawled, mode, now)[k].download_state == existing[k].download_state,
        reconciled(existing, crawled, mode, now)[k].discovery_time == existing[k].discovery_time,
        reconciled(existing, crawled, mode, now)[k].download_time == existing[k].download_time,
{
    let rest = unclaimed(existing.take(k), crawled);
    let identity = existing[k].file@.identity();
    lemma_unclaimed(existing.take(k), crawled);
    lemma_first_match(rest, identity);
    if first_match(rest, identity) < rest.len() {
        assert(offers(rest, identity));
    }
}

/// A known record whose resource the crawl found again stays exactly as
/// it was, provided that no two known records name the same resource.
pub proof fn lemma_present_is_untouched(
    existing: Seq<CourseFileDownload<CourseFile>>,
    crawled: Seq<CourseFile>,
    mode: AutoDownloadMode,
    now: Timestamp,
    k: int,
)
    requires
        0 <= k < existing.len(),
        no_duplicates(existing),
        offers(crawled, existing[k].file@.identity()),
    ensures
        reconciled(existing, crawled, mode, now)[k] == existing[k],
{
    let earlier = existing.take(k);
    let rest = unclaimed(earlier, crawled);
    let identity = existing[k].file@.identity();
    assert forall|t: int| 0 <= t < earlier.len() implies (#[trigger] earlier[t]).file@.identity()
        != identity by {
        assert(earlier[t] == existing[t]);
    }
    lemma_unnamed_stays_offered(earlier, crawled, identity);
    lemma_first_match(rest, identity);
    let i = choose|i: int| 0 <= i < rest.len() && (#[trigger] rest[i])@.identity() == identity;
    assert(first_match(rest, identity) <= i);
    assert(still_offered(existing, crawled, k));
}

/// Reconciliation keeps every known record in its place and in its
/// download state, and every record it adds is available and either
/// requested or not requested.
pub proof fn lemma_reconciled_keeps_history(
    existing: Seq<CourseFileDownload<CourseFile>>,
    crawled: Seq<CourseFile>,
    mode: AutoDownloadMode,
    now: Timestamp,
)
    ensures
        reconciled(existing, crawled, mode, now).len() == existing.len() + unclaimed(
            existing,
            crawled,
        ).len(),
        forall|k: int|
            0 <= k < existing.len() ==> {
                let after = #[trigger] reconciled(existing, crawled, mode, now)[k];
                &&& after.file == existing[k].file
                &&& after.download_state == existing[k].download_state
                &&& after.discovery_time == existing[k].discovery_time
                &&& after.download_time == existing[k].download_time
                &&& after.available ==> existing[k].available
            },
        forall|k: int|
            existing.len() <= k < reconciled(existing, crawled, mode, now).len() ==> {
                let added = #[trigger] reconciled(existing, crawled, mode, now)[k];
                &&& added.available
                &&& added.discovery_time == now
                &&& added.download_time is None
                &&& added.download_state == if wanted(mode, added.file) {
                    DownloadState::Requested
                } else {
                    DownloadState::NotRequested
                }
            },
{
}

/// Merges the outcome of a crawl into the records of `course`: what the
/// crawl found is reconciled as [`reconcile`] does, also where part of
/// the crawl failed, and the failures are handed back beside the counts
/// of new videos and new documents.
pub fn reconcile_crawl(course: &mut Course, found: Result<Vec<CourseFile>, MoodleCrawlingError>) -> (report: (
    usize,
    usize,
    Vec<String>,
))
    ensures
        final(course).same_settings(*old(course)),
        exists|now: Timestamp|
            final(course).files@ == #[trigger] reconciled(
                old(course).files@,
                crawled_files(found),
                old(course).auto_download_mode,
                now,
            ),
        report.0 == video_count(unclaimed(old(course).files@, crawled_files(found))),
        report.0 + report.1 == unclaimed(old(course).files@, crawled_files(found)).len(),
        report.2@ == crawl_failures(found),
        no_duplicates(old(course).files@) && distinct_files(crawled_files(found))
            ==> no_duplicates(final(course).files@),
{
    let ghost crawled = crawled_files(found);
    let (files, failures) = match found {
        Ok(files) => (files, Vec::new()),
        Err(error) => (error.successful_detections, error.failed_detections),
    };
    let (videos, documents) = reconcile(course, files);
    proof {
        let mode = old(course).auto_download_mode;
        let now = choose|now: Timestamp|
            course.files@ == #[trigger] reconciled(old(course).files@, files@, mode, now);
        assert(course.files@ == reconciled(old(course).files@, crawled, mode, now));
    }
    (videos, documents, failures)
}

} // verus!
