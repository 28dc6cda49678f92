use std::path::PathBuf;
use tum_autoloader::data::{
    AutoDownloadMode, Course, CourseFile, CourseFileDownload, CourseFileMetadata,
    CourseFileResource, CourseType, DownloadState, Timestamp,
};
use tum_autoloader::moodle::MoodleCrawlingError;
use tum_autoloader::reconcile::{reconcile, reconcile_at, reconcile_crawl};

const NOW: Timestamp = Timestamp { seconds: 1_700_000_000, nanoseconds: 42 };
const EARLIER: Timestamp = Timestamp { seconds: 1_600_000_000, nanoseconds: 7 };

fn titled(title: &str) -> CourseFileMetadata {
    CourseFileMetadata::MoodleActivity {
        lecture_title: "Lecture".to_string(),
        section_title: "Section".to_string(),
        activity_title: title.to_string(),
    }
}

fn mp4(url: &str) -> CourseFile {
    CourseFile { resource: CourseFileResource::Mp4File { url: url.to_string() }, metadata: titled(url) }
}

fn pdf(url: &str) -> CourseFile {
    CourseFile {
        resource: CourseFileResource::Document {
            url: url.to_string(),
            file_extension: Some("pdf".to_string()),
        },
        metadata: titled(url),
    }
}

fn known(file: CourseFile, state: DownloadState) -> CourseFileDownload<CourseFile> {
    CourseFileDownload {
        file,
        available: true,
        download_state: state,
        discovery_time: EARLIER,
        download_time: None,
    }
}

fn course_with(mode: AutoDownloadMode, files: Vec<CourseFileDownload<CourseFile>>) -> Course {
    Course {
        url: "https://example.org/course".to_string(),
        name: "Course".to_string(),
        course_type: CourseType::Moodle,
        video_download_directory: PathBuf::from("videos"),
        file_download_directory: PathBuf::from("files"),
        auto_download_mode: mode,
        files,
        max_keep_days_videos: Some(30),
        max_keep_videos: None,
        video_post_processing_steps: Vec::new(),
        max_subpage_depth: 1,
    }
}

fn urls(course: &Course) -> Vec<String> {
    course.files.iter().map(|r| r.file.resource.url().clone()).collect()
}

#[test]
fn new_resources_become_records_in_crawl_order() {
    let mut course = course_with(AutoDownloadMode::Videos, Vec::new());
    let found = reconcile_at(&mut course, vec![mp4("v1"), pdf("d1"), mp4("v2")], NOW);
    assert_eq!(found, (2, 1));
    assert_eq!(urls(&course), vec!["v1", "d1", "v2"]);
    for record in &course.files {
        assert!(record.available);
        assert_eq!(record.discovery_time, NOW);
        assert_eq!(record.download_time, None);
    }
    assert_eq!(course.files[0].download_state, DownloadState::Requested);
    assert_eq!(course.files[1].download_state, DownloadState::NotRequested);
    assert_eq!(course.files[2].download_state, DownloadState::Requested);
}

#[test]
fn policy_decides_which_new_records_are_requested() {
    let states = |mode: AutoDownloadMode| {
        let mut course = course_with(mode, Vec::new());
        reconcile_at(&mut course, vec![mp4("v"), pdf("d")], NOW);
        (course.files[0].download_state.clone(), course.files[1].download_state.clone())
    };
    assert_eq!(states(AutoDownloadMode::Disabled), (DownloadState::NotRequested, DownloadState::NotRequested));
    assert_eq!(states(AutoDownloadMode::Videos), (DownloadState::Requested, DownloadState::NotRequested));
    assert_eq!(states(AutoDownloadMode::Documents), (DownloadState::NotRequested, DownloadState::Requested));
    assert_eq!(states(AutoDownloadMode::All), (DownloadState::Requested, DownloadState::Requested));
}

#[test]
fn known_resources_are_not_added_again() {
    let existing = vec![known(mp4("v1"), DownloadState::Completed(PathBuf::from("videos/v1")))];
    let mut course = course_with(AutoDownloadMode::All, existing);
    let found = reconcile_at(&mut course, vec![mp4("v1"), mp4("v2")], NOW);
    assert_eq!(found, (1, 0));
    assert_eq!(urls(&course), vec!["v1", "v2"]);
    assert_eq!(course.files[0].download_state, DownloadState::Completed(PathBuf::from("videos/v1")));
    assert_eq!(course.files[0].discovery_time, EARLIER);
    assert!(course.files[0].available);
}

#[test]
fn a_known_resource_with_a_new_title_is_the_same_record() {
    let mut old = mp4("v1");
    old.metadata = titled("old title");
    let mut course = course_with(AutoDownloadMode::All, vec![known(old, DownloadState::Requested)]);
    let found = reconcile_at(&mut course, vec![mp4("v1")], NOW);
    assert_eq!(found, (0, 0));
    assert_eq!(course.files.len(), 1);
    assert_eq!(course.files[0].file.metadata.to_display_string(), "Lecture - old title");
}

#[test]
fn a_vanished_resource_is_marked_unavailable_and_keeps_its_history() {
    let mut downloaded = known(mp4("v1"), DownloadState::Completed(PathBuf::from("videos/v1")));
    downloaded.download_time = Some(EARLIER);
    let existing = vec![downloaded, known(pdf("d1"), DownloadState::Failed)];
    let mut course = course_with(AutoDownloadMode::All, existing);
    let found = reconcile_at(&mut course, vec![pdf("d1")], NOW);
    assert_eq!(found, (0, 0));
    assert_eq!(course.files.len(), 2);
    assert!(!course.files[0].available);
    assert_eq!(course.files[0].download_state, DownloadState::Completed(PathBuf::from("videos/v1")));
    assert_eq!(course.files[0].discovery_time, EARLIER);
    assert_eq!(course.files[0].download_time, Some(EARLIER));
    assert!(course.files[1].available);
    assert_eq!(course.files[1].download_state, DownloadState::Failed);
}

#[test]
fn an_empty_crawl_marks_everything_unavailable() {
    let existing = vec![known(mp4("v1"), DownloadState::Requested), known(pdf("d1"), DownloadState::NotRequested)];
    let mut course = course_with(AutoDownloadMode::All, existing);
    let found = reconcile_at(&mut course, Vec::new(), NOW);
    assert_eq!(found, (0, 0));
    assert!(course.files.iter().all(|r| !r.available));
    assert_eq!(course.files[0].download_state, DownloadState::Requested);
}

#[test]
fn an_unavailable_record_stays_unavailable_when_found_again() {
    let mut gone = known(mp4("v1"), DownloadState::NotRequested);
    gone.available = false;
    let mut course = course_with(AutoDownloadMode::All, vec![gone]);
    reconcile_at(&mut course, vec![mp4("v1")], NOW);
    assert_eq!(course.files.len(), 1);
    assert!(!course.files[0].available);
}

#[test]
fn no_record_is_doubled_by_repeated_reconciliation() {
    let mut course = course_with(AutoDownloadMode::Videos, Vec::new());
    reconcile_at(&mut course, vec![mp4("v1"), pdf("d1")], NOW);
    let found = reconcile_at(&mut course, vec![pdf("d1"), mp4("v1"), mp4("v2")], NOW);
    assert_eq!(found, (1, 0));
    assert_eq!(urls(&course), vec!["v1", "d1", "v2"]);
    for a in 0..course.files.len() {
        for b in (a + 1)..course.files.len() {
            assert!(course.files[a].file != course.files[b].file);
        }
    }
}

#[test]
fn a_resource_crawled_twice_is_claimed_once() {
    let existing = vec![known(mp4("v1"), DownloadState::Requested)];
    let mut course = course_with(AutoDownloadMode::Disabled, existing);
    let found = reconcile_at(&mut course, vec![mp4("v1"), mp4("v1")], NOW);
    assert_eq!(found, (1, 0));
    assert_eq!(urls(&course), vec!["v1", "v1"]);
}

#[test]
fn settings_are_left_alone() {
    let mut course = course_with(AutoDownloadMode::Documents, Vec::new());
    reconcile_at(&mut course, vec![mp4("v1")], NOW);
    assert_eq!(course.url, "https://example.org/course");
    assert_eq!(course.name, "Course");
    assert_eq!(course.auto_download_mode, AutoDownloadMode::Documents);
    assert_eq!(course.max_keep_days_videos, Some(30));
    assert_eq!(course.max_subpage_depth, 1);
    assert_eq!(course.video_download_directory, PathBuf::from("videos"));
}

#[test]
fn reconcile_stamps_new_records_with_the_current_time() {
    let mut course = course_with(AutoDownloadMode::All, vec![known(mp4("v0"), DownloadState::Requested)]);
    let found = reconcile(&mut course, vec![mp4("v1"), pdf("d1")]);
    assert_eq!(found, (1, 1));
    assert_eq!(course.files.len(), 3);
    assert_eq!(course.files[0].discovery_time, EARLIER);
    assert!(course.files[1].discovery_time.seconds > 1_600_000_000);
    assert_eq!(course.files[1].discovery_time, course.files[2].discovery_time);
    assert!(course.files[1].discovery_time.nanoseconds < 2_000_000_000);
}

#[test]
fn a_crawl_that_failed_in_part_is_reconciled_with_what_it_found() {
    let existing = vec![known(mp4("v0"), DownloadState::Requested), known(mp4("v1"), DownloadState::Requested)];
    let mut course = course_with(AutoDownloadMode::All, existing);
    let found = Err(MoodleCrawlingError {
        successful_detections: vec![mp4("v1"), pdf("d1")],
        failed_detections: vec!["page 2: timed out".to_string()],
    });
    let (videos, documents, failures) = reconcile_crawl(&mut course, found);
    assert_eq!((videos, documents), (0, 1));
    assert_eq!(failures, vec!["page 2: timed out".to_string()]);
    assert_eq!(urls(&course), vec!["v0", "v1", "d1"]);
    assert!(!course.files[0].available);
    assert!(course.files[1].available);

    let (videos, documents, failures) = reconcile_crawl(&mut course, Ok(vec![mp4("v2")]));
    assert_eq!((videos, documents), (1, 0));
    assert!(failures.is_empty());
    assert_eq!(course.files.len(), 4);
}
