use std::path::PathBuf;
use tum_autoloader::data::{
    AutoDownloadMode, Course, CourseFile, CourseFileDownload, CourseFileMetadata,
    CourseFileResource, CourseType, DownloadState, PostprocessingStep, Timestamp,
};
use tum_autoloader::download::{
    derive_file_name, download_target, is_no_comment, DownloadAction, DownloadError,
    DownloadScheduler,
};

const THEN: Timestamp = Timestamp { seconds: 1_600_000_000, nanoseconds: 0 };
const NOW: Timestamp = Timestamp { seconds: 1_700_000_000, nanoseconds: 5 };

fn titled() -> CourseFileMetadata {
    CourseFileMetadata::MoodleActivity {
        lecture_title: "Lecture".to_string(),
        section_title: "Section".to_string(),
        activity_title: "Activity".to_string(),
    }
}

fn record(resource: CourseFileResource, state: DownloadState) -> CourseFileDownload<CourseFile> {
    CourseFileDownload {
        file: CourseFile { resource, metadata: titled() },
        available: true,
        download_state: state,
        discovery_time: THEN,
        download_time: None,
    }
}

fn mp4(url: &str, state: DownloadState) -> CourseFileDownload<CourseFile> {
    record(CourseFileResource::Mp4File { url: url.to_string() }, state)
}

fn pdf(url: &str, state: DownloadState) -> CourseFileDownload<CourseFile> {
    record(
        CourseFileResource::Document { url: url.to_string(), file_extension: Some("pdf".to_string()) },
        state,
    )
}

fn course(files: Vec<CourseFileDownload<CourseFile>>, steps: Vec<PostprocessingStep>) -> Course {
    Course {
        url: "https://example.org/course".to_string(),
        name: "Course".to_string(),
        course_type: CourseType::Moodle,
        video_download_directory: PathBuf::from("videos"),
        file_download_directory: PathBuf::from("files"),
        auto_download_mode: AutoDownloadMode::All,
        files,
        max_keep_days_videos: None,
        max_keep_videos: None,
        video_post_processing_steps: steps,
        max_subpage_depth: 1,
    }
}

/// Runs a scheduler to its end. Download number `k`, in the order of
/// admission, fails where `fails(k)` holds. Returns the scheduler and the
/// largest number of downloads that were under way at once.
fn run(courses: Vec<Course>, limit: usize, fails: &dyn Fn(usize) -> bool) -> (DownloadScheduler, usize) {
    let mut scheduler = DownloadScheduler::new(courses, limit);
    let mut started = 0;
    let mut collected = 0;
    let mut most = 0;
    loop {
        match scheduler.next() {
            DownloadAction::Start { .. } => {
                started += 1;
                most = most.max(started - collected);
                assert!(scheduler.in_flight_count() <= limit);
            }
            DownloadAction::Wait { .. } => {
                let outcome = if fails(collected) { Err(format!("download {} broke", collected)) } else { Ok(()) };
                assert!(scheduler.complete_at(outcome, NOW));
                collected += 1;
            }
            DownloadAction::Continue => {}
            DownloadAction::Finished => break,
        }
        assert!(scheduler.in_flight_count() <= limit);
    }
    assert_eq!(started, collected);
    (scheduler, most)
}

#[test]
fn file_name_is_the_decoded_last_path_segment() {
    assert_eq!(derive_file_name("https://example.org/a/b/video.mp4"), Ok("video.mp4".to_string()));
    assert_eq!(
        derive_file_name("https://example.org/a/My%20Lecture%201.mp4"),
        Ok("My Lecture 1.mp4".to_string())
    );
    assert_eq!(derive_file_name("https://example.org/a/%C3%BCbung.pdf"), Ok("übung.pdf".to_string()));
    assert_eq!(derive_file_name("https://example.org/a/übung.pdf"), Ok("übung.pdf".to_string()));
    assert_eq!(derive_file_name("https://example.org/a+b.pdf"), Ok("a+b.pdf".to_string()));
}

#[test]
fn file_name_leaves_query_and_fragment_out() {
    assert_eq!(derive_file_name("https://h/v.mp4?x=1"), Ok("v.mp4".to_string()));
    assert_eq!(derive_file_name("https://h/dir/v.mp4?next=/a/b.pdf"), Ok("v.mp4".to_string()));
    assert_eq!(derive_file_name("https://h/dir/v.mp4#part/2"), Ok("v.mp4".to_string()));
}

#[test]
fn file_name_that_does_not_decode_is_malformed() {
    assert_eq!(derive_file_name("https://example.org/a/%FF.mp4"), Err(DownloadError::MalformedUrl));
    assert_eq!(derive_file_name("https://example.org/a/%C3.mp4"), Err(DownloadError::MalformedUrl));
}

#[test]
fn url_without_a_file_name_is_malformed() {
    assert_eq!(derive_file_name("https://example.org/dir/"), Err(DownloadError::MalformedUrl));
    assert_eq!(derive_file_name("https://example.org"), Err(DownloadError::MalformedUrl));
    assert_eq!(derive_file_name("https://example.org/dir/?file=a.mp4"), Err(DownloadError::MalformedUrl));
    assert_eq!(derive_file_name("no-slash.pdf"), Err(DownloadError::MalformedUrl));
    assert_eq!(derive_file_name("/only/a/path.pdf"), Err(DownloadError::MalformedUrl));
    assert_eq!(derive_file_name("mailto:someone@example.org"), Err(DownloadError::MalformedUrl));
    assert_eq!(derive_file_name(""), Err(DownloadError::MalformedUrl));
}

#[test]
fn videos_and_documents_go_to_their_directories() {
    let c = course(Vec::new(), Vec::new());
    let video = mp4("https://example.org/v/a%20b.mp4", DownloadState::Requested).file;
    let doc = pdf("https://example.org/d/notes.pdf", DownloadState::Requested).file;
    assert_eq!(download_target(&c, &video), Ok((&PathBuf::from("videos"), "a b.mp4".to_string())));
    assert_eq!(download_target(&c, &doc), Ok((&PathBuf::from("files"), "notes.pdf".to_string())));
}

#[test]
fn streams_and_undecodable_names_are_turned_away() {
    let c = course(Vec::new(), Vec::new());
    let stream = record(
        CourseFileResource::HlsStream { main_m3u8_url: "https://example.org/live.m3u8".to_string() },
        DownloadState::Requested,
    )
    .file;
    let broken = mp4("https://example.org/%FF.mp4", DownloadState::Requested).file;
    assert_eq!(download_target(&c, &stream), Err(DownloadError::UnsupportedResource));
    assert_eq!(download_target(&c, &broken), Err(DownloadError::MalformedUrl));
}

#[test]
fn nothing_requested_finishes_at_once() {
    let courses = vec![course(
        vec![
            mp4("https://example.org/a.mp4", DownloadState::NotRequested),
            mp4("https://example.org/b.mp4", DownloadState::Completed(PathBuf::from("videos/b.mp4"))),
            mp4("https://example.org/c.mp4", DownloadState::Failed),
        ],
        Vec::new(),
    )];
    let mut scheduler = DownloadScheduler::new(courses, 2);
    assert_eq!(scheduler.next(), DownloadAction::Finished);
    let (courses, succeeded, failed) = scheduler.finish();
    assert!(succeeded.is_empty() && failed.is_empty());
    assert_eq!(courses[0].files[0].download_state, DownloadState::NotRequested);
    assert_eq!(courses[0].files[2].download_state, DownloadState::Failed);
}

#[test]
fn a_requested_record_starts_running_at_its_path() {
    let courses = vec![course(vec![mp4("https://example.org/v/My%20Video.mp4", DownloadState::Requested)], Vec::new())];
    let mut scheduler = DownloadScheduler::new(courses, 1);
    let action = scheduler.next();
    let expected_path = PathBuf::from("videos").join("My Video.mp4");
    assert_eq!(
        action,
        DownloadAction::Start {
            course: 0,
            file: 0,
            url: "https://example.org/v/My%20Video.mp4".to_string(),
            path: expected_path.clone(),
            is_video: true,
        }
    );
    assert_eq!(scheduler.current_courses()[0].files[0].download_state, DownloadState::Running(expected_path));
    assert_eq!(scheduler.in_flight_count(), 1);
    assert_eq!(scheduler.next(), DownloadAction::Wait { course: 0, file: 0 });
    assert_eq!(scheduler.next(), DownloadAction::Wait { course: 0, file: 0 });
}

#[test]
fn a_finished_download_is_completed_and_dated() {
    let courses = vec![course(
        vec![
            mp4("https://example.org/a.mp4", DownloadState::Requested),
            pdf("https://example.org/b.pdf", DownloadState::Requested),
        ],
        Vec::new(),
    )];
    let (scheduler, _) = run(courses, 1, &|_| false);
    let (courses, succeeded, failed) = scheduler.finish();
    assert_eq!(succeeded, vec![(0, 0), (0, 1)]);
    assert!(failed.is_empty());
    assert_eq!(courses[0].files[0].download_state, DownloadState::Completed(PathBuf::from("videos").join("a.mp4")));
    assert_eq!(courses[0].files[1].download_state, DownloadState::Completed(PathBuf::from("files").join("b.pdf")));
    assert_eq!(courses[0].files[0].download_time, Some(NOW));
    assert_eq!(courses[0].files[1].download_time, Some(NOW));
    assert_eq!(courses[0].files[0].discovery_time, THEN);
}

#[test]
fn videos_of_a_course_with_steps_wait_for_postprocessing() {
    let steps = vec![PostprocessingStep::FfmpegReencode { target_fps: 30 }];
    let courses = vec![course(
        vec![
            mp4("https://example.org/a.mp4", DownloadState::Requested),
            pdf("https://example.org/b.pdf", DownloadState::Requested),
        ],
        steps,
    )];
    let (scheduler, _) = run(courses, 2, &|_| false);
    let (courses, _, _) = scheduler.finish();
    assert_eq!(
        courses[0].files[0].download_state,
        DownloadState::PostprocessingPending(PathBuf::from("videos").join("a.mp4"))
    );
    assert_eq!(courses[0].files[1].download_state, DownloadState::Completed(PathBuf::from("files").join("b.pdf")));
}

#[test]
fn one_failure_among_many_leaves_the_others_alone() {
    let files: Vec<_> = (0..5).map(|k| mp4(&format!("https://example.org/v{}.mp4", k), DownloadState::Requested)).collect();
    let courses = vec![course(files, Vec::new())];
    let (scheduler, _) = run(courses, 2, &|k| k == 2);
    let (courses, succeeded, failed) = scheduler.finish();
    assert_eq!(succeeded, vec![(0, 0), (0, 1), (0, 3), (0, 4)]);
    assert_eq!(failed, vec![(0, 2, DownloadError::Transfer("download 2 broke".to_string()))]);
    for (k, record) in courses[0].files.iter().enumerate() {
        if k == 2 {
            assert_eq!(record.download_state, DownloadState::Failed);
            assert_eq!(record.download_time, None);
        } else {
            let path = PathBuf::from("videos").join(format!("v{}.mp4", k));
            assert_eq!(record.download_state, DownloadState::Completed(path));
            assert_eq!(record.download_time, Some(NOW));
        }
    }
}

#[test]
fn never_more_downloads_than_the_limit() {
    for limit in 1..=4 {
        let courses: Vec<_> = (0..3)
            .map(|c| {
                let files = (0..4)
                    .map(|k| mp4(&format!("https://example.org/c{}/v{}.mp4", c, k), DownloadState::Requested))
                    .collect();
                course(files, Vec::new())
            })
            .collect();
        let (scheduler, most) = run(courses, limit, &|k| k % 3 == 1);
        assert_eq!(most, limit);
        assert_eq!(scheduler.concurrency_limit(), limit);
        let (_, succeeded, failed) = scheduler.finish();
        assert_eq!(succeeded.len() + failed.len(), 12);
        assert_eq!(failed.len(), 4);
    }
}

#[test]
fn results_are_collected_in_the_order_of_admission() {
    let courses = vec![
        course(vec![mp4("https://example.org/a.mp4", DownloadState::Requested)], Vec::new()),
        course(Vec::new(), Vec::new()),
        course(
            vec![
                pdf("https://example.org/skip.pdf", DownloadState::NotRequested),
                pdf("https://example.org/b.pdf", DownloadState::Requested),
                mp4("https://example.org/c.mp4", DownloadState::Requested),
            ],
            Vec::new(),
        ),
    ];
    let mut scheduler = DownloadScheduler::new(courses, 3);
    assert!(matches!(scheduler.next(), DownloadAction::Start { course: 0, file: 0, .. }));
    assert!(matches!(scheduler.next(), DownloadAction::Start { course: 2, file: 1, is_video: false, .. }));
    assert!(matches!(scheduler.next(), DownloadAction::Start { course: 2, file: 2, is_video: true, .. }));
    assert_eq!(scheduler.next(), DownloadAction::Wait { course: 0, file: 0 });
    assert!(scheduler.complete_at(Ok(()), NOW));
    assert_eq!(scheduler.next(), DownloadAction::Wait { course: 2, file: 1 });
    assert!(scheduler.complete_at(Err("gone".to_string()), NOW));
    assert_eq!(scheduler.next(), DownloadAction::Wait { course: 2, file: 2 });
    assert!(scheduler.complete_at(Ok(()), NOW));
    assert_eq!(scheduler.next(), DownloadAction::Finished);
    let (courses, succeeded, failed) = scheduler.finish();
    assert_eq!(succeeded, vec![(0, 0), (2, 2)]);
    assert_eq!(failed, vec![(2, 1, DownloadError::Transfer("gone".to_string()))]);
    assert_eq!(courses[2].files[0].download_state, DownloadState::NotRequested);
}

#[test]
fn records_that_cannot_be_downloaded_fail_without_a_transfer() {
    let courses = vec![course(
        vec![
            mp4("https://example.org/%FF.mp4", DownloadState::Requested),
            record(
                CourseFileResource::HlsStream { main_m3u8_url: "https://example.org/live.m3u8".to_string() },
                DownloadState::Requested,
            ),
            mp4("https://example.org/ok.mp4", DownloadState::Requested),
        ],
        Vec::new(),
    )];
    let mut scheduler = DownloadScheduler::new(courses, 2);
    assert_eq!(scheduler.next(), DownloadAction::Continue);
    assert_eq!(scheduler.current_courses()[0].files[0].download_state, DownloadState::Failed);
    assert_eq!(scheduler.in_flight_count(), 1);
    assert_eq!(scheduler.next(), DownloadAction::Continue);
    assert_eq!(scheduler.in_flight_count(), 2);
    assert_eq!(scheduler.next(), DownloadAction::Continue);
    assert_eq!(scheduler.in_flight_count(), 1);
    assert!(matches!(scheduler.next(), DownloadAction::Start { course: 0, file: 2, .. }));
    assert_eq!(scheduler.next(), DownloadAction::Continue);
    assert_eq!(scheduler.next(), DownloadAction::Wait { course: 0, file: 2 });
    assert!(scheduler.complete_at(Ok(()), NOW));
    assert_eq!(scheduler.next(), DownloadAction::Finished);
    let (courses, succeeded, failed) = scheduler.finish();
    assert_eq!(succeeded, vec![(0, 2)]);
    assert_eq!(
        failed,
        vec![(0, 0, DownloadError::MalformedUrl), (0, 1, DownloadError::UnsupportedResource)]
    );
    assert_eq!(courses[0].files[1].download_state, DownloadState::Failed);
    assert_eq!(courses[0].files[1].download_time, None);
}

#[test]
fn a_result_nobody_waits_for_is_not_accepted() {
    let courses = vec![course(vec![mp4("https://example.org/%FF.mp4", DownloadState::Requested)], Vec::new())];
    let mut scheduler = DownloadScheduler::new(courses, 1);
    assert!(!scheduler.complete_at(Ok(()), NOW));
    assert_eq!(scheduler.next(), DownloadAction::Continue);
    assert!(!scheduler.complete_at(Ok(()), NOW));
    assert_eq!(scheduler.current_courses()[0].files[0].download_state, DownloadState::Failed);
}

#[test]
fn complete_dates_the_download_with_the_current_time() {
    let courses = vec![course(vec![mp4("https://example.org/a.mp4", DownloadState::Requested)], Vec::new())];
    let mut scheduler = DownloadScheduler::new(courses, 1);
    assert!(matches!(scheduler.next(), DownloadAction::Start { .. }));
    assert!(scheduler.complete(Ok(())));
    let (courses, succeeded, _) = scheduler.finish();
    assert_eq!(succeeded, vec![(0, 0)]);
    let at = courses[0].files[0].download_time.expect("a download time");
    assert!(at.seconds > 1_600_000_000);
}

#[test]
fn playlist_comments_start_with_a_hash() {
    assert!(!is_no_comment(&"#EXTM3U"));
    assert!(is_no_comment(&"chunklist_w1.m3u8"));
    assert!(is_no_comment(&""));
    assert!(is_no_comment(&" #indented"));
    let playlist = "#EXTM3U\n#EXT-X-VERSION:3\nchunklist_w1.m3u8\n";
    assert_eq!(playlist.lines().filter(is_no_comment).next(), Some("chunklist_w1.m3u8"));
}

#[test]
fn a_record_whose_url_names_no_file_fails_and_the_others_go_on() {
    let courses = vec![course(
        vec![
            mp4("https://example.org/videos/", DownloadState::Requested),
            mp4("https://example.org/videos/ok.mp4?token=a/b", DownloadState::Requested),
        ],
        Vec::new(),
    )];
    let (scheduler, _) = run(courses, 1, &|_| false);
    let (courses, succeeded, failed) = scheduler.finish();
    assert_eq!(succeeded, vec![(0, 1)]);
    assert_eq!(failed, vec![(0, 0, DownloadError::MalformedUrl)]);
    assert_eq!(courses[0].files[0].download_state, DownloadState::Failed);
    assert_eq!(
        courses[0].files[1].download_state,
        DownloadState::Completed(PathBuf::from("videos").join("ok.mp4"))
    );
}
