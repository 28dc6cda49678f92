use std::path::PathBuf;
use tum_autoloader::data::{
    AutoDownloadMode, Course, CourseFile, CourseFileDownload, CourseFileMetadata,
    CourseFileResource, CourseType, DownloadState, PostprocessingStep, Timestamp,
};
use tum_autoloader::download::{DownloadAction, DownloadScheduler};
use tum_autoloader::postprocessing::{PipelinePhase, PostprocessingAction, PostprocessingPipeline};
use tum_autoloader::reconcile::reconcile_at;

fn record(resource: CourseFileResource, state: DownloadState) -> CourseFileDownload<CourseFile> {
    CourseFileDownload {
        file: CourseFile {
            resource,
            metadata: CourseFileMetadata::MoodleActivity {
                lecture_title: "Lecture".to_string(),
                section_title: "Section".to_string(),
                activity_title: "Activity".to_string(),
            },
        },
        available: true,
        download_state: state,
        discovery_time: Timestamp { seconds: 10, nanoseconds: 0 },
        download_time: Some(Timestamp { seconds: 20, nanoseconds: 0 }),
    }
}

fn pending_video(name: &str) -> CourseFileDownload<CourseFile> {
    record(
        CourseFileResource::Mp4File { url: format!("https://example.org/{}", name) },
        DownloadState::PostprocessingPending(PathBuf::from("videos").join(name)),
    )
}

fn pending_document(name: &str) -> CourseFileDownload<CourseFile> {
    record(
        CourseFileResource::Document { url: format!("https://example.org/{}", name), file_extension: None },
        DownloadState::PostprocessingPending(PathBuf::from("files").join(name)),
    )
}

fn course(files: Vec<CourseFileDownload<CourseFile>>, steps: Vec<PostprocessingStep>) -> Course {
    Course {
        url: "https://example.org/course".to_string(),
        name: "Course".to_string(),
        course_type: CourseType::Moodle,
        video_download_directory: PathBuf::from("videos"),
        file_download_directory: PathBuf::from("files"),
        auto_download_mode: AutoDownloadMode::All,
        files,
        max_keep_days_videos: None,
        max_keep_videos: None,
        video_post_processing_steps: steps,
        max_subpage_depth: 1,
    }
}

fn fps(n: u32) -> PostprocessingStep {
    PostprocessingStep::FfmpegReencode { target_fps: n }
}

fn states(courses: &[Course]) -> Vec<DownloadState> {
    courses.iter().flat_map(|c| c.files.iter().map(|r| r.download_state.clone())).collect()
}

fn pending(name: &str) -> DownloadState {
    DownloadState::PostprocessingPending(PathBuf::from("videos").join(name))
}

fn done(name: &str) -> DownloadState {
    DownloadState::Completed(PathBuf::from("videos").join(name))
}

/// Runs a pipeline until it ends, stopping at report number `stop_at`.
/// Returns the courses, the steps that were run and how the run ended.
fn run(courses: Vec<Course>, stop_at: Option<usize>) -> (Vec<Course>, Vec<(usize, usize, PostprocessingStep)>, PostprocessingAction) {
    let mut pipeline = PostprocessingPipeline::new(courses);
    let mut steps = Vec::new();
    let mut reports = 0;
    let end = loop {
        match pipeline.next() {
            PostprocessingAction::RunStep { course, file, step, path } => {
                assert_eq!(pipeline.current_courses()[course].files[file].download_state, DownloadState::PostprocessingPending(path));
                steps.push((course, file, step));
                assert!(pipeline.step_done(Ok(())));
            }
            PostprocessingAction::Report { .. } => {
                reports += 1;
                assert!(pipeline.reported(Ok(Some(reports) != stop_at)));
            }
            end => break end,
        }
    };
    let (courses, result) = pipeline.finish();
    assert_eq!(result, Ok(()));
    (courses, steps, end)
}

#[test]
fn every_pending_video_gets_every_step_in_order() {
    let courses = vec![
        course(vec![pending_video("a.mp4"), pending_video("b.mp4")], vec![fps(30), fps(15)]),
        course(vec![pending_video("c.mp4")], vec![fps(24)]),
    ];
    let (courses, steps, end) = run(courses, None);
    assert_eq!(end, PostprocessingAction::Finished);
    assert_eq!(
        steps,
        vec![(0, 0, fps(30)), (0, 0, fps(15)), (0, 1, fps(30)), (0, 1, fps(15)), (1, 0, fps(24))]
    );
    assert_eq!(states(&courses), vec![done("a.mp4"), done("b.mp4"), done("c.mp4")]);
    assert_eq!(courses[0].files[0].download_time, Some(Timestamp { seconds: 20, nanoseconds: 0 }));
}

#[test]
fn records_that_do_not_wait_are_passed_over_without_a_report() {
    let courses = vec![course(
        vec![
            record(CourseFileResource::Mp4File { url: "u1".to_string() }, DownloadState::Requested),
            record(CourseFileResource::Mp4File { url: "u2".to_string() }, DownloadState::Completed(PathBuf::from("x"))),
            record(CourseFileResource::Mp4File { url: "u3".to_string() }, DownloadState::Failed),
        ],
        vec![fps(30)],
    )];
    let mut pipeline = PostprocessingPipeline::new(courses);
    assert_eq!(pipeline.next(), PostprocessingAction::Finished);
    assert_eq!(pipeline.next(), PostprocessingAction::Finished);
    let (courses, result) = pipeline.finish();
    assert_eq!(result, Ok(()));
    assert_eq!(
        states(&courses),
        vec![DownloadState::Requested, DownloadState::Completed(PathBuf::from("x")), DownloadState::Failed]
    );
}

#[test]
fn a_stop_leaves_the_remaining_records_waiting_for_the_next_run() {
    let names = ["a.mp4", "b.mp4", "c.mp4", "d.mp4"];
    let fresh = || vec![course(names.iter().map(|n| pending_video(n)).collect(), vec![fps(30)])];
    for stop_at in 1..=4 {
        let (courses, steps, end) = run(fresh(), Some(stop_at));
        assert_eq!(end, PostprocessingAction::Halted);
        assert_eq!(steps.len(), stop_at);
        let expected: Vec<DownloadState> =
            names.iter().enumerate().map(|(k, n)| if k < stop_at { done(n) } else { pending(n) }).collect();
        assert_eq!(states(&courses), expected);

        let (courses, steps, end) = run(courses, None);
        assert_eq!(end, PostprocessingAction::Finished);
        let resumed: Vec<(usize, usize, PostprocessingStep)> = (stop_at..4).map(|k| (0, k, fps(30))).collect();
        assert_eq!(steps, resumed);
        assert_eq!(states(&courses), names.iter().map(|n| done(n)).collect::<Vec<_>>());
    }
}

#[test]
fn a_failed_step_aborts_the_whole_run() {
    let courses = vec![course(
        vec![pending_video("a.mp4"), pending_video("b.mp4"), pending_video("c.mp4")],
        vec![fps(30), fps(15)],
    )];
    let mut pipeline = PostprocessingPipeline::new(courses);
    assert!(matches!(pipeline.next(), PostprocessingAction::RunStep { course: 0, file: 0, .. }));
    assert!(pipeline.step_done(Ok(())));
    assert!(pipeline.step_done(Ok(())));
    assert_eq!(pipeline.next(), PostprocessingAction::Report { skipped: false });
    assert!(pipeline.reported(Ok(true)));
    assert!(matches!(pipeline.next(), PostprocessingAction::RunStep { course: 0, file: 1, .. }));
    assert!(pipeline.step_done(Ok(())));
    assert_eq!(pipeline.current_phase(), PipelinePhase::Transforming { step: 1 });
    assert!(pipeline.step_done(Err("encoder returned 1".to_string())));
    assert_eq!(pipeline.current_phase(), PipelinePhase::Aborted);
    assert_eq!(pipeline.next(), PostprocessingAction::Halted);
    assert!(!pipeline.step_done(Ok(())));
    assert!(!pipeline.reported(Ok(true)));
    let (courses, result) = pipeline.finish();
    assert_eq!(result, Err("encoder returned 1".to_string()));
    assert_eq!(states(&courses), vec![done("a.mp4"), pending("b.mp4"), pending("c.mp4")]);
}

#[test]
fn a_pending_record_that_is_no_video_is_skipped_and_reported() {
    let courses = vec![course(vec![pending_document("notes"), pending_video("a.mp4")], vec![fps(30)])];
    let mut pipeline = PostprocessingPipeline::new(courses);
    assert_eq!(pipeline.next(), PostprocessingAction::Report { skipped: true });
    assert_eq!(pipeline.next(), PostprocessingAction::Report { skipped: true });
    assert!(!pipeline.step_done(Ok(())));
    assert!(pipeline.reported(Ok(true)));
    assert!(matches!(pipeline.next(), PostprocessingAction::RunStep { course: 0, file: 1, .. }));
    assert!(pipeline.step_done(Ok(())));
    assert_eq!(pipeline.next(), PostprocessingAction::Report { skipped: false });
    assert!(pipeline.reported(Ok(true)));
    assert_eq!(pipeline.next(), PostprocessingAction::Finished);
    let (courses, _) = pipeline.finish();
    assert_eq!(
        states(&courses),
        vec![DownloadState::PostprocessingPending(PathBuf::from("files").join("notes")), done("a.mp4")]
    );
}

#[test]
fn a_video_of_a_course_without_steps_is_complete_at_once() {
    let courses = vec![course(vec![pending_video("a.mp4")], Vec::new())];
    let mut pipeline = PostprocessingPipeline::new(courses);
    assert_eq!(pipeline.next(), PostprocessingAction::Report { skipped: false });
    assert_eq!(pipeline.current_courses()[0].files[0].download_state, done("a.mp4"));
    assert!(pipeline.reported(Ok(false)));
    assert_eq!(pipeline.current_phase(), PipelinePhase::Stopped);
    assert_eq!(pipeline.next(), PostprocessingAction::Halted);
}

#[test]
fn a_failing_report_aborts_the_run() {
    let courses = vec![course(vec![pending_video("a.mp4"), pending_video("b.mp4")], vec![fps(30)])];
    let mut pipeline = PostprocessingPipeline::new(courses);
    assert!(matches!(pipeline.next(), PostprocessingAction::RunStep { .. }));
    assert!(pipeline.step_done(Ok(())));
    assert_eq!(pipeline.next(), PostprocessingAction::Report { skipped: false });
    assert!(pipeline.reported(Err("disk full".to_string())));
    assert_eq!(pipeline.next(), PostprocessingAction::Halted);
    let (courses, result) = pipeline.finish();
    assert_eq!(result, Err("disk full".to_string()));
    assert_eq!(states(&courses), vec![done("a.mp4"), pending("b.mp4")]);
}

#[test]
fn a_waiting_pipeline_repeats_its_request() {
    let courses = vec![course(vec![pending_video("a.mp4")], vec![fps(30), fps(15)])];
    let mut pipeline = PostprocessingPipeline::new(courses);
    let first = pipeline.next();
    assert_eq!(
        first,
        PostprocessingAction::RunStep { course: 0, file: 0, step: fps(30), path: PathBuf::from("videos").join("a.mp4") }
    );
    assert_eq!(pipeline.next(), first);
    assert!(pipeline.step_done(Ok(())));
    assert_eq!(
        pipeline.next(),
        PostprocessingAction::RunStep { course: 0, file: 0, step: fps(15), path: PathBuf::from("videos").join("a.mp4") }
    );
}

fn rank(state: &DownloadState) -> u8 {
    match state {
        DownloadState::NotRequested => 0,
        DownloadState::Requested => 1,
        DownloadState::Running(_) => 2,
        DownloadState::PostprocessingPending(_) => 3,
        DownloadState::Completed(_) => 4,
        DownloadState::Failed => 5,
    }
}

#[test]
fn states_only_move_forward_from_discovery_to_completion() {
    let found = vec![
        CourseFile {
            resource: CourseFileResource::Mp4File { url: "https://example.org/a.mp4".to_string() },
            metadata: CourseFileMetadata::MoodleActivity {
                lecture_title: String::new(),
                section_title: String::new(),
                activity_title: String::new(),
            },
        },
        CourseFile {
            resource: CourseFileResource::Mp4File { url: "https://example.org/b.mp4".to_string() },
            metadata: CourseFileMetadata::MoodleActivity {
                lecture_title: String::new(),
                section_title: String::new(),
                activity_title: String::new(),
            },
        },
    ];
    let mut the_course = course(Vec::new(), vec![fps(30)]);
    reconcile_at(&mut the_course, found, Timestamp { seconds: 1, nanoseconds: 0 });
    let mut history: Vec<Vec<DownloadState>> = vec![states(std::slice::from_ref(&the_course))];

    let mut scheduler = DownloadScheduler::new(vec![the_course], 1);
    let mut outcomes = vec![Err("broken".to_string()), Ok(())];
    loop {
        let action = scheduler.next();
        history.push(states(scheduler.current_courses()));
        match action {
            DownloadAction::Wait { .. } => {
                let outcome = outcomes.pop().expect("an outcome for each download");
                assert!(scheduler.complete_at(outcome, Timestamp { seconds: 2, nanoseconds: 0 }));
                history.push(states(scheduler.current_courses()));
            }
            DownloadAction::Finished => break,
            _ => {}
        }
    }
    let (courses, _, _) = scheduler.finish();

    let mut pipeline = PostprocessingPipeline::new(courses);
    loop {
        let action = pipeline.next();
        history.push(states(pipeline.current_courses()));
        match action {
            PostprocessingAction::RunStep { .. } => assert!(pipeline.step_done(Ok(()))),
            PostprocessingAction::Report { .. } => assert!(pipeline.reported(Ok(true))),
            _ => break,
        }
        history.push(states(pipeline.current_courses()));
    }

    for pair in history.windows(2) {
        for (before, after) in pair[0].iter().zip(pair[1].iter()) {
            assert!(rank(before) <= rank(after), "{:?} became {:?}", before, after);
            if *after == DownloadState::Failed && *before != DownloadState::Failed {
                assert!(rank(before) == 1 || rank(before) == 2);
            }
        }
    }
    let last = history.last().expect("a history");
    assert_eq!(last[0], done("a.mp4"));
    assert_eq!(last[1], DownloadState::Failed);
    assert_eq!(history[0], vec![DownloadState::Requested, DownloadState::Requested]);
}
