//! The postprocessing pipeline: downloaded videos receive the steps of
//! their course one record at a time, and the run can be stopped between
//! any two records and taken up again later.
//!
//! The pipeline transforms nothing itself. [`PostprocessingPipeline::next`]
//! names the step to carry out or asks for a progress report; the caller
//! answers with [`PostprocessingPipeline::step_done`] and
//! [`PostprocessingPipeline::reported`].

use crate::data::{
    is_position, precedes, same_but_record, states_advance, Course, CourseFile,
    CourseFileDownload, DownloadState, PostprocessingStep,
};
use std::path::PathBuf;
use vstd::prelude::*;

verus! {

/// What a pipeline is doing at the moment.
#[derive(Debug, Clone, Copy, PartialEq, Eq, Structural)]
pub enum PipelinePhase {
    /// Ready to look for the next record.
    Seeking,
    /// Step number `step` of the record under the cursor is being carried
    /// out.
    Transforming { step: usize },
    /// The record under the cursor has been dealt with and the caller is
    /// asked whether to go on.
    Reporting,
    /// The caller asked to stop.
    Stopped,
    /// A step or the progress report failed.
    Aborted,
}

/// What the caller of a pipeline has to do next.
#[derive(Debug, Clone, PartialEq)]
pub enum PostprocessingAction {
    /// Apply `step` to the file at `path` and report how it went.
    RunStep { course: usize, file: usize, step: PostprocessingStep, path: PathBuf },
    /// A record has been dealt with: save the courses as they stand and
    /// report whether to go on. `skipped` is set where the record waited
    /// for postprocessing but is no video, and was left as it is.
    Report { skipped: bool },
    /// Every record has been looked at.
    Finished,
    /// The run was stopped or aborted: nothing more is done.
    Halted,
}

/// Whether record `(i, j)` waits for postprocessing.
pub open spec fn pending_at(courses: Seq<Course>, i: int, j: int) -> bool {
    is_position(courses, i, j) && courses[i].files@[j].download_state is PostprocessingPending
}

/// Whether `(i, j)` is the first record at or behind position `(ci, cj)`
/// that waits for postprocessing.
pub open spec fn first_pending_from(courses: Seq<Course>, ci: int, cj: int, i: int, j: int) -> bool {
    &&& pending_at(courses, i, j)
    &&& !precedes(i, j, ci, cj)
    &&& forall|a: int, b: int|
        !precedes(a, b, ci, cj) && precedes(a, b, i, j) ==> !#[trigger] pending_at(courses, a, b)
}

/// Whether no record at or behind position `(ci, cj)` waits for
/// postprocessing.
pub open spec fn none_pending_from(courses: Seq<Course>, ci: int, cj: int) -> bool {
    forall|a: int, b: int| !precedes(a, b, ci, cj) ==> !#[trigger] pending_at(courses, a, b)
}

/// A record after its postprocessing: complete, at the path it had.
pub open spec fn completed(record: CourseFileDownload<CourseFile>) -> CourseFileDownload<
    CourseFile,
> {
    CourseFileDownload {
        file: record.file,
        available: record.available,
        download_state: match record.download_state {
            DownloadState::PostprocessingPending(path) => DownloadState::Completed(path),
            other => other,
        },
        discovery_time: record.discovery_time,
        download_time: record.download_time,
    }
}

/// One step that was carried out with success: step number `step` of the
/// course, on record `file` of course `course`.
pub ghost struct StepRun {
    pub course: usize,
    pub file: usize,
    pub step: usize,
}

/// Whether step `k` on record `(a, b)` is among `steps`.
pub open spec fn step_logged(steps: Seq<StepRun>, a: int, b: int, k: int) -> bool {
    exists|l: int|
        0 <= l < steps.len() && (#[trigger] steps[l]).course == a && steps[l].file == b
            && steps[l].step == k
}

/// Whether every step of the course of record `(a, b)` is among `steps`.
pub open spec fn all_steps_logged(steps: Seq<StepRun>, courses: Seq<Course>, a: int, b: int) -> bool {
    forall|k: int|
        0 <= k < courses[a].video_post_processing_steps@.len() ==> #[trigger] step_logged(
            steps,
            a,
            b,
            k,
        )
}

/// Whether step `first` comes before step `second`: on an earlier record,
/// or on the same record and earlier among the steps.
pub open spec fn step_precedes(first: StepRun, second: StepRun) -> bool {
    precedes(first.course as int, first.file as int, second.course as int, second.file as int)
        || (first.course == second.course && first.file == second.file && first.step
        < second.step)
}

/// A step that is among `steps` is among them after another was added,
/// and so is the one added.
proof fn lemma_logged_after_push(steps: Seq<StepRun>, run: StepRun, a: int, b: int, k: int)
    requires
        step_logged(steps, a, b, k) || (run.course == a && run.file == b && run.step == k),
    ensures
        step_logged(steps.push(run), a, b, k),
{
    let longer = steps.push(run);
    if step_logged(steps, a, b, k) {
        let l = choose|l: int|
            0 <= l < steps.len() && (#[trigger] steps[l]).course == a && steps[l].file == b
                && steps[l].step == k;
        assert(longer[l] == steps[l]);
    } else {
        assert(longer[steps.len() as int] == run);
    }
}

/// Adding a step keeps every step that was there, and the step added is
/// there.
proof fn lemma_log_grows(steps: Seq<StepRun>, run: StepRun)
    ensures
        forall|a: int, b: int, k: int|
            step_logged(steps, a, b, k) ==> #[trigger] step_logged(steps.push(run), a, b, k),
        step_logged(steps.push(run), run.course as int, run.file as int, run.step as int),
        forall|l: int| 0 <= l < steps.len() ==> (#[trigger] steps.push(run)[l]) == steps[l],
{
    assert forall|a: int, b: int, k: int| step_logged(steps, a, b, k) implies #[trigger] step_logged(
        steps.push(run),
        a,
        b,
        k,
    ) by {
        lemma_logged_after_push(steps, run, a, b, k);
    }
    lemma_logged_after_push(steps, run, run.course as int, run.file as int, run.step as int);
}

/// Whether every video that waited for postprocessing in `initial` is
/// complete in `courses`.
pub open spec fn all_processed(initial: Seq<Course>, courses: Seq<Course>) -> bool {
    forall|a: int, b: int|
        is_position(initial, a, b) && initial[a].files@[b].download_state
            is PostprocessingPending && initial[a].files@[b].file@.is_video() ==> (
        #[trigger] courses[a].files@[b]) == completed(initial[a].files@[b])
}

/// Applies the postprocessing steps of each course to its downloaded
/// videos, record by record in course order.
pub struct PostprocessingPipeline {
    courses: Vec<Course>,
    course: usize,
    file: usize,
    phase: PipelinePhase,
    failure: Option<String>,
    initial: Ghost<Seq<Course>>,
    steps_done: Ghost<Seq<StepRun>>,
}

impl PostprocessingPipeline {
    /// The courses as they stand.
    pub closed spec fn courses(&self) -> Seq<Course> {
        self.courses@
    }

    /// The courses as they were handed to the pipeline.
    pub closed spec fn initial(&self) -> Seq<Course> {
        self.initial@
    }

    /// The position of the record that is looked at next or being dealt
    /// with.
    pub closed spec fn cursor(&self) -> (int, int) {
        (self.course as int, self.file as int)
    }

    pub closed spec fn phase(&self) -> PipelinePhase {
        self.phase
    }

    /// Why the run was aborted, if it was.
    pub closed spec fn failure(&self) -> Option<String> {
        self.failure
    }

    /// The steps carried out with success so far, in the order in which
    /// their results were taken.
    pub closed spec fn steps_done(&self) -> Seq<StepRun> {
        self.steps_done@
    }

    /// Whether the run is over: every record has been looked at.
    pub closed spec fn finished(&self) -> bool {
        self.phase is Seeking && self.course == self.courses@.len()
    }

    /// The invariant of the pipeline.
    pub closed spec fn wf(&self) -> bool {
        let courses = self.courses@;
        let initial = self.initial@;
        let ci = self.course as int;
        let cj = self.file as int;
        &&& ci <= courses.len()
        &&& ci < courses.len() ==> cj <= courses[ci].files@.len()
        &&& ci == courses.len() ==> cj == 0
        &&& match self.phase {
            PipelinePhase::Transforming { step } => {
                &&& pending_at(courses, ci, cj)
                &&& courses[ci].files@[cj].file@.is_video()
                &&& step < courses[ci].video_post_processing_steps@.len()
            },
            PipelinePhase::Reporting => {
                &&& is_position(courses, ci, cj)
                &&& initial[ci].files@[cj].download_state is PostprocessingPending
                    && initial[ci].files@[cj].file@.is_video() ==> courses[ci].files@[cj]
                    == completed(initial[ci].files@[cj])
            },
            _ => true,
        }
        &&& forall|a: int, b: int|
            is_position(courses, a, b) && precedes(a, b, ci, cj)
                && initial[a].files@[b].download_state is PostprocessingPending
                && initial[a].files@[b].file@.is_video() ==> #[trigger] courses[a].files@[b]
                == completed(initial[a].files@[b])
        &&& self.failure is Some <==> self.phase is Aborted
        &&& courses.len() == initial.len()
        &&& forall|a: int|
            0 <= a < courses.len() ==> (#[trigger] courses[a]).same_settings(initial[a])
                && courses[a].files@.len() == initial[a].files@.len()
        &&& forall|a: int, b: int|
            is_position(courses, a, b) ==> {
                ||| #[trigger] courses[a].files@[b] == initial[a].files@[b]
                ||| {
                    &&& initial[a].files@[b].download_state is PostprocessingPending
                    &&& initial[a].files@[b].file@.is_video()
                    &&& courses[a].files@[b] == completed(initial[a].files@[b])
                    &&& precedes(a, b, ci, cj) || (a == ci && b == cj && self.phase is Reporting)
                }
            }
        &&& forall|l: int|
            0 <= l < self.steps_done@.len() ==> {
                let run = #[trigger] self.steps_done@[l];
                &&& is_position(courses, run.course as int, run.file as int)
                &&& initial[run.course as int].files@[run.file as int].download_state
                    is PostprocessingPending
                &&& initial[run.course as int].files@[run.file as int].file@.is_video()
                &&& run.step < initial[run.course as int].video_post_processing_steps@.len()
                &&& precedes(run.course as int, run.file as int, ci, cj) || (run.course == ci
                    && run.file == cj && match self.phase {
                    PipelinePhase::Transforming { step } => run.step < step,
                    PipelinePhase::Reporting => true,
                    PipelinePhase::Aborted => true,
                    _ => false,
                })
            }
        &&& forall|l: int, m: int|
            0 <= l < m < self.steps_done@.len() ==> step_precedes(
                #[trigger] self.steps_done@[l],
                #[trigger] self.steps_done@[m],
            )
        &&& forall|a: int, b: int|
            is_position(courses, a, b) && precedes(a, b, ci, cj) && (
            #[trigger] initial[a].files@[b]).download_state is PostprocessingPending
                && initial[a].files@[b].file@.is_video() ==> all_steps_logged(
                self.steps_done@,
                initial,
                a,
                b,
            )
        &&& match self.phase {
            PipelinePhase::Transforming { step } => forall|k: int|
                0 <= k < step ==> #[trigger] step_logged(self.steps_done@, ci, cj, k),
            PipelinePhase::Reporting => initial[ci].files@[cj].download_state
                is PostprocessingPending && initial[ci].files@[cj].file@.is_video()
                ==> all_steps_logged(self.steps_done@, initial, ci, cj),
            _ => true,
        }
    }

    /// A pipeline over `courses` that has not looked at any record yet.
    pub fn new(courses: Vec<Course>) -> (pipeline: Self)
        ensures
            pipeline.wf(),
            pipeline.courses() == courses@,
            pipeline.initial() == courses@,
            pipeline.cursor() == (0int, 0int),
            pipeline.phase() == PipelinePhase::Seeking,
            pipeline.failure() is None,
            pipeline.steps_done().len() == 0,
    {
        let ghost initial = courses@;
        PostprocessingPipeline {
            courses,
            course: 0,
            file: 0,
            phase: PipelinePhase::Seeking,
            failure: None,
            initial: Ghost(initial),
            steps_done: Ghost(Seq::empty()),
        }
    }

    /// Moves the cursor to the first record at or behind it that waits
    /// for postprocessing, or behind the last course where there is none.
    fn seek(&mut self)
        requires
            old(self).wf(),
            old(self).phase is Seeking,
        ensures
            final(self).wf(),
            final(self).courses@ == old(self).courses@,
            final(self).initial@ == old(self).initial@,
            final(self).steps_done@ == old(self).steps_done@,
            final(self).phase == old(self).phase,
            final(self).failure == old(self).failure,
            final(self).course < final(self).courses@.len() ==> first_pending_from(
                final(self).courses@,
                old(self).course as int,
                old(self).file as int,
                final(self).course as int,
                final(self).file as int,
            ),
            final(self).course == final(self).courses@.len() ==> final(self).file == 0
                && none_pending_from(
                final(self).courses@,
                old(self).course as int,
                old(self).file as int,
            ),
    {
        while self.course < self.courses.len()
            invariant
                self.wf(),
                self.courses@ == old(self).courses@,
                self.initial@ == old(self).initial@,
                self.steps_done@ == old(self).steps_done@,
                self.phase == old(self).phase,
                self.phase is Seeking,
                self.failure == old(self).failure,
                !precedes(
                    self.course as int,
                    self.file as int,
                    old(self).course as int,
                    old(self).file as int,
                ),
                forall|a: int, b: int|
                    !precedes(a, b, old(self).course as int, old(self).file as int) && precedes(
                        a,
                        b,
                        self.course as int,
                        self.file as int,
                    ) ==> !#[trigger] pending_at(self.courses@, a, b),
            decreases
                    self.courses@.len() - self.course,
                    self.courses@[self.course as int].files@.len() - self.file,
        {
            if self.file < self.courses[self.course].files.len() {
                match self.courses[self.course].files[self.file].download_state {
                    DownloadState::PostprocessingPending(_) => {
                        return ;
                    },
                    _ => {},
                }
                self.file = self.file + 1;
            } else {
                self.course = self.course + 1;
                self.file = 0;
            }
        }
    }

    /// Marks the record under the cursor as complete.
    fn complete_current(&mut self, last: Ghost<Option<StepRun>>)
        requires
            old(self).wf(),
            old(self).phase is Seeking || old(self).phase is Transforming,
            pending_at(old(self).courses@, old(self).course as int, old(self).file as int),
            old(self).courses@[old(self).course as int].files@[old(self).file as int].file@.is_video(),
            match last@ {
                Some(run) => {
                    &&& old(self).phase == PipelinePhase::Transforming { step: run.step }
                    &&& run.course == old(self).course
                    &&& run.file == old(self).file
                    &&& run.step + 1 == old(self).courses@[old(
                        self,
                    ).course as int].video_post_processing_steps@.len()
                },
                None => old(self).courses@[old(
                    self,
                ).course as int].video_post_processing_steps@.len() == 0,
            },
        ensures
            final(self).wf(),
            final(self).steps_done@ == match last@ {
                Some(run) => old(self).steps_done@.push(run),
                None => old(self).steps_done@,
            },
            final(self).phase is Reporting,
            final(self).course == old(self).course,
            final(self).file == old(self).file,
            final(self).initial@ == old(self).initial@,
            final(self).failure == old(self).failure,
            same_but_record(
                old(self).courses@,
                final(self).courses@,
                old(self).course as int,
                old(self).file as int,
            ),
            final(self).courses@[old(self).course as int].files@[old(self).file as int]
                == completed(
                old(self).courses@[old(self).course as int].files@[old(self).file as int],
            ),
    {
        let ghost before = self.courses@;
        let course = self.course;
        let file = self.file;
        let state = match &self.courses[course].files[file].download_state {
            DownloadState::PostprocessingPending(path) => DownloadState::Completed(path.clone()),
            other => other.clone(),
        };
        self.courses[course].files[file].download_state = state;
        self.phase = PipelinePhase::Reporting;
        let ghost done = self.steps_done@;
        proof {
            match last@ {
                Some(run) => {
                    self.steps_done@ = done.push(run);
                    lemma_log_grows(done, run);
                },
                None => {},
            }
        }
        proof {
            assert(same_but_record(before, self.courses@, course as int, file as int));
            assert(before[course as int].files@[file as int]
                == self.initial@[course as int].files@[file as int]);
            assert forall|a: int, b: int|
                is_position(self.courses@, a, b) && !(a == course && b == file) implies (
            #[trigger] self.courses@[a].files@[b]) == before[a].files@[b] by {}
        }
    }

    /// Decides what happens next.
    ///
    /// A pipeline that is ready looks for the first record, from the
    /// cursor on, that waits for postprocessing. A video gets the steps of
    /// its course one after the other and is complete after the last; a
    /// video of a course without steps is complete at once; a record that
    /// is no video is passed over as it is. Each such record is followed
    /// by a progress report. A pipeline that waits for an answer repeats
    /// its request.
    pub fn next(&mut self) -> (action: PostprocessingAction)
        requires
            old(self).wf(),
        ensures
            final(self).wf(),
            final(self).initial() == old(self).initial(),
            final(self).failure() == old(self).failure(),
            final(self).steps_done() == old(self).steps_done(),
            states_advance(old(self).courses(), final(self).courses()),
            action is Finished ==> final(self).finished(),
            match old(self).phase() {
                PipelinePhase::Seeking => {
                    let from = old(self).cursor();
                    let at = final(self).cursor();
                    let course = old(self).courses()[at.0];
                    let record = course.files@[at.1];
                    let steps = course.video_post_processing_steps@;
                    match action {
                        PostprocessingAction::Finished => {
                            &&& none_pending_from(old(self).courses(), from.0, from.1)
                            &&& final(self).courses() == old(self).courses()
                            &&& final(self).phase() == PipelinePhase::Seeking
                            &&& at == (old(self).courses().len() as int, 0int)
                            &&& all_processed(final(self).initial(), final(self).courses())
                        },
                        PostprocessingAction::RunStep { course: i, file: j, step, path } => {
                            &&& at == (i as int, j as int)
                            &&& first_pending_from(old(self).courses(), from.0, from.1, at.0, at.1)
                            &&& record.file@.is_video()
                            &&& steps.len() > 0
                            &&& step == steps[0]
                            &&& record.download_state == DownloadState::PostprocessingPending(path)
                            &&& final(self).courses() == old(self).courses()
                            &&& final(self).phase() == PipelinePhase::Transforming { step: 0 }
                        },
                        PostprocessingAction::Report { skipped } => {
                            &&& first_pending_from(old(self).courses(), from.0, from.1, at.0, at.1)
                            &&& skipped == !record.file@.is_video()
                            &&& final(self).phase() == PipelinePhase::Reporting
                            &&& if record.file@.is_video() {
                                &&& steps.len() == 0
                                &&& same_but_record(
                                    old(self).courses(),
                                    final(self).courses(),
                                    at.0,
                                    at.1,
                                )
                                &&& final(self).courses()[at.0].files@[at.1] == completed(record)
                            } else {
                                final(self).courses() == old(self).courses()
                            }
                        },
                        PostprocessingAction::Halted => false,
                    }
                },
                PipelinePhase::Transforming { step: k } => {
                    let at = old(self).cursor();
                    let course = old(self).courses()[at.0];
                    &&& action matches PostprocessingAction::RunStep { course: i, file: j, step, path }
                    &&& at == (i as int, j as int)
                    &&& step == course.video_post_processing_steps@[k as int]
                    &&& course.files@[at.1].download_state == DownloadState::PostprocessingPending(
                        path,
                    )
                    &&& final(self).courses() == old(self).courses()
                    &&& final(self).cursor() == old(self).cursor()
                    &&& final(self).phase() == old(self).phase()
                },
                PipelinePhase::Reporting => {
                    let at = old(self).cursor();
                    &&& action == PostprocessingAction::Report {
                        skipped: !old(self).courses()[at.0].files@[at.1].file@.is_video(),
                    }
                    &&& final(self).courses() == old(self).courses()
                    &&& final(self).cursor() == old(self).cursor()
                    &&& final(self).phase() == old(self).phase()
                },
                _ => {
                    &&& action == PostprocessingAction::Halted
                    &&& final(self).courses() == old(self).courses()
                    &&& final(self).cursor() == old(self).cursor()
                    &&& final(self).phase() == old(self).phase()
                },
            },
    {
        match self.phase {
            PipelinePhase::Seeking => {
                self.seek();
                if self.course >= self.courses.len() {
                    return PostprocessingAction::Finished;
                }
                let course = self.course;
                let file = self.file;
                if !self.courses[course].files[file].file.is_video() {
                    self.phase = PipelinePhase::Reporting;
                    return PostprocessingAction::Report { skipped: true };
                }
                if self.courses[course].video_post_processing_steps.len() == 0 {
                    self.complete_current(Ghost(None));
                    return PostprocessingAction::Report { skipped: false };
                }
                self.phase = PipelinePhase::Transforming { step: 0 };
                self.current_step(0)
            },
            PipelinePhase::Transforming { step } => self.current_step(step),
            PipelinePhase::Reporting => PostprocessingAction::Report {
                skipped: !self.courses[self.course].files[self.file].file.is_video(),
            },
            _ => PostprocessingAction::Halted,
        }
    }

    /// The request to carry out step number `step` on the record under
    /// the cursor.
    fn current_step(&self, step: usize) -> (action: PostprocessingAction)
        requires
            self.wf(),
            self.phase == (PipelinePhase::Transforming { step }),
        ensures
            action matches PostprocessingAction::RunStep { course, file, step: s, path } && {
                &&& course == self.course
                &&& file == self.file
                &&& s == self.courses@[self.course as int].video_post_processing_steps@[step as int]
                &&& self.courses@[self.course as int].files@[self.file as int].download_state
                    == DownloadState::PostprocessingPending(path)
            },
    {
        let course = &self.courses[self.course];
        match &course.files[self.file].download_state {
            DownloadState::PostprocessingPending(path) => PostprocessingAction::RunStep {
                course: self.course,
                file: self.file,
                step: course.video_post_processing_steps[step],
                path: path.clone(),
            },
            _ => PostprocessingAction::Halted,
        }
    }

    /// Records how the step that was being carried out went.
    ///
    /// After a step that succeeded the next step of the course follows;
    /// after the last one the record is complete and a progress report is
    /// due. A step that failed aborts the whole run and leaves the record
    /// waiting. Where no step was being carried out nothing changes and
    /// the result is `false`.
    pub fn step_done(&mut self, outcome: Result<(), String>) -> (expected: bool)
        requires
            old(self).wf(),
        ensures
            final(self).wf(),
            final(self).initial() == old(self).initial(),
            final(self).cursor() == old(self).cursor(),
            states_advance(old(self).courses(), final(self).courses()),
            expected == old(self).phase() is Transforming,
            !expected ==> {
                &&& final(self).courses() == old(self).courses()
                &&& final(self).phase() == old(self).phase()
                &&& final(self).failure() == old(self).failure()
            },
            final(self).steps_done() == match (old(self).phase(), outcome) {
                (PipelinePhase::Transforming { step }, Ok(_)) => old(self).steps_done().push(
                    StepRun {
                        course: old(self).cursor().0 as usize,
                        file: old(self).cursor().1 as usize,
                        step,
                    },
                ),
                _ => old(self).steps_done(),
            },
            old(self).phase() matches PipelinePhase::Transforming { step: k } ==> {
                let at = old(self).cursor();
                let course = old(self).courses()[at.0];
                match outcome {
                    Ok(_) => if k + 1 < course.video_post_processing_steps@.len() {
                        &&& final(self).courses() == old(self).courses()
                        &&& final(self).phase() == PipelinePhase::Transforming {
                            step: (k + 1) as usize,
                        }
                        &&& final(self).failure() == old(self).failure()
                    } else {
                        &&& same_but_record(old(self).courses(), final(self).courses(), at.0, at.1)
                        &&& final(self).courses()[at.0].files@[at.1] == completed(
                            course.files@[at.1],
                        )
                        &&& final(self).phase() == PipelinePhase::Reporting
                        &&& final(self).failure() == old(self).failure()
                    },
                    Err(reason) => {
                        &&& final(self).courses() == old(self).courses()
                        &&& final(self).phase() == PipelinePhase::Aborted
                        &&& final(self).failure() == Some(reason)
                    },
                }
            },
    {
        let step = match self.phase {
            PipelinePhase::Transforming { step } => step,
            _ => {
                return false;
            },
        };
        match outcome {
            Ok(_) => {
                let steps: usize = self.courses[self.course].video_post_processing_steps.len();
                let ghost done = self.steps_done@;
                let ghost run = StepRun { course: self.course, file: self.file, step };
                if step + 1 < steps {
                    self.phase = PipelinePhase::Transforming { step: step + 1 };
                    proof {
                        self.steps_done@ = done.push(run);
                        lemma_log_grows(done, run);
                    }
                } else {
                    self.complete_current(Ghost(Some(run)));
                }
            },
            Err(reason) => {
                self.failure = Some(reason);
                self.phase = PipelinePhase::Aborted;
            },
        }
        true
    }

    /// Takes the answer to a progress report: `Ok(true)` to go on with
    /// the next record, `Ok(false)` to stop here, an error to abort. In
    /// each case the record that was reported is behind the cursor
    /// afterwards, and every record behind it is as it was.
    ///
    /// Where no report was due nothing changes and the result is `false`.
    pub fn reported(&mut self, answer: Result<bool, String>) -> (expected: bool)
        requires
            old(self).wf(),
        ensures
            final(self).wf(),
            final(self).initial() == old(self).initial(),
            final(self).courses() == old(self).courses(),
            final(self).steps_done() == old(self).steps_done(),
            expected == old(self).phase() is Reporting,
            !expected ==> {
                &&& final(self).cursor() == old(self).cursor()
                &&& final(self).phase() == old(self).phase()
                &&& final(self).failure() == old(self).failure()
            },
            expected ==> {
                &&& final(self).cursor() == (old(self).cursor().0, old(self).cursor().1 + 1)
                &&& final(self).phase() == match answer {
                    Ok(true) => PipelinePhase::Seeking,
                    Ok(false) => PipelinePhase::Stopped,
                    Err(_) => PipelinePhase::Aborted,
                }
                &&& final(self).failure() == match answer {
                    Ok(_) => old(self).failure(),
                    Err(reason) => Some(reason),
                }
            },
    {
        match self.phase {
            PipelinePhase::Reporting => {},
            _ => {
                return false;
            },
        }
        proof {
            vstd::std_specs::vec::axiom_spec_len(&self.courses@[self.course as int].files);
        }
        self.file = self.file + 1;
        match answer {
            Ok(true) => {
                self.phase = PipelinePhase::Seeking;
            },
            Ok(false) => {
                self.phase = PipelinePhase::Stopped;
            },
            Err(reason) => {
                self.failure = Some(reason);
                self.phase = PipelinePhase::Aborted;
            },
        }
        true
    }

    /// The courses as they stand, for the progress report.
    pub fn current_courses(&self) -> (courses: &Vec<Course>)
        ensures
            courses@ == self.courses(),
    {
        &self.courses
    }

    /// What the pipeline is doing at the moment.
    pub fn current_phase(&self) -> (phase: PipelinePhase)
        ensures
            phase == self.phase(),
    {
        self.phase
    }

    /// Ends the run and hands back the courses, with the reason where the
    /// run was aborted.
    pub fn finish(self) -> (end: (Vec<Course>, Result<(), String>))
        ensures
            end.0@ == self.courses(),
            end.1 is Err == self.failure() is Some,
            end.1 matches Err(reason) ==> self.failure() == Some(reason),
    {
        match self.failure {
            Some(reason) => (self.courses, Err(reason)),
            None => (self.courses, Ok(())),
        }
    }

    /// Wherever a run stands, every record is either as it was handed in
    /// or a video that waited for postprocessing and is now complete at
    /// the same path. Every record behind the cursor is as it was handed
    /// in, and so is the record under the cursor unless it has just been
    /// dealt with; every video before the cursor that waited is complete.
    /// So a run that was stopped leaves the records it did not reach
    /// waiting, and a later run finds exactly those.
    pub proof fn lemma_resumable(&self)
        requires
            self.wf(),
        ensures
            self.courses().len() == self.initial().len(),
            forall|a: int|
                0 <= a < self.courses().len() ==> (#[trigger] self.courses()[a]).same_settings(
                    self.initial()[a],
                ) && self.courses()[a].files@.len() == self.initial()[a].files@.len(),
            forall|a: int, b: int|
                is_position(self.courses(), a, b) ==> {
                    let before = self.initial()[a].files@[b];
                    let after = #[trigger] self.courses()[a].files@[b];
                    ||| after == before
                    ||| {
                        &&& before.download_state is PostprocessingPending
                        &&& before.file@.is_video()
                        &&& after == completed(before)
                        &&& !precedes(self.cursor().0, self.cursor().1, a, b)
                    }
                },
            forall|a: int, b: int|
                is_position(self.courses(), a, b) && precedes(
                    self.cursor().0,
                    self.cursor().1,
                    a,
                    b,
                ) ==> #[trigger] self.courses()[a].files@[b] == self.initial()[a].files@[b],
            !(self.phase() is Reporting) && is_position(
                self.courses(),
                self.cursor().0,
                self.cursor().1,
            ) ==> self.courses()[self.cursor().0].files@[self.cursor().1]
                == self.initial()[self.cursor().0].files@[self.cursor().1],
            forall|a: int, b: int|
                is_position(self.courses(), a, b) && precedes(
                    a,
                    b,
                    self.cursor().0,
                    self.cursor().1,
                ) && self.initial()[a].files@[b].download_state is PostprocessingPending
                    && self.initial()[a].files@[b].file@.is_video() ==> (
                #[trigger] self.courses()[a].files@[b]) == completed(self.initial()[a].files@[b]),
    {
    }

    /// Wherever a run stands, every step carried out was a step of the
    /// course of a video that waited for postprocessing, and the steps
    /// were carried out in order: record by record, and for each record
    /// step by step, none of them twice.
    pub proof fn lemma_steps_in_order(&self)
        requires
            self.wf(),
        ensures
            forall|l: int|
                0 <= l < self.steps_done().len() ==> {
                    let run = #[trigger] self.steps_done()[l];
                    let record = self.initial()[run.course as int].files@[run.file as int];
                    &&& is_position(self.initial(), run.course as int, run.file as int)
                    &&& record.download_state is PostprocessingPending
                    &&& record.file@.is_video()
                    &&& run.step < self.initial()[run.course as int].video_post_processing_steps@.len()
                },
            forall|l: int, m: int|
                0 <= l < m < self.steps_done().len() ==> step_precedes(
                    #[trigger] self.steps_done()[l],
                    #[trigger] self.steps_done()[m],
                ),
    {
    }

    /// When a run is over, every video that waited for postprocessing has
    /// had every step of its course and is complete, and no video waits
    /// any more.
    pub proof fn lemma_run_complete(&self)
        requires
            self.wf(),
            self.finished(),
        ensures
            all_processed(self.initial(), self.courses()),
            forall|a: int, b: int|
                is_position(self.initial(), a, b) && (#[trigger] self.initial()[a].files@[b]).download_state
                    is PostprocessingPending && self.initial()[a].files@[b].file@.is_video()
                    ==> all_steps_logged(self.steps_done(), self.initial(), a, b),
            forall|a: int, b: int|
                is_position(self.courses(), a, b) && (#[trigger] self.courses()[a].files@[b]).file@.is_video()
                    ==> !(self.courses()[a].files@[b].download_state is PostprocessingPending),
    {
        assert forall|a: int, b: int| is_position(self.initial@, a, b) implies precedes(
            a,
            b,
            self.course as int,
            self.file as int,
        ) by {}
        assert forall|a: int, b: int|
            is_position(self.courses(), a, b) && (#[trigger] self.courses()[a].files@[b]).file@.is_video() implies !(
        self.courses()[a].files@[b].download_state is PostprocessingPending) by {
            assert(precedes(a, b, self.course as int, self.file as int));
        }
    }

    /// Taking a run up again: when `second` has run to its end on the
    /// courses that `first` left behind, the steps it carried out are
    /// exactly the steps of the videos that still waited after `first`,
    /// each step once and in order. None of them is on a record that
    /// `first` had completed, and afterwards no video waits any more.
    pub proof fn lemma_second_run(first: &PostprocessingPipeline, second: &PostprocessingPipeline)
        requires
            first.wf(),
            second.wf(),
            second.initial() == first.courses(),
            second.finished(),
        ensures
            forall|l: int|
                0 <= l < second.steps_done().len() ==> {
                    let run = #[trigger] second.steps_done()[l];
                    let left = first.courses()[run.course as int].files@[run.file as int];
                    &&& is_position(first.courses(), run.course as int, run.file as int)
                    &&& left.download_state is PostprocessingPending
                    &&& left.file@.is_video()
                    &&& left == first.initial()[run.course as int].files@[run.file as int]
                    &&& run.step < first.courses()[run.course as int].video_post_processing_steps@.len()
                },
            forall|a: int, b: int|
                is_position(first.courses(), a, b) && (#[trigger] first.courses()[a].files@[b]).download_state
                    is PostprocessingPending && first.courses()[a].files@[b].file@.is_video()
                    ==> all_steps_logged(second.steps_done(), first.courses(), a, b),
            forall|l: int, m: int|
                0 <= l < m < second.steps_done().len() ==> step_precedes(
                    #[trigger] second.steps_done()[l],
                    #[trigger] second.steps_done()[m],
                ),
            forall|a: int, b: int|
                is_position(second.courses(), a, b) && (#[trigger] second.courses()[a].files@[b]).file@.is_video()
                    ==> !(second.courses()[a].files@[b].download_state is PostprocessingPending),
    {
        second.lemma_steps_in_order();
        second.lemma_run_complete();
        first.lemma_resumable();
        assert forall|l: int| 0 <= l < second.steps_done().len() implies {
            let run = #[trigger] second.steps_done()[l];
            let left = first.courses()[run.course as int].files@[run.file as int];
            left == first.initial()[run.course as int].files@[run.file as int]
        } by {
            let run = second.steps_done()[l];
            assert(is_position(first.courses(), run.course as int, run.file as int));
        }
    }
}

} // verus!
