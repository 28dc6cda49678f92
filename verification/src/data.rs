//! The durable data model: courses, the resources found on them and the
//! download state of every resource.

use std::path::PathBuf;
use vstd::prelude::*;
use vstd::std_specs::cmp::PartialEqSpec;
use vstd::std_specs::cmp::PartialEqSpecImpl;

verus! {

/// `std::path::PathBuf`. Paths are carried through the library without being
/// inspected.
#[verifier::external_type_specification]
#[verifier::external_body]
pub struct ExPathBuf(std::path::PathBuf);

/// `PathBuf::clone`: the copy is the same path.
pub assume_specification[ <std::path::PathBuf as Clone>::clone ](
    path: &std::path::PathBuf,
) -> (copy: std::path::PathBuf)
    ensures
        copy == *path,
;

/// Display data of a resource. It never takes part in identity.
#[derive(Debug, Clone)]
pub enum CourseFileMetadata {
    TumLiveStream { lecture_title: String, video_title: String, date_time_string: String },
    MoodleActivity { lecture_title: String, section_title: String, activity_title: String },
}

/// Mathematical model of [`CourseFileMetadata`].
pub ghost enum MetadataView {
    TumLiveStream { lecture_title: Seq<char>, video_title: Seq<char>, date_time_string: Seq<char> },
    MoodleActivity { lecture_title: Seq<char>, section_title: Seq<char>, activity_title: Seq<char> },
}

impl View for CourseFileMetadata {
    type V = MetadataView;

    open spec fn view(&self) -> MetadataView {
        match *self {
            CourseFileMetadata::TumLiveStream { lecture_title, video_title, date_time_string } =>
                MetadataView::TumLiveStream {
                    lecture_title: lecture_title@,
                    video_title: video_title@,
                    date_time_string: date_time_string@,
                },
            CourseFileMetadata::MoodleActivity { lecture_title, section_title, activity_title } =>
                MetadataView::MoodleActivity {
                    lecture_title: lecture_title@,
                    section_title: section_title@,
                    activity_title: activity_title@,
                },
        }
    }
}

impl MetadataView {
    /// The title of the lecture the resource belongs to.
    pub open spec fn lecture_title(self) -> Seq<char> {
        match self {
            MetadataView::TumLiveStream { lecture_title, .. } => lecture_title,
            MetadataView::MoodleActivity { lecture_title, .. } => lecture_title,
        }
    }

    /// The title of the resource itself.
    pub open spec fn title(self) -> Seq<char> {
        match self {
            MetadataView::TumLiveStream { video_title, .. } => video_title,
            MetadataView::MoodleActivity { activity_title, .. } => activity_title,
        }
    }

    /// How a resource is named to the user: the lecture, a dash, the
    /// title.
    pub open spec fn display(self) -> Seq<char> {
        self.lecture_title() + seq![' ', '-', ' '] + self.title()
    }
}

impl CourseFileMetadata {
    /// The name of the resource as it is shown to the user.
    pub fn to_display_string(&self) -> (text: String)
        ensures
            text@ == self@.display(),
    {
        let (lecture_title, title) = match self {
            CourseFileMetadata::TumLiveStream { lecture_title, video_title, .. } => (
                lecture_title,
                video_title,
            ),
            CourseFileMetadata::MoodleActivity { lecture_title, activity_title, .. } => (
                lecture_title,
                activity_title,
            ),
        };
        proof {
            reveal_strlit(" - ");
        }
        let mut text = lecture_title.clone();
        text.append(" - ");
        text.append(title.as_str());
        assert(" - "@ =~= seq![' ', '-', ' ']);
        text
    }
}

/// Where a resource lives and what kind of thing it is.
#[derive(Debug, Clone, PartialEq)]
pub enum CourseFileResource {
    Mp4File { url: String },
    HlsStream { main_m3u8_url: String },
    Document { url: String, file_extension: Option<String> },
}

/// Mathematical model of [`CourseFileResource`].
pub ghost enum ResourceView {
    Mp4File { url: Seq<char> },
    HlsStream { main_m3u8_url: Seq<char> },
    Document { url: Seq<char>, file_extension: Option<Seq<char>> },
}

/// The three kinds of resource.
pub ghost enum ResourceKind {
    Mp4File,
    HlsStream,
    Document,
}

/// What makes two resources the same resource: the kind and the URL.
pub ghost struct ResourceIdentity {
    pub kind: ResourceKind,
    pub url: Seq<char>,
}

impl ResourceView {
    pub open spec fn kind(self) -> ResourceKind {
        match self {
            ResourceView::Mp4File { .. } => ResourceKind::Mp4File,
            ResourceView::HlsStream { .. } => ResourceKind::HlsStream,
            ResourceView::Document { .. } => ResourceKind::Document,
        }
    }

    pub open spec fn url(self) -> Seq<char> {
        match self {
            ResourceView::Mp4File { url } => url,
            ResourceView::HlsStream { main_m3u8_url } => main_m3u8_url,
            ResourceView::Document { url, .. } => url,
        }
    }

    pub open spec fn identity(self) -> ResourceIdentity {
        ResourceIdentity { kind: self.kind(), url: self.url() }
    }

    pub open spec fn is_video(self) -> bool {
        !(self is Document)
    }
}

impl View for CourseFileResource {
    type V = ResourceView;

    open spec fn view(&self) -> ResourceView {
        match *self {
            CourseFileResource::Mp4File { url } => ResourceView::Mp4File { url: url@ },
            CourseFileResource::HlsStream { main_m3u8_url } => ResourceView::HlsStream {
                main_m3u8_url: main_m3u8_url@,
            },
            CourseFileResource::Document { url, file_extension } => ResourceView::Document {
                url: url@,
                file_extension: match file_extension {
                    Some(e) => Some(e@),
                    None => None,
                },
            },
        }
    }
}

impl CourseFileResource {
    /// The URL the resource is fetched from.
    pub fn url(&self) -> (url: &String)
        ensures
            url@ == self@.url(),
    {
        match self {
            CourseFileResource::Mp4File { url } => url,
            CourseFileResource::HlsStream { main_m3u8_url } => main_m3u8_url,
            CourseFileResource::Document { url, .. } => url,
        }
    }

    /// Whether both resources have the same kind and the same URL.
    pub fn same_identity(&self, other: &CourseFileResource) -> (same: bool)
        ensures
            same == (self@.identity() == other@.identity()),
    {
        match (self, other) {
            (CourseFileResource::Mp4File { url: a }, CourseFileResource::Mp4File { url: b }) => *a
                == *b,
            (
                CourseFileResource::HlsStream { main_m3u8_url: a },
                CourseFileResource::HlsStream { main_m3u8_url: b },
            ) => *a == *b,
            (
                CourseFileResource::Document { url: a, .. },
                CourseFileResource::Document { url: b, .. },
            ) => *a == *b,
            _ => false,
        }
    }
}

/// A resource found on a course site together with its display data.
#[derive(Debug, Clone)]
pub struct CourseFile {
    pub resource: CourseFileResource,
    pub metadata: CourseFileMetadata,
}

/// Mathematical model of [`CourseFile`].
pub ghost struct CourseFileView {
    pub resource: ResourceView,
    pub metadata: MetadataView,
}

impl CourseFileView {
    pub open spec fn identity(self) -> ResourceIdentity {
        self.resource.identity()
    }

    pub open spec fn is_video(self) -> bool {
        self.resource.is_video()
    }

    pub open spec fn is_document(self) -> bool {
        self.resource is Document
    }
}

impl View for CourseFile {
    type V = CourseFileView;

    open spec fn view(&self) -> CourseFileView {
        CourseFileView { resource: self.resource@, metadata: self.metadata@ }
    }
}

impl CourseFile {
    pub fn is_video(&self) -> (video: bool)
        ensures
            video == self@.is_video(),
            video == (self@.resource is Mp4File || self@.resource is HlsStream),
    {
        match self.resource {
            CourseFileResource::Mp4File { .. } | CourseFileResource::HlsStream { .. } => true,
            CourseFileResource::Document { .. } => false,
        }
    }

    pub fn is_document(&self) -> (document: bool)
        ensures
            document == self@.is_document(),
            document == !self@.is_video(),
    {
        match self.resource {
            CourseFileResource::Mp4File { .. } | CourseFileResource::HlsStream { .. } => false,
            CourseFileResource::Document { .. } => true,
        }
    }
}

/// Two course files are equal when they name the same resource; the
/// metadata is ignored.
impl PartialEq for CourseFile {
    fn eq(&self, other: &Self) -> (equal: bool) {
        self.resource.same_identity(&other.resource)
    }
}

impl PartialEqSpecImpl for CourseFile {
    open spec fn obeys_eq_spec() -> bool {
        true
    }

    open spec fn eq_spec(&self, other: &Self) -> bool {
        self@.identity() == other@.identity()
    }
}

/// Which kinds of newly found resources are requested for download at once.
#[derive(Debug, Clone, Copy, PartialEq, Eq, Structural)]
pub enum AutoDownloadMode {
    Disabled,
    Videos,
    Documents,
    All,
}

/// The site family a course belongs to.
#[derive(Debug, Clone, Copy, PartialEq, Eq, Structural)]
pub enum CourseType {
    Moodle,
    TumLive,
    GenericWebsite,
}

/// One transformation applied to a downloaded video.
#[derive(Debug, Clone, Copy, PartialEq, Eq, Structural)]
pub enum PostprocessingStep {
    FfmpegReencode { target_fps: u32 },
}

/// A point in time, as seconds and nanoseconds since the Unix epoch.
#[derive(Debug, Clone, Copy, PartialEq, Eq, Structural)]
pub struct Timestamp {
    pub seconds: i64,
    pub nanoseconds: u32,
}

/// Where a resource stands on its way to local storage.
///
/// A record moves `NotRequested`, `Requested`, `Running`, then either `Completed`
/// or `PostprocessingPending` followed by `Completed`. A requested or
/// running download that goes wrong ends in `Failed`.
#[derive(Debug, Clone, PartialEq)]
pub enum DownloadState {
    NotRequested,
    Requested,
    Running(PathBuf),
    PostprocessingPending(PathBuf),
    Completed(PathBuf),
    Failed,
}

impl DownloadState {
    /// Position of a state along the download life cycle. `Failed` ranks
    /// last: nothing follows it.
    pub open spec fn rank(self) -> nat {
        match self {
            DownloadState::NotRequested => 0,
            DownloadState::Requested => 1,
            DownloadState::Running(_) => 2,
            DownloadState::PostprocessingPending(_) => 3,
            DownloadState::Completed(_) => 4,
            DownloadState::Failed => 5,
        }
    }

    /// A requested or running download: the states from which a failure
    /// can be recorded.
    pub open spec fn in_flight(self) -> bool {
        self is Requested || self is Running
    }

    /// The single transitions of the life cycle.
    pub open spec fn steps_to(self, next: DownloadState) -> bool {
        match (self, next) {
            (DownloadState::NotRequested, DownloadState::Requested) => true,
            (DownloadState::Requested, DownloadState::Running(_)) => true,
            (DownloadState::Running(p), DownloadState::PostprocessingPending(q)) => p == q,
            (DownloadState::Running(p), DownloadState::Completed(q)) => p == q,
            (DownloadState::PostprocessingPending(p), DownloadState::Completed(q)) => p == q,
            (DownloadState::Requested, DownloadState::Failed) => true,
            (DownloadState::Running(_), DownloadState::Failed) => true,
            _ => false,
        }
    }

    /// Either nothing happened or one transition of the life cycle did.
    pub open spec fn advances_to(self, next: DownloadState) -> bool {
        self == next || self.steps_to(next)
    }

    pub fn is_requested(&self) -> (requested: bool)
        ensures
            requested == (*self is Requested),
    {
        match self {
            DownloadState::Requested => true,
            _ => false,
        }
    }
}

/// A resource of a course together with what is known of its download.
#[derive(Debug, Clone)]
pub struct CourseFileDownload<T> {
    pub file: T,
    pub available: bool,
    pub download_state: DownloadState,
    pub discovery_time: Timestamp,
    pub download_time: Option<Timestamp>,
}

/// Mathematical model of a record of a [`CourseFile`].
pub ghost struct RecordView {
    pub file: CourseFileView,
    pub available: bool,
    pub download_state: DownloadState,
    pub discovery_time: Timestamp,
    pub download_time: Option<Timestamp>,
}

impl View for CourseFileDownload<CourseFile> {
    type V = RecordView;

    open spec fn view(&self) -> RecordView {
        RecordView {
            file: self.file@,
            available: self.available,
            download_state: self.download_state,
            discovery_time: self.discovery_time,
            download_time: self.download_time,
        }
    }
}

/// A course site that is mirrored, with its settings and its records.
#[derive(Debug, Clone)]
pub struct Course {
    pub url: String,
    pub name: String,
    pub course_type: CourseType,
    pub video_download_directory: PathBuf,
    pub file_download_directory: PathBuf,
    pub auto_download_mode: AutoDownloadMode,
    pub files: Vec<CourseFileDownload<CourseFile>>,
    pub max_keep_days_videos: Option<i32>,
    pub max_keep_videos: Option<i32>,
    pub video_post_processing_steps: Vec<PostprocessingStep>,
    pub max_subpage_depth: i32,
}

impl Course {
    /// Whether two courses differ at most in their records.
    pub open spec fn same_settings(self, other: Course) -> bool {
        &&& self.url == other.url
        &&& self.name == other.name
        &&& self.course_type == other.course_type
        &&& self.video_download_directory == other.video_download_directory
        &&& self.file_download_directory == other.file_download_directory
        &&& self.auto_download_mode == other.auto_download_mode
        &&& self.max_keep_days_videos == other.max_keep_days_videos
        &&& self.max_keep_videos == other.max_keep_videos
        &&& self.video_post_processing_steps == other.video_post_processing_steps
        &&& self.max_subpage_depth == other.max_subpage_depth
    }

    pub open spec fn spec_auto_download_videos_enabled(&self) -> bool {
        self.auto_download_mode == AutoDownloadMode::Videos || self.auto_download_mode
            == AutoDownloadMode::All
    }

    pub open spec fn spec_auto_download_documents_enabled(&self) -> bool {
        self.auto_download_mode == AutoDownloadMode::Documents || self.auto_download_mode
            == AutoDownloadMode::All
    }

    #[verifier::when_used_as_spec(spec_auto_download_videos_enabled)]
    pub fn auto_download_videos_enabled(&self) -> (enabled: bool)
        ensures
            enabled == self.spec_auto_download_videos_enabled(),
    {
        match self.auto_download_mode {
            AutoDownloadMode::Videos | AutoDownloadMode::All => true,
            _ => false,
        }
    }

    #[verifier::when_used_as_spec(spec_auto_download_documents_enabled)]
    pub fn auto_download_documents_enabled(&self) -> (enabled: bool)
        ensures
            enabled == self.spec_auto_download_documents_enabled(),
    {
        match self.auto_download_mode {
            AutoDownloadMode::Documents | AutoDownloadMode::All => true,
            _ => false,
        }
    }


    /// Puts every record of the course back into the state in which
    /// nothing is requested, whatever state it was in. This is how a run
    /// that only discovers keeps anything from being downloaded.
    pub fn reset_download_states(&mut self)
        ensures
            final(self).same_settings(*old(self)),
            final(self).files@.len() == old(self).files@.len(),
            forall|k: int|
                0 <= k < old(self).files@.len() ==> {
                    let before = old(self).files@[k];
                    let after = #[trigger] final(self).files@[k];
                    &&& after.download_state == DownloadState::NotRequested
                    &&& after.file == before.file
                    &&& after.available == before.available
                    &&& after.discovery_time == before.discovery_time
                    &&& after.download_time == before.download_time
                },
    {
        let records: usize = self.files.len();
        let mut k: usize = 0;
        while k < records
            invariant
                k <= records,
                records == old(self).files@.len(),
                self.files@.len() == records,
                self.same_settings(*old(self)),
                forall|t: int|
                    0 <= t < k ==> {
                        let before = old(self).files@[t];
                        let after = #[trigger] self.files@[t];
                        &&& after.download_state == DownloadState::NotRequested
                        &&& after.file == before.file
                        &&& after.available == before.available
                        &&& after.discovery_time == before.discovery_time
                        &&& after.download_time == before.download_time
                    },
                forall|t: int| k <= t < records ==> #[trigger] self.files@[t] == old(self).files@[t],
            decreases records - k,
        {
            self.files[k].download_state = DownloadState::NotRequested;
            k = k + 1;
        }
    }
}

/// Whether `(i, j)` names a record: record `j` of course `i`.
pub open spec fn is_position(courses: Seq<Course>, i: int, j: int) -> bool {
    0 <= i < courses.len() && 0 <= j < courses[i].files@.len()
}

/// Whether position `(i, j)` comes before position `(k, l)` when the
/// records are walked course by course.
pub open spec fn precedes(i: int, j: int, k: int, l: int) -> bool {
    i < k || (i == k && j < l)
}

/// Whether `after` is `before` with at most record `j` of course `i`
/// replaced: the same courses with the same settings and as many records
/// each, and every other record as it was.
pub open spec fn same_but_record(before: Seq<Course>, after: Seq<Course>, i: int, j: int) -> bool {
    &&& after.len() == before.len()
    &&& forall|a: int|
        0 <= a < before.len() ==> (#[trigger] after[a]).same_settings(before[a])
            && after[a].files@.len() == before[a].files@.len()
    &&& forall|a: int, b: int|
        is_position(before, a, b) && !(a == i && b == j) ==> #[trigger] after[a].files@[b]
            == before[a].files@[b]
}

/// Whether two records differ at most in their download state and
/// download time.
pub open spec fn same_but_download(
    before: CourseFileDownload<CourseFile>,
    after: CourseFileDownload<CourseFile>,
) -> bool {
    &&& after.file == before.file
    &&& after.available == before.available
    &&& after.discovery_time == before.discovery_time
}

/// Whether every record of `before` is found in `after` in the download
/// state it had or one transition further along its life cycle.
pub open spec fn states_advance(before: Seq<Course>, after: Seq<Course>) -> bool {
    forall|a: int, b: int|
        is_position(before, a, b) ==> before[a].files@[b].download_state.advances_to(
            (#[trigger] after[a].files@[b]).download_state,
        )
}

/// Whether each state of `states` is the one before it or one transition
/// further: what a record goes through over any number of runs.
pub open spec fn is_history(states: Seq<DownloadState>) -> bool {
    forall|k: int| 0 <= k < states.len() - 1 ==> (#[trigger] states[k]).advances_to(states[k + 1])
}

/// Two resources of the same kind at the same URL have the same identity,
/// whatever their titles, and compare equal.
pub proof fn lemma_identity_ignores_metadata(a: CourseFile, b: CourseFile)
    requires
        a@.resource.kind() == b@.resource.kind(),
        a@.resource.url() == b@.resource.url(),
    ensures
        a@.identity() == b@.identity(),
        PartialEqSpec::eq_spec(&a, &b),
{
}

/// A transition of the life cycle leads strictly forward, keeps the path
/// of the file, and ends in `Failed` only from a requested or running
/// download. Nothing follows `Completed` or `Failed`.
pub proof fn lemma_transitions_lead_forward(from: DownloadState, to: DownloadState)
    requires
        from.steps_to(to),
    ensures
        from.rank() < to.rank(),
        to is Failed ==> from.in_flight(),
        !(from is Completed) && !(from is Failed),
        match (from, to) {
            (DownloadState::Running(p), DownloadState::PostprocessingPending(q)) => p == q,
            (DownloadState::Running(p), DownloadState::Completed(q)) => p == q,
            (DownloadState::PostprocessingPending(p), DownloadState::Completed(q)) => p == q,
            _ => true,
        },
{
}

/// Over any history a state never goes back: a later state never ranks
/// below an earlier one, and what was complete or failed stays so.
pub proof fn lemma_history_never_goes_back(states: Seq<DownloadState>, i: int, j: int)
    requires
        is_history(states),
        0 <= i <= j < states.len(),
    ensures
        states[i].rank() <= states[j].rank(),
        states[i] is Completed || states[i] is Failed ==> states[j] == states[i],
    decreases j - i,
{
    if i < j {
        lemma_history_never_goes_back(states, i, j - 1);
        assert(states[j - 1].advances_to(states[j]));
    }
}

} // verus!
