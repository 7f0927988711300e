//! What is done with a post, decision by decision.
//!
//! [`plan`] decides whether a post gives a file to persist, and under which
//! name. [`step`] then leads through the work of persisting it: the caller
//! performs the action it is given, reports what came of it as an event, and
//! is given the next action, until the action is to finish.

use crate::extractor::{extract, extracted, InboundMediaView, MediaPayload, MediaPayloadView};
use crate::path::{has_separator, is_absolute, is_absolute_path};
use crate::resolver::{
    is_segment, lemma_resolved_is_a_segment, resolve, resolved, ResolvedName, ResolvedNameView,
};
use crate::sequencer::{advance_result, advanced, MediaGroupEntryView, Sequencer};
use crate::text::{str_view, text_view};
use vstd::prelude::*;

verus! {

/// The time allowed for fetching the bytes of one file, in seconds. A fetch
/// that takes longer counts as failed.
pub const TRANSFER_TIMEOUT_SECS: u64 = 600;

/// Whether a post from `post_channel` is one of the monitored channel.
pub fn is_monitored(channel_id: i64, post_channel: i64) -> (r: bool)
    ensures
        r == (channel_id == post_channel),
{
    channel_id == post_channel
}

/// A post as the platform delivers it.
#[derive(Debug)]
pub struct Post {
    /// The channel that the post was made in.
    pub channel_id: i64,
    /// The media group that the post belongs to, if any.
    pub media_group_id: Option<String>,
    pub payload: MediaPayload,
}

/// The mathematical value of a [`Post`].
pub struct PostView {
    pub channel_id: i64,
    pub media_group_id: Option<Seq<char>>,
    pub payload: MediaPayloadView,
}

impl View for Post {
    type V = PostView;

    open spec fn view(&self) -> PostView {
        PostView {
            channel_id: self.channel_id,
            media_group_id: text_view(self.media_group_id),
            payload: self.payload@,
        }
    }
}

/// A file to fetch and the name to store it under.
#[derive(Debug)]
pub struct Job {
    /// The identifier by which the transport finds the file.
    pub file_id: String,
    pub name: ResolvedName,
}

/// The mathematical value of a [`Job`].
pub struct JobView {
    pub file_id: Seq<char>,
    pub name: ResolvedNameView,
}

impl View for Job {
    type V = JobView;

    open spec fn view(&self) -> JobView {
        JobView { file_id: self.file_id@, name: self.name@ }
    }
}

/// What is to be done with a post.
#[derive(Debug)]
pub enum Plan {
    /// Nothing: the post is of another channel, or holds nothing to persist.
    Ignore,
    /// Nothing: the post's media group has used up its page numbers.
    Exhausted,
    /// The file is to be fetched and stored.
    Fetch(Job),
}

/// The mathematical value of a [`Plan`].
pub enum PlanView {
    Ignore,
    Exhausted,
    Fetch(JobView),
}

impl View for Plan {
    type V = PlanView;

    open spec fn view(&self) -> PlanView {
        match *self {
            Plan::Ignore => PlanView::Ignore,
            Plan::Exhausted => PlanView::Exhausted,
            Plan::Fetch(job) => PlanView::Fetch(job@),
        }
    }
}

/// What gives a media group its title: the caption of its first file, or
/// nothing.
pub open spec fn title_source(media: InboundMediaView) -> Seq<char> {
    match media.caption {
        Some(c) => c,
        None => Seq::empty(),
    }
}

/// The job for a file, `group` being the state of its media group if it has
/// one.
pub open spec fn job_for(media: InboundMediaView, group: Option<MediaGroupEntryView>) -> JobView {
    JobView {
        file_id: media.file_id,
        name: resolved(
            media.unique_id,
            media.file_name,
            media.caption,
            media.kind.spec_default_extension(),
            group,
        ),
    }
}

/// The file that a post gives to persist, if it gives one: none where the
/// post is of another channel than `channel_id`.
pub open spec fn accepted(channel_id: i64, post: PostView) -> Option<InboundMediaView> {
    if post.channel_id == channel_id {
        extracted(post.payload)
    } else {
        None
    }
}

/// What [`plan`] decides for a post, given the registry of media groups.
pub open spec fn planned(
    channel_id: i64,
    post: PostView,
    registry: Map<Seq<char>, MediaGroupEntryView>,
) -> PlanView {
    match accepted(channel_id, post) {
        None => PlanView::Ignore,
        Some(media) => match post.media_group_id {
            None => PlanView::Fetch(job_for(media, None)),
            Some(group_id) => match advance_result(registry, group_id, title_source(media)) {
                None => PlanView::Exhausted,
                Some(entry) => PlanView::Fetch(job_for(media, Some(entry))),
            },
        },
    }
}

/// The registry of media groups once [`plan`] has decided for a post: one
/// file is counted for the post's group where the post gives a file and has a
/// group, and nothing changes otherwise.
pub open spec fn registry_after_plan(
    channel_id: i64,
    post: PostView,
    registry: Map<Seq<char>, MediaGroupEntryView>,
) -> Map<Seq<char>, MediaGroupEntryView> {
    match (accepted(channel_id, post), post.media_group_id) {
        (Some(media), Some(group_id)) => advanced(registry, group_id, title_source(media)),
        _ => registry,
    }
}

/// Every job that is planned has a name of one path component.
pub proof fn lemma_planned_name_is_segment(
    channel_id: i64,
    post: PostView,
    registry: Map<Seq<char>, MediaGroupEntryView>,
)
    ensures
        planned(channel_id, post, registry) matches PlanView::Fetch(job) ==> is_segment(job.name),
{
    if let Some(media) = accepted(channel_id, post) {
        let ext = media.kind.spec_default_extension();
        assert(!has_separator(ext));
        let group = match post.media_group_id {
            None => None,
            Some(group_id) => advance_result(registry, group_id, title_source(media)),
        };
        lemma_resolved_is_a_segment(media.unique_id, media.file_name, media.caption, ext, group);
    }
}

/// A post of another channel than the monitored one is ignored, and leaves
/// the registry of media groups as it was.
pub proof fn lemma_foreign_post_is_ignored(
    channel_id: i64,
    post: PostView,
    registry: Map<Seq<char>, MediaGroupEntryView>,
)
    requires
        post.channel_id != channel_id,
    ensures
        planned(channel_id, post, registry) == PlanView::Ignore,
        registry_after_plan(channel_id, post, registry) == registry,
{
}

fn as_str_option(s: &Option<String>) -> (r: Option<&str>)
    ensures
        str_view(r) == text_view(*s),
{
    match s {
        Some(s) => Some(s.as_str()),
        None => None,
    }
}

/// Decides what is to be done with `post`, `channel_id` being the monitored
/// channel.
///
/// A post of another channel, or one without a photo, a video or an audio
/// track, is ignored. For any other post the file to persist is selected, one
/// file is counted for the post's media group if it has one, and the file is
/// named. Where the group has used up its page numbers nothing is counted
/// and nothing is to be fetched.
pub fn plan(channel_id: i64, post: &Post, sequencer: &mut Sequencer) -> (r: Plan)
    requires
        post.payload.wf(),
    ensures
        r@ == planned(channel_id, post@, old(sequencer)@),
        final(sequencer)@ == registry_after_plan(channel_id, post@, old(sequencer)@),
        post.channel_id != channel_id ==> r is Ignore && final(sequencer)@ == old(sequencer)@,
        r matches Plan::Fetch(job) ==> is_segment(job.name@),
{
    proof {
        lemma_planned_name_is_segment(channel_id, post@, sequencer@);
    }
    if !is_monitored(channel_id, post.channel_id) {
        return Plan::Ignore;
    }
    let media = match extract(&post.payload) {
        Some(media) => media,
        None => {
            return Plan::Ignore;
        },
    };
    let group = match &post.media_group_id {
        Some(group_id) => {
            proof {
                reveal_strlit("");
            }
            assert(""@ =~= Seq::<char>::empty());
            let fallback: &str = match &media.caption {
                Some(c) => c.as_str(),
                None => "",
            };
            match sequencer.advance(group_id.as_str(), fallback) {
                Some(entry) => Some(entry),
                None => {
                    return Plan::Exhausted;
                },
            }
        },
        None => None,
    };
    let name = resolve(
        media.unique_id.as_str(),
        as_str_option(&media.file_name),
        as_str_option(&media.caption),
        media.kind.default_extension(),
        group.as_ref(),
    );
    Plan::Fetch(Job { file_id: media.file_id, name })
}

/// The step at which persisting a file failed.
#[derive(Clone, Copy, Debug, PartialEq, Eq, Structural)]
pub enum Failure {
    /// The transport could not tell where the file is to be fetched from.
    TransferPath,
    /// The directory for the file could not be made.
    Directory,
    /// The file could not be created.
    File,
    /// The file could not be copied from the local path it lies at.
    LocalCopy,
}

/// The kind of fault behind a failure.
#[derive(Clone, Copy, Debug, PartialEq, Eq, Structural)]
pub enum ErrorKind {
    /// A fault of the remote side: passing, and bound to one file.
    Transfer,
    /// A fault of the local file system.
    Filesystem,
}

impl Failure {
    /// The kind of fault behind this failure.
    pub open spec fn spec_kind(self) -> ErrorKind {
        match self {
            Failure::TransferPath => ErrorKind::Transfer,
            Failure::Directory => ErrorKind::Filesystem,
            Failure::File => ErrorKind::Filesystem,
            Failure::LocalCopy => ErrorKind::Filesystem,
        }
    }

    /// The kind of fault behind this failure.
    pub fn kind(self) -> (r: ErrorKind)
        ensures
            r == self.spec_kind(),
    {
        match self {
            Failure::TransferPath => ErrorKind::Transfer,
            Failure::Directory => ErrorKind::Filesystem,
            Failure::File => ErrorKind::Filesystem,
            Failure::LocalCopy => ErrorKind::Filesystem,
        }
    }
}

/// How persisting a file ended.
#[derive(Clone, Copy, Debug, PartialEq, Eq, Structural)]
pub enum Outcome {
    /// The file was stored.
    Saved,
    /// The file was created, but its bytes could not be fetched. The file
    /// stays, empty, and the post counts as handled.
    TransferDropped,
    /// A step failed, and the failure is reported.
    Failed(Failure),
}

impl Outcome {
    /// Whether the post counts as handled without error.
    pub open spec fn spec_is_success(self) -> bool {
        !(self is Failed)
    }

    /// Whether the post counts as handled without error: it does unless a
    /// failure is reported.
    pub fn is_success(self) -> (r: bool)
        ensures
            r == self.spec_is_success(),
    {
        match self {
            Outcome::Failed(_) => false,
            _ => true,
        }
    }
}

/// What is waited for while a file is persisted.
#[derive(Clone, Copy, Debug, PartialEq, Eq, Structural)]
pub enum Stage {
    /// The transfer path of the file.
    ResolvingPath,
    /// The directory that the file goes to; `local` says whether the
    /// transfer path is an absolute path on this machine.
    CreatingDirectory { local: bool },
    /// The empty file.
    CreatingFile { local: bool },
    /// The copy from the absolute local path.
    CopyingLocal,
    /// The bytes from the transport.
    Downloading,
    /// Nothing any more.
    Done(Outcome),
}

/// What came of an action.
#[derive(Debug)]
pub enum Event {
    /// The transport gave the transfer path of the file.
    TransferPath(String),
    /// The action was carried out.
    Completed,
    /// The action failed.
    Failed,
}

/// The mathematical value of an [`Event`].
pub enum EventView {
    TransferPath(Seq<char>),
    Completed,
    Failed,
}

impl View for Event {
    type V = EventView;

    open spec fn view(&self) -> EventView {
        match *self {
            Event::TransferPath(p) => EventView::TransferPath(p@),
            Event::Completed => EventView::Completed,
            Event::Failed => EventView::Failed,
        }
    }
}

/// What the caller is to do next.
#[derive(Clone, Copy, Debug, PartialEq, Eq, Structural)]
pub enum Action {
    /// Ask the transport for the transfer path of the job's file.
    ResolveTransferPath,
    /// Make the directory that files are stored in, unless it is there.
    CreateDirectory,
    /// Create the file under the job's name in that directory.
    CreateFile,
    /// Copy the file at the transfer path, an absolute local path, into the
    /// file created.
    CopyLocal,
    /// Fetch the bytes at the transfer path from the transport into the file
    /// created.
    Download,
    /// Stop, with this outcome.
    Finish(Outcome),
}

/// Where persisting a file ends when the action awaited in `stage` does not
/// come about. A failed download is let pass; every other failure is
/// reported.
pub open spec fn outcome_of_failure(stage: Stage) -> Outcome {
    match stage {
        Stage::ResolvingPath => Outcome::Failed(Failure::TransferPath),
        Stage::CreatingDirectory { .. } => Outcome::Failed(Failure::Directory),
        Stage::CreatingFile { .. } => Outcome::Failed(Failure::File),
        Stage::CopyingLocal => Outcome::Failed(Failure::LocalCopy),
        Stage::Downloading => Outcome::TransferDropped,
        Stage::Done(outcome) => outcome,
    }
}

/// The stage and the action that follow `stage` on `event`.
///
/// Each stage awaits one event: the transfer path while it is resolved, and
/// completion of the action anywhere else. On that event the work goes on:
/// directory, file, then the copy from a transfer path that is absolute or
/// the download from one that is not, then the end. Any other event ends the
/// work as [`outcome_of_failure`] says. Once done, the outcome stays.
pub open spec fn stepped(stage: Stage, event: EventView) -> (Stage, Action) {
    match (stage, event) {
        (Stage::ResolvingPath, EventView::TransferPath(p)) => (
            Stage::CreatingDirectory { local: is_absolute_path(p) },
            Action::CreateDirectory,
        ),
        (Stage::CreatingDirectory { local }, EventView::Completed) => (
            Stage::CreatingFile { local },
            Action::CreateFile,
        ),
        (Stage::CreatingFile { local }, EventView::Completed) => if local {
            (Stage::CopyingLocal, Action::CopyLocal)
        } else {
            (Stage::Downloading, Action::Download)
        },
        (Stage::CopyingLocal, EventView::Completed) => (
            Stage::Done(Outcome::Saved),
            Action::Finish(Outcome::Saved),
        ),
        (Stage::Downloading, EventView::Completed) => (
            Stage::Done(Outcome::Saved),
            Action::Finish(Outcome::Saved),
        ),
        _ => (
            Stage::Done(outcome_of_failure(stage)),
            Action::Finish(outcome_of_failure(stage)),
        ),
    }
}

/// The stage and the action that persisting a file starts with.
pub fn start() -> (r: (Stage, Action))
    ensures
        r == (Stage::ResolvingPath, Action::ResolveTransferPath),
{
    (Stage::ResolvingPath, Action::ResolveTransferPath)
}

fn fail(stage: Stage) -> (r: (Stage, Action))
    ensures
        r == (Stage::Done(outcome_of_failure(stage)), Action::Finish(outcome_of_failure(stage))),
{
    let outcome = match stage {
        Stage::ResolvingPath => Outcome::Failed(Failure::TransferPath),
        Stage::CreatingDirectory { .. } => Outcome::Failed(Failure::Directory),
        Stage::CreatingFile { .. } => Outcome::Failed(Failure::File),
        Stage::CopyingLocal => Outcome::Failed(Failure::LocalCopy),
        Stage::Downloading => Outcome::TransferDropped,
        Stage::Done(outcome) => outcome,
    };
    (Stage::Done(outcome), Action::Finish(outcome))
}

/// The stage and the action that follow `stage` on `event`.
pub fn step(stage: Stage, event: &Event) -> (r: (Stage, Action))
    ensures
        r == stepped(stage, event@),
{
    match stage {
        Stage::ResolvingPath => match event {
            Event::TransferPath(p) => (
                Stage::CreatingDirectory { local: is_absolute(p.as_str()) },
                Action::CreateDirectory,
            ),
            _ => fail(stage),
        },
        Stage::CreatingDirectory { local } => match event {
            Event::Completed => (Stage::CreatingFile { local }, Action::CreateFile),
            _ => fail(stage),
        },
        Stage::CreatingFile { local } => match event {
            Event::Completed => if local {
                (Stage::CopyingLocal, Action::CopyLocal)
            } else {
                (Stage::Downloading, Action::Download)
            },
            _ => fail(stage),
        },
        Stage::CopyingLocal => match event {
            Event::Completed => (Stage::Done(Outcome::Saved), Action::Finish(Outcome::Saved)),
            _ => fail(stage),
        },
        Stage::Downloading => match event {
            Event::Completed => (Stage::Done(Outcome::Saved), Action::Finish(Outcome::Saved)),
            _ => fail(stage),
        },
        Stage::Done(_) => fail(stage),
    }
}

/// How many events a stage is from the end at most.
pub open spec fn steps_left(stage: Stage) -> nat {
    match stage {
        Stage::ResolvingPath => 4,
        Stage::CreatingDirectory { .. } => 3,
        Stage::CreatingFile { .. } => 2,
        Stage::CopyingLocal => 1,
        Stage::Downloading => 1,
        Stage::Done(_) => 0,
    }
}

/// Every event brings the work nearer to its end, and the action is to
/// finish exactly when the work is done, with the outcome it is done with.
pub proof fn lemma_step_progress(stage: Stage, event: EventView)
    ensures
        !(stage is Done) ==> steps_left(stepped(stage, event).0) < steps_left(stage),
        stage is Done ==> stepped(stage, event).0 == stage,
        stepped(stage, event).0 matches Stage::Done(outcome) ==> stepped(stage, event).1
            == Action::Finish(outcome),
        stepped(stage, event).1 is Finish ==> stepped(stage, event).0 is Done,
{
}

/// The stage after `events`, taken in order from `stage`.
pub open spec fn stage_after(stage: Stage, events: Seq<EventView>) -> Stage
    decreases events.len(),
{
    if events.len() == 0 {
        stage
    } else {
        stepped(stage_after(stage, events.drop_last()), events.last()).0
    }
}

/// After four events the work is done, whatever the events were.
pub proof fn lemma_done_after_four(events: Seq<EventView>)
    requires
        events.len() >= 4,
    ensures
        stage_after(Stage::ResolvingPath, events) is Done,
{
    lemma_steps_left_after(Stage::ResolvingPath, events);
}

/// Events use up the steps that are left, one each.
pub proof fn lemma_steps_left_after(stage: Stage, events: Seq<EventView>)
    ensures
        steps_left(stage_after(stage, events)) + events.len() <= steps_left(stage)
            || stage_after(stage, events) is Done,
    decreases events.len(),
{
    if events.len() > 0 {
        lemma_steps_left_after(stage, events.drop_last());
        lemma_step_progress(stage_after(stage, events.drop_last()), events.last());
    }
}

/// A file is stored only if every step came about: the transfer path was
/// given, and directory, file and transfer were completed, in this order.
pub proof fn lemma_saved_only_by_completion(events: Seq<EventView>)
    requires
        events.len() == 4,
    ensures
        stage_after(Stage::ResolvingPath, events) == Stage::Done(Outcome::Saved) <==> (
        events[0] is TransferPath && events[1] is Completed && events[2] is Completed
            && events[3] is Completed),
        stage_after(Stage::ResolvingPath, events) == Stage::Done(Outcome::TransferDropped)
            <==> (events[0] matches EventView::TransferPath(p) && !is_absolute_path(p)
            && events[1] is Completed && events[2] is Completed && !(events[3] is Completed)),
{
    let e0 = events.take(0);
    let e1 = events.take(1);
    let e2 = events.take(2);
    let e3 = events.take(3);
    assert(events.drop_last() =~= e3);
    assert(e3.drop_last() =~= e2);
    assert(e2.drop_last() =~= e1);
    assert(e1.drop_last() =~= e0);
    let s0 = Stage::ResolvingPath;
    let s1 = stepped(s0, events[0]).0;
    let s2 = stepped(s1, events[1]).0;
    let s3 = stepped(s2, events[2]).0;
    assert(stage_after(s0, e0) == s0);
    assert(stage_after(s0, e1) == s1) by {
        assert(e1.last() == events[0]);
    }
    assert(stage_after(s0, e2) == s2) by {
        assert(e2.last() == events[1]);
    }
    assert(stage_after(s0, e3) == s3) by {
        assert(e3.last() == events[2]);
    }
    assert(stage_after(s0, events) == stepped(s3, events[3]).0) by {
        assert(events.last() == events[3]);
    }
}

} // verus!
