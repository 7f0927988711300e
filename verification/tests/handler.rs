use media_ingest::extractor::{FileMeta, MediaPayload};
use media_ingest::handler::{
    is_monitored, plan, start, step, Action, ErrorKind, Event, Failure, Outcome, Plan, Post,
    Stage, TRANSFER_TIMEOUT_SECS,
};
use media_ingest::sequencer::{MediaGroupEntry, Sequencer};

const CHANNEL: i64 = -1001234567890;

fn file(id: &str, unique_id: &str, size: u32) -> FileMeta {
    FileMeta { id: id.to_owned(), unique_id: unique_id.to_owned(), size }
}

fn photo_post(channel_id: i64, group: Option<&str>, caption: Option<&str>) -> Post {
    Post {
        channel_id,
        media_group_id: group.map(|g| g.to_owned()),
        payload: MediaPayload::Photo {
            variants: vec![file("f1", "u1", 100), file("f2", "u2", 500), file("f3", "u3", 300)],
            caption: caption.map(|c| c.to_owned()),
        },
    }
}

fn video_post(group: Option<&str>, file_name: Option<&str>, caption: Option<&str>) -> Post {
    Post {
        channel_id: CHANNEL,
        media_group_id: group.map(|g| g.to_owned()),
        payload: MediaPayload::Video {
            file: file("vf", "vu", 1000),
            file_name: file_name.map(|c| c.to_owned()),
            caption: caption.map(|c| c.to_owned()),
        },
    }
}

fn fetch(p: Plan) -> (String, String, String) {
    match p {
        Plan::Fetch(job) => (job.file_id, job.name.filename_body, job.name.extension),
        other => panic!("no job: {:?}", other),
    }
}

fn run(events: Vec<Event>) -> (Vec<Action>, Stage) {
    let (mut stage, first) = start();
    let mut actions = vec![first];
    for e in events {
        let (next, action) = step(stage, &e);
        stage = next;
        actions.push(action);
    }
    (actions, stage)
}

#[test]
fn post_of_another_channel_is_ignored() {
    let mut s = Sequencer::new();
    let p = plan(CHANNEL, &photo_post(42, Some("g"), Some("Sunset")), &mut s);
    assert!(matches!(p, Plan::Ignore));
    assert_eq!(s.page_number("g"), None);
}

#[test]
fn post_without_media_is_ignored() {
    let mut s = Sequencer::new();
    let post =
        Post { channel_id: CHANNEL, media_group_id: Some("g".to_owned()), payload: MediaPayload::Other };
    assert!(matches!(plan(CHANNEL, &post, &mut s), Plan::Ignore));
    assert_eq!(s.page_number("g"), None);
}

#[test]
fn photo_without_group() {
    let mut s = Sequencer::new();
    let got = fetch(plan(CHANNEL, &photo_post(CHANNEL, None, Some("Sunset")), &mut s));
    assert_eq!(got, ("f2".to_owned(), "[Sunset]_u2".to_owned(), "jpg".to_owned()));
}

#[test]
fn photo_without_group_or_caption() {
    let mut s = Sequencer::new();
    let got = fetch(plan(CHANNEL, &photo_post(CHANNEL, None, None), &mut s));
    assert_eq!(got, ("f2".to_owned(), "[]_u2".to_owned(), "jpg".to_owned()));
}

#[test]
fn video_without_caption_is_named_by_its_file_name() {
    let mut s = Sequencer::new();
    let got = fetch(plan(CHANNEL, &video_post(None, Some("clip.mov"), None), &mut s));
    assert_eq!(got, ("vf".to_owned(), "[clip.mov]_vu".to_owned(), "mov".to_owned()));
}

#[test]
fn video_with_caption_takes_extension_from_its_file_name() {
    let mut s = Sequencer::new();
    let got = fetch(plan(CHANNEL, &video_post(None, Some("clip.mov"), Some("Day 1.")), &mut s));
    assert_eq!(got, ("vf".to_owned(), "[Day 1.]_vu".to_owned(), "mov".to_owned()));
}

#[test]
fn video_without_anything_gets_the_default_extension() {
    let mut s = Sequencer::new();
    let got = fetch(plan(CHANNEL, &video_post(None, None, None), &mut s));
    assert_eq!(got, ("vf".to_owned(), "[]_vu".to_owned(), "mp4".to_owned()));
}

#[test]
fn audio_gets_mp3() {
    let mut s = Sequencer::new();
    let post = Post {
        channel_id: CHANNEL,
        media_group_id: None,
        payload: MediaPayload::Audio { file: file("af", "au", 5), file_name: None, caption: None },
    };
    let got = fetch(plan(CHANNEL, &post, &mut s));
    assert_eq!(got, ("af".to_owned(), "[]_au".to_owned(), "mp3".to_owned()));
}

#[test]
fn grouped_posts_share_the_title_and_count_up() {
    let mut s = Sequencer::new();
    let a = fetch(plan(CHANNEL, &video_post(Some("g"), Some("vacation.mp4"), None), &mut s));
    assert_eq!(a.1, "title:[vacation]_vu{page:1}");
    assert_eq!(a.2, "mp4");
    let b = fetch(plan(CHANNEL, &photo_post(CHANNEL, Some("g"), Some("Second")), &mut s));
    assert_eq!(b.1, "title:[vacation]_u2{page:2}");
    assert_eq!(b.2, "jpg");
    let c = fetch(plan(CHANNEL, &photo_post(CHANNEL, Some("h"), None), &mut s));
    assert_eq!(c.1, "title:[h]_u2{page:1}");
    assert_eq!(s.page_number("g"), Some(2));
    assert_eq!(s.page_number("h"), Some(1));
}

#[test]
fn group_without_room_gives_no_job() {
    let mut s = Sequencer::new();
    s.enter("g", MediaGroupEntry { title: "T".to_owned(), page_number: u32::MAX });
    let p = plan(CHANNEL, &photo_post(CHANNEL, Some("g"), None), &mut s);
    assert!(matches!(p, Plan::Exhausted));
    assert_eq!(s.page_number("g"), Some(u32::MAX));
}

#[test]
fn planned_name_has_no_separator() {
    let mut s = Sequencer::new();
    let post = video_post(Some("a/b"), Some("../../x/y.z"), Some("../../etc/passwd"));
    let (_, body, ext) = fetch(plan(CHANNEL, &post, &mut s));
    assert_eq!(body, "title:[passwd]_vu{page:1}");
    assert_eq!(ext, "z");
    let post = video_post(None, Some("../../x/y.z"), Some("../../etc/passwd"));
    let (_, body, ext) = fetch(plan(CHANNEL, &post, &mut s));
    assert_eq!(body, "[..\\..\\etc\\passwd]_vu");
    assert_eq!(ext, "z");
}

#[test]
fn is_monitored_compares_channels() {
    assert!(is_monitored(CHANNEL, CHANNEL));
    assert!(!is_monitored(CHANNEL, CHANNEL + 1));
    assert!(!is_monitored(CHANNEL, 0));
}

#[test]
fn work_starts_with_the_transfer_path() {
    assert_eq!(start(), (Stage::ResolvingPath, Action::ResolveTransferPath));
}

#[test]
fn remote_file_is_downloaded() {
    let (actions, stage) = run(vec![
        Event::TransferPath("photos/file_1.jpg".to_owned()),
        Event::Completed,
        Event::Completed,
        Event::Completed,
    ]);
    assert_eq!(
        actions,
        vec![
            Action::ResolveTransferPath,
            Action::CreateDirectory,
            Action::CreateFile,
            Action::Download,
            Action::Finish(Outcome::Saved),
        ]
    );
    assert_eq!(stage, Stage::Done(Outcome::Saved));
}

#[test]
fn local_file_is_copied() {
    let (actions, stage) = run(vec![
        Event::TransferPath("/var/lib/telegram-bot-api/photos/file_1.jpg".to_owned()),
        Event::Completed,
        Event::Completed,
        Event::Completed,
    ]);
    assert_eq!(
        actions,
        vec![
            Action::ResolveTransferPath,
            Action::CreateDirectory,
            Action::CreateFile,
            Action::CopyLocal,
            Action::Finish(Outcome::Saved),
        ]
    );
    assert_eq!(stage, Stage::Done(Outcome::Saved));
}

#[test]
fn unresolved_transfer_path_is_reported() {
    let (actions, stage) = run(vec![Event::Failed]);
    let failed = Outcome::Failed(Failure::TransferPath);
    assert_eq!(actions, vec![Action::ResolveTransferPath, Action::Finish(failed)]);
    assert_eq!(stage, Stage::Done(failed));
    assert!(!failed.is_success());
}

#[test]
fn directory_failure_is_reported() {
    let (actions, stage) = run(vec![Event::TransferPath("a/b".to_owned()), Event::Failed]);
    let failed = Outcome::Failed(Failure::Directory);
    assert_eq!(actions[2], Action::Finish(failed));
    assert_eq!(actions.len(), 3);
    assert_eq!(stage, Stage::Done(failed));
    assert!(!failed.is_success());
}

#[test]
fn file_failure_is_reported() {
    let (actions, stage) =
        run(vec![Event::TransferPath("a/b".to_owned()), Event::Completed, Event::Failed]);
    let failed = Outcome::Failed(Failure::File);
    assert_eq!(actions[3], Action::Finish(failed));
    assert_eq!(stage, Stage::Done(failed));
}

#[test]
fn download_failure_is_let_pass() {
    let (actions, stage) = run(vec![
        Event::TransferPath("a/b".to_owned()),
        Event::Completed,
        Event::Completed,
        Event::Failed,
    ]);
    assert_eq!(actions[3], Action::Download);
    assert_eq!(actions[4], Action::Finish(Outcome::TransferDropped));
    assert_eq!(stage, Stage::Done(Outcome::TransferDropped));
    assert!(Outcome::TransferDropped.is_success());
}

#[test]
fn local_copy_failure_is_reported() {
    let (actions, stage) = run(vec![
        Event::TransferPath("/a/b".to_owned()),
        Event::Completed,
        Event::Completed,
        Event::Failed,
    ]);
    let failed = Outcome::Failed(Failure::LocalCopy);
    assert_eq!(actions[3], Action::CopyLocal);
    assert_eq!(actions[4], Action::Finish(failed));
    assert_eq!(stage, Stage::Done(failed));
}

#[test]
fn done_stays_done() {
    let done = Stage::Done(Outcome::TransferDropped);
    for e in [Event::Completed, Event::Failed, Event::TransferPath("/x".to_owned())] {
        assert_eq!(step(done, &e), (done, Action::Finish(Outcome::TransferDropped)));
    }
}

#[test]
fn unawaited_event_counts_as_failure() {
    assert_eq!(
        step(Stage::ResolvingPath, &Event::Completed),
        (
            Stage::Done(Outcome::Failed(Failure::TransferPath)),
            Action::Finish(Outcome::Failed(Failure::TransferPath))
        )
    );
    assert_eq!(
        step(Stage::CreatingDirectory { local: false }, &Event::TransferPath("x".to_owned())),
        (
            Stage::Done(Outcome::Failed(Failure::Directory)),
            Action::Finish(Outcome::Failed(Failure::Directory))
        )
    );
    assert_eq!(
        step(Stage::Downloading, &Event::TransferPath("x".to_owned())),
        (Stage::Done(Outcome::TransferDropped), Action::Finish(Outcome::TransferDropped))
    );
}

#[test]
fn kinds_of_failure() {
    assert_eq!(Failure::TransferPath.kind(), ErrorKind::Transfer);
    assert_eq!(Failure::Directory.kind(), ErrorKind::Filesystem);
    assert_eq!(Failure::File.kind(), ErrorKind::Filesystem);
    assert_eq!(Failure::LocalCopy.kind(), ErrorKind::Filesystem);
}

#[test]
fn saved_is_success() {
    assert!(Outcome::Saved.is_success());
}

#[test]
fn transfer_timeout_is_ten_minutes() {
    assert_eq!(TRANSFER_TIMEOUT_SECS, 600);
}
