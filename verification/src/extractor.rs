//! Selection of the one file to persist from an inbound post.
//!
//! A post carries at most one media payload. A photo comes in several
//! resolutions, of which the largest is kept; a video or an audio track is a
//! single file. Anything else is not persisted.

use crate::text::text_view;
use vstd::prelude::*;

verus! {

/// The kind of media that a persisted file holds.
#[derive(Clone, Copy, Debug, PartialEq, Eq, Structural)]
pub enum MediaKind {
    Photo,
    Video,
    Audio,
}

impl MediaKind {
    /// The extension given to a file of this kind whose name carries none.
    pub open spec fn spec_default_extension(self) -> Seq<char> {
        match self {
            MediaKind::Photo => seq!['j', 'p', 'g'],
            MediaKind::Video => seq!['m', 'p', '4'],
            MediaKind::Audio => seq!['m', 'p', '3'],
        }
    }

    /// The extension given to a file of this kind whose name carries none:
    /// `jpg`, `mp4` or `mp3`.
    pub fn default_extension(self) -> (r: &'static str)
        ensures
            r@ == self.spec_default_extension(),
    {
        match self {
            MediaKind::Photo => {
                proof {
                    reveal_strlit("jpg");
                }
                assert("jpg"@ =~= seq!['j', 'p', 'g']);
                "jpg"
            },
            MediaKind::Video => {
                proof {
                    reveal_strlit("mp4");
                }
                assert("mp4"@ =~= seq!['m', 'p', '4']);
                "mp4"
            },
            MediaKind::Audio => {
                proof {
                    reveal_strlit("mp3");
                }
                assert("mp3"@ =~= seq!['m', 'p', '3']);
                "mp3"
            },
        }
    }
}

/// What the platform tells about one stored file.
#[derive(Debug)]
pub struct FileMeta {
    /// Transient identifier by which the file is retrieved.
    pub id: String,
    /// Stable identifier, unique per file content.
    pub unique_id: String,
    /// Size in bytes.
    pub size: u32,
}

/// The mathematical value of a [`FileMeta`].
pub struct FileMetaView {
    pub id: Seq<char>,
    pub unique_id: Seq<char>,
    pub size: u32,
}

impl View for FileMeta {
    type V = FileMetaView;

    open spec fn view(&self) -> FileMetaView {
        FileMetaView { id: self.id@, unique_id: self.unique_id@, size: self.size }
    }
}

/// The media payload of a post.
#[derive(Debug)]
pub enum MediaPayload {
    /// One picture in several resolutions, in the platform's order.
    Photo { variants: Vec<FileMeta>, caption: Option<String> },
    Video { file: FileMeta, file_name: Option<String>, caption: Option<String> },
    Audio { file: FileMeta, file_name: Option<String>, caption: Option<String> },
    /// Any payload that is not persisted.
    Other,
}

/// The mathematical value of a [`MediaPayload`].
pub enum MediaPayloadView {
    Photo { variants: Seq<FileMetaView>, caption: Option<Seq<char>> },
    Video { file: FileMetaView, file_name: Option<Seq<char>>, caption: Option<Seq<char>> },
    Audio { file: FileMetaView, file_name: Option<Seq<char>>, caption: Option<Seq<char>> },
    Other,
}

impl View for MediaPayload {
    type V = MediaPayloadView;

    open spec fn view(&self) -> MediaPayloadView {
        match *self {
            MediaPayload::Photo { variants, caption } => MediaPayloadView::Photo {
                variants: variants@.map_values(|f: FileMeta| f@),
                caption: text_view(caption),
            },
            MediaPayload::Video { file, file_name, caption } => MediaPayloadView::Video {
                file: file@,
                file_name: text_view(file_name),
                caption: text_view(caption),
            },
            MediaPayload::Audio { file, file_name, caption } => MediaPayloadView::Audio {
                file: file@,
                file_name: text_view(file_name),
                caption: text_view(caption),
            },
            MediaPayload::Other => MediaPayloadView::Other,
        }
    }
}

impl MediaPayload {
    /// A photo has at least one resolution.
    pub open spec fn wf(&self) -> bool {
        self matches MediaPayload::Photo { variants, .. } ==> variants@.len() > 0
    }

    /// Whether the payload can be handed to [`extract`].
    pub fn is_wf(&self) -> (r: bool)
        ensures
            r == self.wf(),
    {
        match self {
            MediaPayload::Photo { variants, .. } => variants.len() > 0,
            _ => true,
        }
    }
}

/// The metadata of the one file that is persisted for a post.
#[derive(Debug)]
pub struct InboundMedia {
    /// Stable identifier, unique per file content.
    pub unique_id: String,
    /// Transient identifier by which the file is retrieved.
    pub file_id: String,
    /// The name that the sender gave the file, if any.
    pub file_name: Option<String>,
    /// The caption, or for a video or an audio track without one the sender's
    /// file name.
    pub caption: Option<String>,
    pub kind: MediaKind,
}

/// The mathematical value of an [`InboundMedia`].
pub struct InboundMediaView {
    pub unique_id: Seq<char>,
    pub file_id: Seq<char>,
    pub file_name: Option<Seq<char>>,
    pub caption: Option<Seq<char>>,
    pub kind: MediaKind,
}

impl View for InboundMedia {
    type V = InboundMediaView;

    open spec fn view(&self) -> InboundMediaView {
        InboundMediaView {
            unique_id: self.unique_id@,
            file_id: self.file_id@,
            file_name: text_view(self.file_name),
            caption: text_view(self.caption),
            kind: self.kind,
        }
    }
}

/// The value of an optional [`InboundMedia`].
pub open spec fn media_view(m: Option<InboundMedia>) -> Option<InboundMediaView> {
    match m {
        Some(m) => Some(m@),
        None => None,
    }
}

/// `i` is the position of the first file of greatest size in `v`.
pub open spec fn is_first_largest(v: Seq<FileMetaView>, i: int) -> bool {
    &&& 0 <= i < v.len()
    &&& forall|j: int| 0 <= j < v.len() ==> (#[trigger] v[j]).size <= v[i].size
    &&& forall|j: int| 0 <= j < i ==> (#[trigger] v[j]).size < v[i].size
}

/// The position of the first file of greatest size in `v`; 0 where `v` is
/// empty.
pub open spec fn largest_index(v: Seq<FileMetaView>) -> int
    decreases v.len(),
{
    if v.len() <= 1 {
        0
    } else {
        let i = largest_index(v.drop_last());
        if v.last().size > v[i].size {
            v.len() - 1
        } else {
            i
        }
    }
}

/// In a sequence that is not empty, [`largest_index`] is the position of the
/// first file of greatest size, and no other position is.
pub proof fn lemma_largest_index(v: Seq<FileMetaView>)
    requires
        v.len() > 0,
    ensures
        is_first_largest(v, largest_index(v)),
        forall|i: int| is_first_largest(v, i) ==> i == largest_index(v),
    decreases v.len(),
{
    if v.len() > 1 {
        let head = v.drop_last();
        lemma_largest_index(head);
        let i = largest_index(head);
        assert(forall|j: int| 0 <= j < head.len() ==> head[j] == v[j]);
        assert(is_first_largest(head, i));
        assert forall|j: int| 0 <= j < v.len() implies (#[trigger] v[j]).size <= v[largest_index(
            v,
        )].size by {
            if j < head.len() {
                assert(head[j].size <= head[i].size);
            }
        }
        assert forall|j: int| 0 <= j < largest_index(v) implies (#[trigger] v[j]).size
            < v[largest_index(v)].size by {
            assert(head[j] == v[j]);
            if largest_index(v) == i {
                assert(head[j].size < head[i].size);
            } else {
                assert(head[j].size <= head[i].size);
            }
        }
    }
    let best = largest_index(v);
    assert forall|i: int| is_first_largest(v, i) implies i == best by {
        if i < best {
            assert(v[i].size < v[best].size);
            assert(v[best].size <= v[i].size);
        } else if best < i {
            assert(v[best].size < v[i].size);
            assert(v[i].size <= v[best].size);
        }
    }
}

/// What [`extract`] selects from a payload.
pub open spec fn extracted(p: MediaPayloadView) -> Option<InboundMediaView> {
    match p {
        MediaPayloadView::Photo { variants, caption } => {
            let file = variants[largest_index(variants)];
            Some(
                InboundMediaView {
                    unique_id: file.unique_id,
                    file_id: file.id,
                    file_name: None,
                    caption,
                    kind: MediaKind::Photo,
                },
            )
        },
        MediaPayloadView::Video { file, file_name, caption } => Some(
            InboundMediaView {
                unique_id: file.unique_id,
                file_id: file.id,
                file_name,
                caption: if caption is Some {
                    caption
                } else {
                    file_name
                },
                kind: MediaKind::Video,
            },
        ),
        MediaPayloadView::Audio { file, file_name, caption } => Some(
            InboundMediaView {
                unique_id: file.unique_id,
                file_id: file.id,
                file_name,
                caption: if caption is Some {
                    caption
                } else {
                    file_name
                },
                kind: MediaKind::Audio,
            },
        ),
        MediaPayloadView::Other => None,
    }
}

/// The position of the resolution to keep: the first of greatest size.
pub fn select_variant(variants: &Vec<FileMeta>) -> (best: usize)
    requires
        variants@.len() > 0,
    ensures
        best == largest_index(variants@.map_values(|f: FileMeta| f@)),
        is_first_largest(variants@.map_values(|f: FileMeta| f@), best as int),
{
    let ghost all = variants@.map_values(|f: FileMeta| f@);
    let mut best: usize = 0;
    let mut k: usize = 1;
    assert(all.take(1).len() == 1);
    while k < variants.len()
        invariant
            1 <= k <= variants@.len(),
            all == variants@.map_values(|f: FileMeta| f@),
            best < k,
            best == largest_index(all.take(k as int)),
        decreases variants@.len() - k,
    {
        proof {
            let next = all.take(k + 1);
            assert(next.drop_last() =~= all.take(k as int));
            assert(next.last() == all[k as int]);
            assert(next[best as int] == all[best as int]);
        }
        if variants[k].size > variants[best].size {
            best = k;
        }
        k += 1;
    }
    proof {
        assert(all.take(k as int) =~= all);
        lemma_largest_index(all);
    }
    best
}

fn copy_text(s: &Option<String>) -> (r: Option<String>)
    ensures
        text_view(r) == text_view(*s),
{
    match s {
        Some(s) => Some(s.clone()),
        None => None,
    }
}

fn caption_or_name(caption: &Option<String>, file_name: &Option<String>) -> (r: Option<String>)
    ensures
        text_view(r) == if text_view(*caption) is Some {
            text_view(*caption)
        } else {
            text_view(*file_name)
        },
{
    match caption {
        Some(c) => Some(c.clone()),
        None => copy_text(file_name),
    }
}

/// Selects the file to persist for a payload: the largest resolution of a
/// photo (the first one among equals), the file of a video or an audio track,
/// and nothing for any other payload. A video or an audio track without a
/// caption is captioned with the sender's file name.
pub fn extract(payload: &MediaPayload) -> (r: Option<InboundMedia>)
    requires
        payload.wf(),
    ensures
        media_view(r) == extracted(payload@),
{
    match payload {
        MediaPayload::Photo { variants, caption } => {
            let best = select_variant(variants);
            let file = &variants[best];
            Some(
                InboundMedia {
                    unique_id: file.unique_id.clone(),
                    file_id: file.id.clone(),
                    file_name: None,
                    caption: copy_text(caption),
                    kind: MediaKind::Photo,
                },
            )
        },
        MediaPayload::Video { file, file_name, caption } => Some(
            InboundMedia {
                unique_id: file.unique_id.clone(),
                file_id: file.id.clone(),
                file_name: copy_text(file_name),
                caption: caption_or_name(caption, file_name),
                kind: MediaKind::Video,
            },
        ),
        MediaPayload::Audio { file, file_name, caption } => Some(
            InboundMedia {
                unique_id: file.unique_id.clone(),
                file_id: file.id.clone(),
                file_name: copy_text(file_name),
                caption: caption_or_name(caption, file_name),
                kind: MediaKind::Audio,
            },
        ),
        MediaPayload::Other => None,
    }
}

} // verus!
