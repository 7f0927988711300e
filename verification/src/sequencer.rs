//! Page numbers for the files of a media group.
//!
//! The registry keeps, for every group seen so far, the title that its first
//! file gave it and the number of files counted. Each call of
//! [`Sequencer::advance`] counts one file. The method takes the registry by
//! exclusive reference, so the calls on one registry happen one after the
//! other, whatever the order in which their callers arrived.

use crate::path::{file_stem, stem_of};
use vstd::hash_map::StringHashMap;
use vstd::prelude::*;

verus! {

/// The state of one media group: its title and the page number of the file
/// counted last.
#[derive(Debug)]
pub struct MediaGroupEntry {
    pub title: String,
    pub page_number: u32,
}

/// The mathematical value of a [`MediaGroupEntry`].
pub struct MediaGroupEntryView {
    pub title: Seq<char>,
    pub page_number: nat,
}

impl View for MediaGroupEntry {
    type V = MediaGroupEntryView;

    open spec fn view(&self) -> MediaGroupEntryView {
        MediaGroupEntryView { title: self.title@, page_number: self.page_number as nat }
    }
}

/// The value of an optional [`MediaGroupEntry`].
pub open spec fn entry_view(e: Option<MediaGroupEntry>) -> Option<MediaGroupEntryView> {
    match e {
        Some(e) => Some(e@),
        None => None,
    }
}

/// The value of an optional reference to a [`MediaGroupEntry`].
pub open spec fn entry_ref_view(e: Option<&MediaGroupEntry>) -> Option<MediaGroupEntryView> {
    match e {
        Some(e) => Some(e@),
        None => None,
    }
}

/// The greatest page number that a group can reach.
pub open spec fn page_limit() -> nat {
    u32::MAX as nat
}

/// The title that a group gets from its first file: the stem of `fallback`,
/// or the group's identifier where `fallback` has no stem.
pub open spec fn title_for(group_id: Seq<char>, fallback: Seq<char>) -> Seq<char> {
    match stem_of(fallback) {
        Some(stem) => stem,
        None => group_id,
    }
}

/// The page number that `group_id` has reached in `registry`: 0 where the
/// group is unseen.
pub open spec fn page_of(registry: Map<Seq<char>, MediaGroupEntryView>, group_id: Seq<char>) -> nat {
    if registry.contains_key(group_id) {
        registry[group_id].page_number
    } else {
        0
    }
}

/// Whether `group_id` has used up its page numbers.
pub open spec fn exhausted(
    registry: Map<Seq<char>, MediaGroupEntryView>,
    group_id: Seq<char>,
) -> bool {
    page_of(registry, group_id) >= page_limit()
}

/// The state of `group_id` once one more file is counted: the title stays
/// where the group is known and comes from `fallback` where it is not, and
/// the page number goes up by one.
pub open spec fn next_entry(
    registry: Map<Seq<char>, MediaGroupEntryView>,
    group_id: Seq<char>,
    fallback: Seq<char>,
) -> MediaGroupEntryView {
    MediaGroupEntryView {
        title: if registry.contains_key(group_id) {
            registry[group_id].title
        } else {
            title_for(group_id, fallback)
        },
        page_number: page_of(registry, group_id) + 1,
    }
}

/// What one call for `group_id` returns on `registry`.
pub open spec fn advance_result(
    registry: Map<Seq<char>, MediaGroupEntryView>,
    group_id: Seq<char>,
    fallback: Seq<char>,
) -> Option<MediaGroupEntryView> {
    if exhausted(registry, group_id) {
        None
    } else {
        Some(next_entry(registry, group_id, fallback))
    }
}

/// The registry after one call for `group_id`.
pub open spec fn advanced(
    registry: Map<Seq<char>, MediaGroupEntryView>,
    group_id: Seq<char>,
    fallback: Seq<char>,
) -> Map<Seq<char>, MediaGroupEntryView> {
    if exhausted(registry, group_id) {
        registry
    } else {
        registry.insert(group_id, next_entry(registry, group_id, fallback))
    }
}

/// The registry of media groups. Entries are never removed.
pub struct Sequencer {
    groups: StringHashMap<MediaGroupEntry>,
}

impl View for Sequencer {
    type V = Map<Seq<char>, MediaGroupEntryView>;

    closed spec fn view(&self) -> Map<Seq<char>, MediaGroupEntryView> {
        self.groups@.map_values(|e: MediaGroupEntry| e@)
    }
}

impl Sequencer {
    /// A registry that has seen no group.
    pub fn new() -> (r: Sequencer)
        ensures
            r@ == Map::<Seq<char>, MediaGroupEntryView>::empty(),
    {
        let r = Sequencer { groups: StringHashMap::new() };
        assert(r@ =~= Map::<Seq<char>, MediaGroupEntryView>::empty());
        r
    }

    /// The page number that `group_id` has reached, if the group was seen.
    pub fn page_number(&self, group_id: &str) -> (r: Option<u32>)
        ensures
            r is Some <==> self@.contains_key(group_id@),
            r matches Some(n) ==> n == self@[group_id@].page_number,
    {
        match self.groups.get(group_id) {
            Some(e) => Some(e.page_number),
            None => None,
        }
    }

    /// Enters `group_id` with the given state, in place of any state it had.
    pub fn enter(&mut self, group_id: &str, entry: MediaGroupEntry)
        ensures
            final(self)@ == old(self)@.insert(group_id@, entry@),
    {
        self.groups.insert(group_id.to_owned(), entry);
        assert(self@ =~= old(self)@.insert(group_id@, entry@));
    }

    /// Counts one more file of `group_id` and returns the group's title with
    /// the file's page number.
    ///
    /// A group that is unseen is entered first, with page number 0 and with
    /// the stem of `fallback_title_source` for its title, or `group_id` where
    /// that has no stem. The page number then goes up by one, and the new
    /// number is returned. A group whose page number cannot go up any more
    /// gets `None`, and the registry stays as it was.
    pub fn advance(&mut self, group_id: &str, fallback_title_source: &str) -> (r: Option<
        MediaGroupEntry,
    >)
        ensures
            entry_view(r) == advance_result(old(self)@, group_id@, fallback_title_source@),
            final(self)@ == advanced(old(self)@, group_id@, fallback_title_source@),
    {
        let next = match self.groups.get(group_id) {
            Some(e) => {
                if e.page_number == u32::MAX {
                    return None;
                }
                MediaGroupEntry { title: e.title.clone(), page_number: e.page_number + 1 }
            },
            None => {
                let title = match file_stem(fallback_title_source) {
                    Some(stem) => stem,
                    None => group_id.to_owned(),
                };
                MediaGroupEntry { title, page_number: 1 }
            },
        };
        let out = MediaGroupEntry { title: next.title.clone(), page_number: next.page_number };
        self.groups.insert(group_id.to_owned(), next);
        assert(self@ =~= advanced(old(self)@, group_id@, fallback_title_source@));
        Some(out)
    }
}

/// One call of [`Sequencer::advance`]: the group and the source of its title.
pub struct Call {
    pub group_id: Seq<char>,
    pub fallback: Seq<char>,
}

/// The registry after `calls`, made in order on `registry`.
pub open spec fn registry_after(
    registry: Map<Seq<char>, MediaGroupEntryView>,
    calls: Seq<Call>,
) -> Map<Seq<char>, MediaGroupEntryView>
    decreases calls.len(),
{
    if calls.len() == 0 {
        registry
    } else {
        advanced(
            registry_after(registry, calls.drop_last()),
            calls.last().group_id,
            calls.last().fallback,
        )
    }
}

/// What call number `i` of `calls` returns, the calls being made in order on
/// `registry`.
pub open spec fn result_at(
    registry: Map<Seq<char>, MediaGroupEntryView>,
    calls: Seq<Call>,
    i: int,
) -> Option<MediaGroupEntryView> {
    advance_result(registry_after(registry, calls.take(i)), calls[i].group_id, calls[i].fallback)
}

/// How many of `calls` are for `group_id`.
pub open spec fn occurrences(calls: Seq<Call>, group_id: Seq<char>) -> nat
    decreases calls.len(),
{
    if calls.len() == 0 {
        0
    } else {
        occurrences(calls.drop_last(), group_id) + if calls.last().group_id == group_id {
            1nat
        } else {
            0nat
        }
    }
}

/// A part of a run of calls holds no more calls for a group than the whole.
pub proof fn lemma_occurrences_prefix(calls: Seq<Call>, i: int, group_id: Seq<char>)
    requires
        0 <= i <= calls.len(),
    ensures
        occurrences(calls.take(i), group_id) <= occurrences(calls, group_id) <= calls.len(),
        occurrences(calls.take(i), group_id) <= i,
    decreases calls.len(),
{
    if calls.len() == 0 {
        assert(calls.take(i) =~= calls);
    } else if i == calls.len() {
        assert(calls.take(i) =~= calls);
        lemma_occurrences_prefix(calls.drop_last(), i - 1, group_id);
    } else {
        assert(calls.drop_last().take(i) =~= calls.take(i));
        lemma_occurrences_prefix(calls.drop_last(), i, group_id);
    }
}

/// The source of the title in the first of `calls` that is for `group_id`.
pub open spec fn first_fallback(calls: Seq<Call>, group_id: Seq<char>) -> Seq<char>
    decreases calls.len(),
{
    if calls.len() == 0 {
        Seq::empty()
    } else if occurrences(calls.drop_last(), group_id) > 0 {
        first_fallback(calls.drop_last(), group_id)
    } else {
        calls.last().fallback
    }
}

/// The title that `group_id` has once at least one of `calls` was made for
/// it: the one it had in `registry`, or else the one that the first call for
/// it gave.
pub open spec fn title_after(
    registry: Map<Seq<char>, MediaGroupEntryView>,
    calls: Seq<Call>,
    group_id: Seq<char>,
) -> Seq<char> {
    if registry.contains_key(group_id) {
        registry[group_id].title
    } else {
        title_for(group_id, first_fallback(calls, group_id))
    }
}

/// A run of calls takes a group from its page number to that number plus the
/// number of calls made for it, as long as the page numbers last that far,
/// whatever becomes of the other groups. The group's title stays once it is
/// set.
pub proof fn lemma_registry_after(
    registry: Map<Seq<char>, MediaGroupEntryView>,
    calls: Seq<Call>,
    group_id: Seq<char>,
)
    requires
        page_of(registry, group_id) + occurrences(calls, group_id) <= page_limit(),
    ensures
        page_of(registry_after(registry, calls), group_id) == page_of(registry, group_id)
            + occurrences(calls, group_id),
        registry_after(registry, calls).contains_key(group_id) <==> registry.contains_key(group_id)
            || occurrences(calls, group_id) > 0,
        registry_after(registry, calls).contains_key(group_id) ==> registry_after(
            registry,
            calls,
        )[group_id].title == title_after(registry, calls, group_id),
    decreases calls.len(),
{
    if calls.len() > 0 {
        lemma_registry_after(registry, calls.drop_last(), group_id);
    }
}

/// The page number that call number `i` of `calls` returns, if it returns
/// one.
pub open spec fn page_at(
    registry: Map<Seq<char>, MediaGroupEntryView>,
    calls: Seq<Call>,
    i: int,
) -> Option<nat> {
    match result_at(registry, calls, i) {
        Some(e) => Some(e.page_number),
        None => None,
    }
}

/// Whether one of the calls for `group_id` among `calls` returns page number
/// `k`.
pub open spec fn returns_page(
    registry: Map<Seq<char>, MediaGroupEntryView>,
    calls: Seq<Call>,
    group_id: Seq<char>,
    k: nat,
) -> bool {
    exists|i: int|
        0 <= i < calls.len() && calls[i].group_id == group_id && #[trigger] page_at(
            registry,
            calls,
            i,
        ) == Some(k)
}

/// Calls made in any order on a registry get consecutive page numbers group
/// by group: call number `i` returns the page number that its group had at
/// the start plus the number of calls made for that group up to and including
/// this one, together with the group's title, which is the same in every
/// call.
pub proof fn lemma_pages_are_consecutive(
    registry: Map<Seq<char>, MediaGroupEntryView>,
    calls: Seq<Call>,
    i: int,
)
    requires
        0 <= i < calls.len(),
        page_of(registry, calls[i].group_id) + occurrences(calls, calls[i].group_id)
            <= page_limit(),
    ensures
        result_at(registry, calls, i) == Some(
            MediaGroupEntryView {
                title: title_after(registry, calls, calls[i].group_id),
                page_number: page_of(registry, calls[i].group_id) + occurrences(
                    calls.take(i + 1),
                    calls[i].group_id,
                ),
            },
        ),
{
    let g = calls[i].group_id;
    let before = calls.take(i);
    let upto = calls.take(i + 1);
    assert(upto.drop_last() =~= before);
    assert(upto.last() == calls[i]);
    lemma_occurrences_prefix(calls, i, g);
    lemma_occurrences_prefix(calls, i + 1, g);
    lemma_registry_after(registry, before, g);
    lemma_first_fallback_prefix(calls, i + 1, g);
}

/// The first call for a group within a part of a run is the first within the
/// whole.
pub proof fn lemma_first_fallback_prefix(calls: Seq<Call>, i: int, group_id: Seq<char>)
    requires
        0 <= i <= calls.len(),
        occurrences(calls.take(i), group_id) > 0,
    ensures
        first_fallback(calls.take(i), group_id) == first_fallback(calls, group_id),
    decreases calls.len(),
{
    if i == calls.len() {
        assert(calls.take(i) =~= calls);
    } else {
        let head = calls.drop_last();
        assert(head.take(i) =~= calls.take(i));
        lemma_occurrences_prefix(head, i, group_id);
        lemma_first_fallback_prefix(head, i, group_id);
    }
}

/// The calls for a group that is unseen at the start, however they are mixed
/// with calls for other groups, return the page numbers from 1 to their
/// count, each exactly once and in the order of the calls.
pub proof fn lemma_group_pages_cover_range(
    registry: Map<Seq<char>, MediaGroupEntryView>,
    calls: Seq<Call>,
    group_id: Seq<char>,
)
    requires
        !registry.contains_key(group_id),
        occurrences(calls, group_id) <= page_limit(),
    ensures
        forall|i: int|
            0 <= i < calls.len() && calls[i].group_id == group_id ==> (#[trigger] page_at(
                registry,
                calls,
                i,
            )) is Some && 1 <= page_at(registry, calls, i)->0 <= occurrences(calls, group_id),
        forall|i: int, j: int|
            0 <= i < j < calls.len() && calls[i].group_id == group_id && calls[j].group_id
                == group_id ==> (#[trigger] page_at(registry, calls, i))->0 < (#[trigger] page_at(
                registry,
                calls,
                j,
            ))->0,
        forall|k: nat|
            1 <= k <= occurrences(calls, group_id) ==> #[trigger] returns_page(
                registry,
                calls,
                group_id,
                k,
            ),
{
    assert forall|i: int| 0 <= i < calls.len() && calls[i].group_id == group_id implies (
    #[trigger] page_at(registry, calls, i)) is Some && 1 <= page_at(registry, calls, i)->0
        <= occurrences(calls, group_id) by {
        lemma_pages_are_consecutive(registry, calls, i);
        lemma_occurrences_prefix(calls, i + 1, group_id);
        assert(calls.take(i + 1).drop_last() =~= calls.take(i));
    }
    assert forall|i: int, j: int|
        0 <= i < j < calls.len() && calls[i].group_id == group_id && calls[j].group_id
            == group_id implies (#[trigger] page_at(registry, calls, i))->0 < (#[trigger] page_at(
        registry,
        calls,
        j,
    ))->0 by {
        lemma_pages_are_consecutive(registry, calls, i);
        lemma_pages_are_consecutive(registry, calls, j);
        assert(calls.take(j).take(i + 1) =~= calls.take(i + 1));
        lemma_occurrences_prefix(calls.take(j), i + 1, group_id);
        assert(calls.take(j + 1).drop_last() =~= calls.take(j));
    }
    assert forall|k: nat| 1 <= k <= occurrences(calls, group_id) implies #[trigger] returns_page(
        registry,
        calls,
        group_id,
        k,
    ) by {
        let i = lemma_nth_occurrence(calls, group_id, k);
        lemma_pages_are_consecutive(registry, calls, i);
        assert(page_at(registry, calls, i) == Some(k));
    }
}

/// The position of occurrence number `k` of `group_id` in `calls`.
pub proof fn lemma_nth_occurrence(calls: Seq<Call>, group_id: Seq<char>, k: nat) -> (i: int)
    requires
        1 <= k <= occurrences(calls, group_id),
    ensures
        0 <= i < calls.len(),
        calls[i].group_id == group_id,
        occurrences(calls.take(i + 1), group_id) == k,
    decreases calls.len(),
{
    let head = calls.drop_last();
    if calls.last().group_id == group_id && occurrences(calls, group_id) == k {
        assert(calls.take(calls.len() as int) =~= calls);
        calls.len() - 1
    } else {
        let i = lemma_nth_occurrence(head, group_id, k);
        assert(head.take(i + 1) =~= calls.take(i + 1));
        i
    }
}

} // verus!
