//! The name under which a file is stored.
//!
//! The body of the name holds the file's unique identifier as it is, next to
//! what a reader can tell the file by: the title and page number of its media
//! group, or else its caption or the stem of the name its sender gave it. No
//! separator is left in the body, so that the name stays within the directory
//! it is put in.

use crate::path::{
    extension, extension_of, file_name_of, file_stem, has_separator, join, joined,
    lemma_single_component, lemma_stem_and_extension, stem_of, SEPARATOR,
};
use crate::sequencer::{entry_ref_view, MediaGroupEntry, MediaGroupEntryView};
use crate::text::{decimal, push_decimal, str_view};
use vstd::prelude::*;

verus! {

/// The character that takes the place of a separator in the body of a name.
pub const REPLACEMENT: char = '\\';

/// A character of the body once separators are replaced.
pub open spec fn sanitized_char(c: char) -> char {
    if c == SEPARATOR {
        REPLACEMENT
    } else {
        c
    }
}

/// `s` with every separator replaced.
pub open spec fn sanitized(s: Seq<char>) -> Seq<char> {
    Seq::new(s.len(), |i: int| sanitized_char(s[i]))
}

/// The opening of a body that names a media group: `title:[`.
pub open spec fn title_open() -> Seq<char> {
    seq!['t', 'i', 't', 'l', 'e', ':', '[']
}

/// The opening of a body that names no media group: `[`.
pub open spec fn stem_open() -> Seq<char> {
    seq!['[']
}

/// What parts the title or stem from the unique identifier: `]_`.
pub open spec fn id_open() -> Seq<char> {
    seq![']', '_']
}

/// The opening of the page number: `{page:`.
pub open spec fn page_open() -> Seq<char> {
    seq!['{', 'p', 'a', 'g', 'e', ':']
}

/// The closing of the page number: `}`.
pub open spec fn page_close() -> Seq<char> {
    seq!['}']
}

/// What a file without a media group is told by: its caption, else the stem
/// of the name its sender gave it, else nothing.
pub open spec fn stem_source(file_name_hint: Option<Seq<char>>, caption: Option<Seq<char>>) -> Seq<
    char,
> {
    match caption {
        Some(c) => c,
        None => match file_name_hint {
            Some(h) => match stem_of(h) {
                Some(stem) => stem,
                None => Seq::empty(),
            },
            None => Seq::empty(),
        },
    }
}

/// What stands in the body before the unique identifier.
pub open spec fn body_prefix(
    file_name_hint: Option<Seq<char>>,
    caption: Option<Seq<char>>,
    group: Option<MediaGroupEntryView>,
) -> Seq<char> {
    match group {
        Some(g) => title_open() + g.title + id_open(),
        None => stem_open() + stem_source(file_name_hint, caption) + id_open(),
    }
}

/// What stands in the body behind the unique identifier.
pub open spec fn body_suffix(group: Option<MediaGroupEntryView>) -> Seq<char> {
    match group {
        Some(g) => page_open() + decimal(g.page_number) + page_close(),
        None => Seq::empty(),
    }
}

/// The body before separators are replaced.
pub open spec fn raw_body(
    unique_id: Seq<char>,
    file_name_hint: Option<Seq<char>>,
    caption: Option<Seq<char>>,
    group: Option<MediaGroupEntryView>,
) -> Seq<char> {
    body_prefix(file_name_hint, caption, group) + unique_id + body_suffix(group)
}

/// The body of the name: `title:[T]_U{page:N}` for a file of a media group
/// with title `T` and page number `N`, and `[S]_U` for any other file, where
/// `U` is the unique identifier and `S` what [`stem_source`] gives, all with
/// separators replaced.
pub open spec fn resolved_body(
    unique_id: Seq<char>,
    file_name_hint: Option<Seq<char>>,
    caption: Option<Seq<char>>,
    group: Option<MediaGroupEntryView>,
) -> Seq<char> {
    sanitized(raw_body(unique_id, file_name_hint, caption, group))
}

/// The extension of the name: that of the sender's file name where it has
/// one, else `default_ext`.
pub open spec fn resolved_extension(
    file_name_hint: Option<Seq<char>>,
    default_ext: Seq<char>,
) -> Seq<char> {
    match file_name_hint {
        Some(h) => match extension_of(h) {
            Some(e) => e,
            None => default_ext,
        },
        None => default_ext,
    }
}

/// The name under which a file is stored: body and extension.
#[derive(Debug)]
pub struct ResolvedName {
    pub filename_body: String,
    pub extension: String,
}

/// The mathematical value of a [`ResolvedName`].
pub struct ResolvedNameView {
    pub filename_body: Seq<char>,
    pub extension: Seq<char>,
}

impl View for ResolvedName {
    type V = ResolvedNameView;

    open spec fn view(&self) -> ResolvedNameView {
        ResolvedNameView { filename_body: self.filename_body@, extension: self.extension@ }
    }
}

/// The name that [`resolve`] gives.
pub open spec fn resolved(
    unique_id: Seq<char>,
    file_name_hint: Option<Seq<char>>,
    caption: Option<Seq<char>>,
    default_ext: Seq<char>,
    group: Option<MediaGroupEntryView>,
) -> ResolvedNameView {
    ResolvedNameView {
        filename_body: resolved_body(unique_id, file_name_hint, caption, group),
        extension: resolved_extension(file_name_hint, default_ext),
    }
}

impl ResolvedNameView {
    /// Body, dot and extension in one.
    pub open spec fn file_name(self) -> Seq<char> {
        self.filename_body.push('.') + self.extension
    }
}

impl ResolvedName {
    /// The name in one piece: body, a dot, extension.
    pub fn file_name(&self) -> (r: String)
        ensures
            r@ == self@.file_name(),
    {
        let mut out = self.filename_body.clone();
        out.push('.');
        out.append(self.extension.as_str());
        out
    }

    /// The path of the file in `directory`. Where the name is one path
    /// component, the path leads to an entry of `directory` by that name.
    pub fn destination(&self, directory: &str) -> (r: String)
        ensures
            r@ == joined(directory@, self@.file_name()),
            is_segment(self@) ==> file_name_of(r@) == Some(self@.file_name()),
    {
        proof {
            if is_segment(self@) {
                lemma_name_stays_in_directory(directory@, self@);
            }
        }
        let name = self.file_name();
        join(directory, name.as_str())
    }
}

/// Replacing separators leaves none.
pub proof fn lemma_sanitized_has_no_separator(s: Seq<char>)
    ensures
        !has_separator(sanitized(s)),
        sanitized(s).len() == s.len(),
{
    assert forall|i: int| 0 <= i < sanitized(s).len() implies #[trigger] sanitized(s)[i]
        != SEPARATOR by {}
}

/// Replacing separators in a text without any leaves it as it is.
pub proof fn lemma_sanitized_without_separator(s: Seq<char>)
    requires
        !has_separator(s),
    ensures
        sanitized(s) == s,
{
    assert forall|i: int| 0 <= i < s.len() implies sanitized(s)[i] == s[i] by {
        assert(s[i] != SEPARATOR);
    }
    assert(sanitized(s) =~= s);
}

/// Replacing separators goes piece by piece.
pub proof fn lemma_sanitized_concat(a: Seq<char>, b: Seq<char>)
    ensures
        sanitized(a + b) == sanitized(a) + sanitized(b),
{
    assert(sanitized(a + b) =~= sanitized(a) + sanitized(b));
}

/// The body holds the unique identifier, with separators replaced, between a
/// prefix and a suffix that do not depend on it.
pub proof fn lemma_body_parts(
    unique_id: Seq<char>,
    file_name_hint: Option<Seq<char>>,
    caption: Option<Seq<char>>,
    group: Option<MediaGroupEntryView>,
)
    ensures
        resolved_body(unique_id, file_name_hint, caption, group) == sanitized(
            body_prefix(file_name_hint, caption, group),
        ) + sanitized(unique_id) + sanitized(body_suffix(group)),
{
    let prefix = body_prefix(file_name_hint, caption, group);
    lemma_sanitized_concat(prefix + unique_id, body_suffix(group));
    lemma_sanitized_concat(prefix, unique_id);
}

/// Two files whose unique identifiers differ get bodies that differ, all else
/// being equal, unless the identifiers differ only in that one has a
/// separator where the other has its replacement.
pub proof fn lemma_distinct_ids_distinct_bodies(
    unique_id_a: Seq<char>,
    unique_id_b: Seq<char>,
    file_name_hint: Option<Seq<char>>,
    caption: Option<Seq<char>>,
    group: Option<MediaGroupEntryView>,
)
    requires
        unique_id_a != unique_id_b,
        sanitized(unique_id_a) != sanitized(unique_id_b),
    ensures
        resolved_body(unique_id_a, file_name_hint, caption, group) != resolved_body(
            unique_id_b,
            file_name_hint,
            caption,
            group,
        ),
{
    lemma_bodies_equal_iff(unique_id_a, unique_id_b, file_name_hint, caption, group);
}

/// Two files whose unique identifiers differ and hold no separator get bodies
/// that differ, all else being equal.
pub proof fn lemma_distinct_plain_ids_distinct_bodies(
    unique_id_a: Seq<char>,
    unique_id_b: Seq<char>,
    file_name_hint: Option<Seq<char>>,
    caption: Option<Seq<char>>,
    group: Option<MediaGroupEntryView>,
)
    requires
        unique_id_a != unique_id_b,
        !has_separator(unique_id_a),
        !has_separator(unique_id_b),
    ensures
        resolved_body(unique_id_a, file_name_hint, caption, group) != resolved_body(
            unique_id_b,
            file_name_hint,
            caption,
            group,
        ),
{
    lemma_sanitized_without_separator(unique_id_a);
    lemma_sanitized_without_separator(unique_id_b);
    lemma_bodies_equal_iff(unique_id_a, unique_id_b, file_name_hint, caption, group);
}

/// With all else equal, two bodies are equal exactly if the unique
/// identifiers in them are equal once separators are replaced.
pub proof fn lemma_bodies_equal_iff(
    unique_id_a: Seq<char>,
    unique_id_b: Seq<char>,
    file_name_hint: Option<Seq<char>>,
    caption: Option<Seq<char>>,
    group: Option<MediaGroupEntryView>,
)
    ensures
        resolved_body(unique_id_a, file_name_hint, caption, group) == resolved_body(
            unique_id_b,
            file_name_hint,
            caption,
            group,
        ) <==> sanitized(unique_id_a) == sanitized(unique_id_b),
{
    let prefix = sanitized(body_prefix(file_name_hint, caption, group));
    let suffix = sanitized(body_suffix(group));
    let a = sanitized(unique_id_a);
    let b = sanitized(unique_id_b);
    lemma_body_parts(unique_id_a, file_name_hint, caption, group);
    lemma_body_parts(unique_id_b, file_name_hint, caption, group);
    let body_a = prefix + a + suffix;
    let body_b = prefix + b + suffix;
    if body_a == body_b {
        assert(a.len() == b.len()) by {
            assert(body_a.len() == prefix.len() + a.len() + suffix.len());
            assert(body_b.len() == prefix.len() + b.len() + suffix.len());
        }
        assert forall|i: int| 0 <= i < a.len() implies a[i] == b[i] by {
            assert(body_a[prefix.len() + i] == a[i]);
            assert(body_b[prefix.len() + i] == b[i]);
        }
        assert(a =~= b);
    }
}

/// Equal inputs give equal names: the name depends on nothing but the
/// identifier, the hints, the default extension and the group's state.
pub proof fn lemma_resolved_is_a_function(
    unique_id_a: Seq<char>,
    file_name_hint_a: Option<Seq<char>>,
    caption_a: Option<Seq<char>>,
    default_ext_a: Seq<char>,
    group_a: Option<MediaGroupEntryView>,
    unique_id_b: Seq<char>,
    file_name_hint_b: Option<Seq<char>>,
    caption_b: Option<Seq<char>>,
    default_ext_b: Seq<char>,
    group_b: Option<MediaGroupEntryView>,
)
    requires
        unique_id_a == unique_id_b,
        file_name_hint_a == file_name_hint_b,
        caption_a == caption_b,
        default_ext_a == default_ext_b,
        group_a == group_b,
    ensures
        resolved(unique_id_a, file_name_hint_a, caption_a, default_ext_a, group_a) == resolved(
            unique_id_b,
            file_name_hint_b,
            caption_b,
            default_ext_b,
            group_b,
        ),
{
}

/// The body is never empty and holds no separator, and the extension holds
/// one only if the default extension does and is used.
pub proof fn lemma_resolved_is_a_segment(
    unique_id: Seq<char>,
    file_name_hint: Option<Seq<char>>,
    caption: Option<Seq<char>>,
    default_ext: Seq<char>,
    group: Option<MediaGroupEntryView>,
)
    ensures
        resolved_body(unique_id, file_name_hint, caption, group).len() >= 3,
        resolved_body(unique_id, file_name_hint, caption, group)[0] != '.',
        !has_separator(resolved_body(unique_id, file_name_hint, caption, group)),
        !has_separator(default_ext) ==> !has_separator(
            resolved_extension(file_name_hint, default_ext),
        ),
{
    let raw = raw_body(unique_id, file_name_hint, caption, group);
    lemma_sanitized_has_no_separator(raw);
    assert(sanitized(raw)[0] == sanitized_char(raw[0]));
    if let Some(h) = file_name_hint {
        lemma_stem_and_extension(h);
    }
}

/// Whether a name is one path component: its body is not empty, does not
/// start with a dot, and neither body nor extension holds a separator.
pub open spec fn is_segment(name: ResolvedNameView) -> bool {
    &&& name.filename_body.len() > 0
    &&& name.filename_body[0] != '.'
    &&& !has_separator(name.filename_body)
    &&& !has_separator(name.extension)
}

/// Put into any directory, a name of one path component is the file name of
/// the path: it names an entry of that directory and nothing outside it.
pub proof fn lemma_name_stays_in_directory(directory: Seq<char>, name: ResolvedNameView)
    requires
        is_segment(name),
    ensures
        file_name_of(joined(directory, name.file_name())) == Some(name.file_name()),
{
    let n = name.file_name();
    let body = name.filename_body;
    assert forall|i: int| 0 <= i < n.len() implies #[trigger] n[i] != SEPARATOR by {
        if i < body.len() {
            assert(n[i] == body[i]);
        } else if i > body.len() {
            assert(n[i] == name.extension[i - body.len() - 1]);
        }
    }
    assert(n[0] == body[0]);
    if directory.len() == 0 || directory.last() == SEPARATOR {
        lemma_single_component(directory, n);
    } else {
        lemma_single_component(directory.push(SEPARATOR), n);
    }
}

/// `s` with every separator replaced.
pub fn sanitize(s: &str) -> (r: String)
    ensures
        r@ == sanitized(s@),
{
    let mut out = String::new();
    for c in it: s.chars()
        invariant
            it.seq() == s@,
            out@ == sanitized(s@.take(it.index() as int)),
    {
        proof {
            let k = it.index() as int;
            assert(sanitized(s@.take(k + 1)) =~= sanitized(s@.take(k)).push(
                sanitized_char(s@[k]),
            ));
        }
        if c == SEPARATOR {
            out.push(REPLACEMENT);
        } else {
            out.push(c);
        }
    }
    assert(s@.take(s@.len() as int) =~= s@);
    out
}

/// The stem of the sender's file name, or nothing where there is no such
/// name or it has no stem.
fn hint_stem(file_name_hint: Option<&str>) -> (r: String)
    ensures
        r@ == stem_source(str_view(file_name_hint), None),
{
    match file_name_hint {
        Some(h) => match file_stem(h) {
            Some(stem) => stem,
            None => String::new(),
        },
        None => String::new(),
    }
}

/// The body of [`resolve`] before separators are replaced.
fn compose(
    unique_id: &str,
    file_name_hint: Option<&str>,
    caption: Option<&str>,
    group: Option<&MediaGroupEntry>,
) -> (r: String)
    ensures
        r@ == raw_body(
            unique_id@,
            str_view(file_name_hint),
            str_view(caption),
            entry_ref_view(group),
        ),
{
    let mut raw = String::new();
    match group {
        Some(g) => {
            proof {
                reveal_strlit("title:[");
                reveal_strlit("]_");
                reveal_strlit("{page:");
                reveal_strlit("}");
            }
            assert("title:["@ =~= title_open());
            assert("]_"@ =~= id_open());
            assert("{page:"@ =~= page_open());
            assert("}"@ =~= page_close());
            raw.append("title:[");
            raw.append(g.title.as_str());
            raw.append("]_");
            raw.append(unique_id);
            raw.append("{page:");
            push_decimal(&mut raw, g.page_number);
            raw.append("}");
            assert(raw@ =~= raw_body(
                unique_id@,
                str_view(file_name_hint),
                str_view(caption),
                entry_ref_view(group),
            ));
        },
        None => {
            proof {
                reveal_strlit("[");
                reveal_strlit("]_");
            }
            assert("["@ =~= stem_open());
            assert("]_"@ =~= id_open());
            raw.append("[");
            match caption {
                Some(c) => {
                    raw.append(c);
                },
                None => {
                    let stem = hint_stem(file_name_hint);
                    raw.append(stem.as_str());
                },
            }
            raw.append("]_");
            raw.append(unique_id);
            assert(raw@ =~= raw_body(
                unique_id@,
                str_view(file_name_hint),
                str_view(caption),
                entry_ref_view(group),
            ));
        },
    }
    raw
}

/// The name under which to store a file.
///
/// The extension is that of `file_name_hint` where it has one, else
/// `default_ext`. The body is `title:[T]_U{page:N}` where `group` gives title
/// `T` and page number `N`, and `[S]_U` where there is no group; `U` is
/// `unique_id`, and `S` is the caption, else the stem of `file_name_hint`,
/// else empty. Every separator in the body is replaced, so the body holds
/// none. Every input has a name: there is no failure.
pub fn resolve(
    unique_id: &str,
    file_name_hint: Option<&str>,
    caption: Option<&str>,
    default_ext: &str,
    group: Option<&MediaGroupEntry>,
) -> (r: ResolvedName)
    ensures
        r@ == resolved(
            unique_id@,
            str_view(file_name_hint),
            str_view(caption),
            default_ext@,
            entry_ref_view(group),
        ),
        !has_separator(r.filename_body@),
        !has_separator(default_ext@) ==> is_segment(r@),
{
    let ext = match file_name_hint {
        Some(h) => match extension(h) {
            Some(e) => e,
            None => default_ext.to_owned(),
        },
        None => default_ext.to_owned(),
    };
    let raw = compose(unique_id, file_name_hint, caption, group);
    let body = sanitize(raw.as_str());
    proof {
        lemma_resolved_is_a_segment(
            unique_id@,
            str_view(file_name_hint),
            str_view(caption),
            default_ext@,
            entry_ref_view(group),
        );
    }
    ResolvedName { filename_body: body, extension: ext }
}

} // verus!
