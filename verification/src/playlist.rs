//! The assembler that turns the lines of a playlist into tags, and
//! reconciles the versions that they require.
use vstd::prelude::*;
use crate::error::{invalid, Cause, Error, ErrorView};
use crate::tags::{
    identify_in, spec_identify, spec_kind, spec_parse_as, spec_tag_text, spec_tag_version,
    tag_wf, Tag, TagKind, TagView,
};
use crate::text::{
    find_char, first_index_of, starts_with_at, string_of, string_of_range, to_chars,
};
use crate::types::ProtocolVersion;
use crate::utils::viewed;

verus! {

/// What the assembler does with a line that is no tag it knows, no blank
/// line and no comment.
#[derive(Debug, Clone, Copy, PartialEq, Eq, Structural, Hash)]
pub enum UnknownPolicy {
    /// The line is kept as it is, as an opaque entry of the playlist.
    Preserve,
    /// The line is an error.
    Reject,
}

/// One entry of a playlist: a tag, or a line that was kept as it is.
#[derive(Debug, Clone, PartialEq, Eq)]
pub enum Entry {
    /// A line that was read as a tag.
    Tag(Tag),
    /// A line that is no known tag, kept as it was written.
    Opaque(String),
}

/// The mathematical value of an [`Entry`].
pub enum EntryView {
    /// The value of a tag.
    Tag(TagView),
    /// The text of a line that was kept as it was written.
    Opaque(Seq<char>),
}

impl View for Entry {
    type V = EntryView;

    open spec fn view(&self) -> EntryView {
        match self {
            Entry::Tag(t) => EntryView::Tag(t@),
            Entry::Opaque(s) => EntryView::Opaque(s@),
        }
    }
}

/// The values of a sequence of entries.
pub open spec fn entry_views(entries: Seq<Entry>) -> Seq<EntryView> {
    entries.map_values(|e: Entry| e@)
}

/// The texts of a sequence of strings.
pub open spec fn line_texts(lines: Seq<String>) -> Seq<Seq<char>> {
    lines.map_values(|s: String| s@)
}

/// Whether a line is blank: it holds nothing but spaces and tabs.
pub open spec fn is_blank(line: Seq<char>) -> bool {
    forall|i: int| 0 <= i < line.len() ==> #[trigger] line[i] == ' ' || line[i] == '\t'
}

/// Whether a line is a comment: it begins with `#`, and not with `#EXT`.
pub open spec fn is_comment(line: Seq<char>) -> bool {
    line.len() > 0 && line[0] == '#' && !"#EXT"@.is_prefix_of(line)
}

/// What one line of a playlist gives.
///
/// A line that begins with the prefix of a tag is read as that tag, and
/// gives the tag or its error. Of the other lines, a blank line and a
/// comment give nothing; any other is kept as an opaque entry or
/// refused as an unknown tag, as the policy says.
pub open spec fn spec_read_line(line: Seq<char>, policy: UnknownPolicy) -> Result<
    Option<EntryView>,
    ErrorView,
> {
    match spec_identify(line) {
        Some(kind) => match spec_parse_as(kind, line) {
            Ok(t) => Ok(Some(EntryView::Tag(t))),
            Err(e) => Err(e),
        },
        None => if is_blank(line) || is_comment(line) {
            Ok(None)
        } else if policy == UnknownPolicy::Preserve {
            Ok(Some(EntryView::Opaque(line)))
        } else {
            Err(invalid(line, Cause::UnknownTag))
        },
    }
}

/// Whether one of `entries` is a tag of the given kind.
pub open spec fn has_kind(entries: Seq<EntryView>, kind: TagKind) -> bool {
    exists|i: int|
        0 <= i < entries.len() && (#[trigger] entries[i] matches EntryView::Tag(t) && spec_kind(t)
            == kind)
}

/// What adding an entry to the entries before it gives: the entries with
/// the new one at their end, or, where the new one is a tag of a kind
/// that may occur once and occurs before, an error that names the prefix
/// of that kind.
pub open spec fn spec_add_entry(entries: Seq<EntryView>, entry: EntryView) -> Result<
    Seq<EntryView>,
    ErrorView,
> {
    match entry {
        EntryView::Tag(t) => {
            let kind = spec_kind(t);
            if kind.spec_is_once_only() && has_kind(entries, kind) {
                Err(ErrorView::DuplicateTag { name: kind.spec_prefix() })
            } else {
                Ok(entries.push(entry))
            }
        },
        EntryView::Opaque(_) => Ok(entries.push(entry)),
    }
}

/// What the lines of a playlist give, taken one after the other: the
/// entries in the order of the lines, or the error of the first line
/// that cannot be read or that repeats a tag that may occur once.
pub open spec fn spec_accumulate(lines: Seq<Seq<char>>, policy: UnknownPolicy) -> Result<
    Seq<EntryView>,
    ErrorView,
>
    decreases lines.len(),
{
    if lines.len() == 0 {
        Ok(Seq::empty())
    } else {
        match spec_accumulate(lines.drop_last(), policy) {
            Err(e) => Err(e),
            Ok(entries) => match spec_read_line(lines.last(), policy) {
                Err(e) => Err(e),
                Ok(None) => Ok(entries),
                Ok(Some(entry)) => spec_add_entry(entries, entry),
            },
        }
    }
}

/// The version that an entry requires: that of the tag, and the lowest
/// for an opaque entry.
pub open spec fn spec_entry_version(entry: EntryView) -> ProtocolVersion {
    match entry {
        EntryView::Tag(t) => spec_tag_version(t),
        EntryView::Opaque(_) => ProtocolVersion::V1,
    }
}

/// The version that a sequence of entries requires: the highest that one
/// of them requires, and the lowest where there is none.
pub open spec fn spec_required_version(entries: Seq<EntryView>) -> ProtocolVersion
    decreases entries.len(),
{
    if entries.len() == 0 {
        ProtocolVersion::V1
    } else {
        spec_required_version(entries.drop_last()).spec_higher(
            spec_entry_version(entries.last()),
        )
    }
}

/// The version that a sequence of entries declares: that of its first
/// version tag, if it has one.
pub open spec fn spec_declared_version(entries: Seq<EntryView>) -> Option<ProtocolVersion>
    decreases entries.len(),
{
    if entries.len() == 0 {
        None
    } else {
        match spec_declared_version(entries.drop_last()) {
            Some(v) => Some(v),
            None => match entries.last() {
                EntryView::Tag(TagView::Version(v)) => Some(v),
                _ => None,
            },
        }
    }
}

/// What holding the declared version against the required one gives:
/// nothing where no version is declared or the declared one is at least
/// the required one, and else a mismatch that names both.
pub open spec fn spec_reconcile(entries: Seq<EntryView>) -> Result<(), ErrorView> {
    match spec_declared_version(entries) {
        Some(declared) => if declared.spec_at_least(spec_required_version(entries)) {
            Ok(())
        } else {
            Err(
                ErrorView::VersionMismatch {
                    declared,
                    required: spec_required_version(entries),
                },
            )
        },
        None => Ok(()),
    }
}

/// What the lines of a playlist mean: their entries, where every line
/// can be read, no tag that may occur once occurs twice, and the
/// declared version, if there is one, is at least the required one.
/// An error of a line goes before a mismatch of versions, and of two
/// errors of lines the one of the earlier line decides.
pub open spec fn spec_parse_playlist(lines: Seq<Seq<char>>, policy: UnknownPolicy) -> Result<
    Seq<EntryView>,
    ErrorView,
> {
    match spec_accumulate(lines, policy) {
        Err(e) => Err(e),
        Ok(entries) => match spec_reconcile(entries) {
            Err(e) => Err(e),
            Ok(_) => Ok(entries),
        },
    }
}

/// Decides whether the line `v` is blank.
pub fn is_blank_line(v: &Vec<char>) -> (b: bool)
    ensures
        b == is_blank(v@),
{
    let mut i: usize = 0;
    while i < v.len()
        invariant
            i <= v.len(),
            forall|j: int| 0 <= j < i ==> #[trigger] v@[j] == ' ' || v@[j] == '\t',
        decreases v.len() - i,
    {
        if v[i] != ' ' && v[i] != '\t' {
            return false;
        }
        i += 1;
    }
    true
}

/// Decides whether the line `v` is a comment.
pub fn is_comment_line(v: &Vec<char>) -> (b: bool)
    ensures
        b == is_comment(v@),
{
    if v.len() == 0 || v[0] != '#' {
        return false;
    }
    let stem = to_chars("#EXT");
    !starts_with_at(v, 0, &stem)
}

/// Reads one line of a playlist.
pub fn read_line(line: &str, policy: UnknownPolicy) -> (r: Result<Option<Entry>, Error>)
    ensures
        match r {
            Ok(Some(entry)) => spec_read_line(line@, policy) == Ok::<Option<EntryView>, ErrorView>(
                Some(entry@),
            ) && entry_wf(entry@),
            Ok(None) => spec_read_line(line@, policy) == Ok::<Option<EntryView>, ErrorView>(None),
            Err(e) => spec_read_line(line@, policy) == Err::<Option<EntryView>, ErrorView>(e@),
        },
{
    let v = to_chars(line);
    match identify_in(&v) {
        Some(_) => match Tag::parse_in(&v) {
            Ok(t) => Ok(Some(Entry::Tag(t))),
            Err(e) => Err(e),
        },
        None => if is_blank_line(&v) || is_comment_line(&v) {
            Ok(None)
        } else {
            match policy {
                UnknownPolicy::Preserve => Ok(Some(Entry::Opaque(string_of(&v)))),
                UnknownPolicy::Reject => Err(
                    Error::invalid_input(string_of(&v), Cause::UnknownTag),
                ),
            }
        },
    }
}

/// Whether `entry` is an entry that a playlist can hold: a tag that can
/// be made, or a line that is no tag, no blank line and no comment.
pub open spec fn entry_wf(entry: EntryView) -> bool {
    match entry {
        EntryView::Tag(t) => tag_wf(t),
        EntryView::Opaque(line) => spec_identify(line) is None && !is_blank(line) && !is_comment(
            line,
        ),
    }
}

/// Whether no kind of tag that may occur once occurs twice in `entries`.
pub open spec fn no_duplicates(entries: Seq<EntryView>) -> bool {
    forall|i: int, j: int|
        0 <= i < j < entries.len() ==> !({
            &&& #[trigger] entries[i] matches EntryView::Tag(a)
            &&& #[trigger] entries[j] matches EntryView::Tag(b)
            &&& spec_kind(a) == spec_kind(b)
            &&& spec_kind(a).spec_is_once_only()
        })
}

/// Whether `entries` are those of a valid playlist: each can be held, no
/// tag that may occur once occurs twice, and the declared version, if
/// there is one, is at least the required one.
pub open spec fn playlist_wf(entries: Seq<EntryView>) -> bool {
    &&& forall|i: int| 0 <= i < entries.len() ==> entry_wf(#[trigger] entries[i])
    &&& no_duplicates(entries)
    &&& spec_reconcile(entries) is Ok
}

/// A playlist: the entries of its lines, in the order of the lines.
#[derive(Debug, PartialEq, Eq)]
pub struct Playlist {
    entries: Vec<Entry>,
}

impl View for Playlist {
    type V = Seq<EntryView>;

    closed spec fn view(&self) -> Seq<EntryView> {
        entry_views(self.entries@)
    }
}

/// An error at one line is the error of the whole: where the first `k`
/// lines fail, all the lines fail in the same way.
proof fn lemma_accumulate_error(lines: Seq<Seq<char>>, k: int, policy: UnknownPolicy)
    requires
        0 <= k <= lines.len(),
        spec_accumulate(lines.take(k), policy) is Err,
    ensures
        spec_accumulate(lines, policy) == spec_accumulate(lines.take(k), policy),
    decreases lines.len() - k,
{
    if k == lines.len() {
        assert(lines.take(k) =~= lines);
    } else {
        assert(lines.take(k + 1).drop_last() =~= lines.take(k));
        lemma_accumulate_error(lines, k + 1, policy);
    }
}

/// Decides whether one of `entries` is a tag of the given kind.
fn has_kind_in(entries: &Vec<Entry>, kind: TagKind) -> (b: bool)
    ensures
        b == has_kind(entry_views(entries@), kind),
{
    let ghost views = entry_views(entries@);
    let mut i: usize = 0;
    while i < entries.len()
        invariant
            i <= entries.len(),
            views == entry_views(entries@),
            forall|j: int|
                0 <= j < i ==> !(#[trigger] views[j] matches EntryView::Tag(t) && spec_kind(t)
                    == kind),
        decreases entries.len() - i,
    {
        assert(views[i as int] == entries@[i as int]@);
        match &entries[i] {
            Entry::Tag(t) => {
                if t.kind() == kind {
                    return true;
                }
            },
            Entry::Opaque(_) => {},
        }
        i += 1;
    }
    false
}

/// Adds `entry` at the end of `entries`, unless it is a tag of a kind
/// that may occur once and occurs among them.
fn add_entry(entries: &mut Vec<Entry>, entry: Entry) -> (r: Result<(), Error>)
    requires
        no_duplicates(entry_views(old(entries)@)),
        forall|i: int|
            0 <= i < old(entries)@.len() ==> entry_wf(#[trigger] entry_views(old(entries)@)[i]),
        entry_wf(entry@),
    ensures
        match r {
            Ok(_) => spec_add_entry(entry_views(old(entries)@), entry@) == Ok::<
                Seq<EntryView>,
                ErrorView,
            >(entry_views(final(entries)@)),
            Err(e) => spec_add_entry(entry_views(old(entries)@), entry@) == Err::<
                Seq<EntryView>,
                ErrorView,
            >(e@) && final(entries)@ == old(entries)@,
        },
        no_duplicates(entry_views(final(entries)@)),
        forall|i: int|
            0 <= i < final(entries)@.len() ==> entry_wf(#[trigger] entry_views(final(entries)@)[i]),
{
    let ghost before = entry_views(entries@);
    match &entry {
        Entry::Tag(t) => {
            let kind = t.kind();
            if kind.is_once_only() && has_kind_in(entries, kind) {
                return Err(Error::DuplicateTag { name: kind.prefix().to_owned() });
            }
        },
        Entry::Opaque(_) => {},
    }
    entries.push(entry);
    proof {
        let after = entry_views(entries@);
        assert(after =~= before.push(entry@));
        assert forall|i: int, j: int| 0 <= i < j < after.len() implies !({
            &&& #[trigger] after[i] matches EntryView::Tag(a)
            &&& #[trigger] after[j] matches EntryView::Tag(b)
            &&& spec_kind(a) == spec_kind(b)
            &&& spec_kind(a).spec_is_once_only()
        }) by {
            if j < before.len() {
                assert(after[i] == before[i] && after[j] == before[j]);
            } else {
                assert(after[i] == before[i]);
            }
        }
        assert forall|i: int| 0 <= i < after.len() implies entry_wf(#[trigger] after[i]) by {
            if i < before.len() {
                assert(after[i] == before[i]);
            }
        }
    }
    Ok(())
}

/// Computes the version that `entries` require.
fn required_version_of(entries: &Vec<Entry>) -> (v: ProtocolVersion)
    ensures
        v == spec_required_version(entry_views(entries@)),
{
    let ghost views = entry_views(entries@);
    let mut v = ProtocolVersion::V1;
    let mut i: usize = 0;
    while i < entries.len()
        invariant
            i <= entries.len(),
            views == entry_views(entries@),
            v == spec_required_version(views.take(i as int)),
        decreases entries.len() - i,
    {
        assert(views.take(i + 1).drop_last() =~= views.take(i as int));
        let w = match &entries[i] {
            Entry::Tag(t) => t.requires_version(),
            Entry::Opaque(_) => ProtocolVersion::V1,
        };
        v = v.higher(w);
        i += 1;
    }
    assert(views.take(entries.len() as int) =~= views);
    v
}

/// Finds the version that `entries` declare.
fn declared_version_of(entries: &Vec<Entry>) -> (r: Option<ProtocolVersion>)
    ensures
        r == spec_declared_version(entry_views(entries@)),
{
    let ghost views = entry_views(entries@);
    let mut i: usize = 0;
    while i < entries.len()
        invariant
            i <= entries.len(),
            views == entry_views(entries@),
            spec_declared_version(views.take(i as int)) is None,
        decreases entries.len() - i,
    {
        assert(views.take(i + 1).drop_last() =~= views.take(i as int));
        match &entries[i] {
            Entry::Tag(Tag::Version(t)) => {
                let v = t.version();
                proof {
                    lemma_declared_version_stays(views, i + 1);
                }
                return Some(v);
            },
            _ => {},
        }
        i += 1;
    }
    assert(views.take(entries.len() as int) =~= views);
    None
}

/// The first version that is declared stays the declared version,
/// whatever follows.
proof fn lemma_declared_version_stays(entries: Seq<EntryView>, k: int)
    requires
        0 <= k <= entries.len(),
        spec_declared_version(entries.take(k)) is Some,
    ensures
        spec_declared_version(entries) == spec_declared_version(entries.take(k)),
    decreases entries.len() - k,
{
    if k == entries.len() {
        assert(entries.take(k) =~= entries);
    } else {
        assert(entries.take(k + 1).drop_last() =~= entries.take(k));
        lemma_declared_version_stays(entries, k + 1);
    }
}

/// Holds the version that `entries` declare against the one that they
/// require.
fn reconcile(entries: &Vec<Entry>) -> (r: Result<(), Error>)
    ensures
        crate::utils::plain(r) == spec_reconcile(entry_views(entries@)),
{
    match declared_version_of(entries) {
        Some(declared) => {
            let required = required_version_of(entries);
            if declared.at_least(required) {
                Ok(())
            } else {
                Err(Error::VersionMismatch { declared, required })
            }
        },
        None => Ok(()),
    }
}

impl Playlist {
    /// What holds of every playlist: see [`playlist_wf`].
    #[verifier::type_invariant]
    pub open spec fn wf(&self) -> bool {
        playlist_wf(self@)
    }

    /// Assembles a playlist from its lines.
    ///
    /// Each line is read in turn and its entry, if it gives one, is added
    /// to those before it. The first line that cannot be read, or that
    /// repeats a tag that may occur once, ends the assembly with its
    /// error. When all lines are read, a declared version that is lower
    /// than the required one ends it with a mismatch. No part of a
    /// playlist is returned on an error.
    pub fn parse(lines: &Vec<String>, policy: UnknownPolicy) -> (r: Result<Playlist, Error>)
        ensures
            viewed(r) == spec_parse_playlist(line_texts(lines@), policy),
            r matches Ok(p) ==> p.wf(),
    {
        let ghost texts = line_texts(lines@);
        let mut entries: Vec<Entry> = Vec::new();
        let mut i: usize = 0;
        assert(entry_views(entries@) =~= Seq::<EntryView>::empty());
        while i < lines.len()
            invariant
                i <= lines.len(),
                texts == line_texts(lines@),
                spec_accumulate(texts.take(i as int), policy) == Ok::<Seq<EntryView>, ErrorView>(
                    entry_views(entries@),
                ),
                no_duplicates(entry_views(entries@)),
                forall|j: int|
                    0 <= j < entries@.len() ==> entry_wf(#[trigger] entry_views(entries@)[j]),
            decreases lines.len() - i,
        {
            assert(texts.take(i + 1).drop_last() =~= texts.take(i as int));
            match read_line(lines[i].as_str(), policy) {
                Err(e) => {
                    proof {
                        lemma_accumulate_error(texts, i + 1, policy);
                    }
                    return Err(e);
                },
                Ok(None) => {},
                Ok(Some(entry)) => match add_entry(&mut entries, entry) {
                    Err(e) => {
                        proof {
                            lemma_accumulate_error(texts, i + 1, policy);
                        }
                        return Err(e);
                    },
                    Ok(_) => {},
                },
            }
            i += 1;
        }
        assert(texts.take(lines.len() as int) =~= texts);
        match reconcile(&entries) {
            Err(e) => Err(e),
            Ok(_) => Ok(Playlist { entries }),
        }
    }

    /// Assembles a playlist from tags that were made by the caller.
    ///
    /// The tags are added one after the other. The first that repeats a
    /// tag that may occur once ends the assembly with its error; when all
    /// are added, a declared version that is lower than the required one
    /// ends it with a mismatch.
    pub fn from_tags(tags: Vec<Tag>) -> (r: Result<Playlist, Error>)
        ensures
            viewed(r) == spec_from_tags(tag_views(tags@)),
            r matches Ok(p) ==> p.wf(),
    {
        let ghost views = tag_views(tags@);
        let mut entries: Vec<Entry> = Vec::new();
        let mut i: usize = 0;
        assert(entry_views(entries@) =~= Seq::<EntryView>::empty());
        while i < tags.len()
            invariant
                i <= tags.len(),
                views == tag_views(tags@),
                spec_collect(views.take(i as int)) == Ok::<Seq<EntryView>, ErrorView>(
                    entry_views(entries@),
                ),
                no_duplicates(entry_views(entries@)),
                forall|j: int|
                    0 <= j < entries@.len() ==> entry_wf(#[trigger] entry_views(entries@)[j]),
            decreases tags.len() - i,
        {
            assert(views.take(i + 1).drop_last() =~= views.take(i as int));
            let tag = tags[i].clone();
            let _ = tag.kind();
            match add_entry(&mut entries, Entry::Tag(tag)) {
                Err(e) => {
                    proof {
                        lemma_collect_error(views, i + 1);
                    }
                    return Err(e);
                },
                Ok(_) => {},
            }
            i += 1;
        }
        assert(views.take(tags.len() as int) =~= views);
        match reconcile(&entries) {
            Err(e) => Err(e),
            Ok(_) => Ok(Playlist { entries }),
        }
    }

    /// Returns the lines of the playlist: the text of each entry, in
    /// order. Assembling a playlist from these lines gives this
    /// playlist back, under the policy that keeps unknown lines.
    pub fn to_lines(&self) -> (lines: Vec<String>)
        ensures
            line_texts(lines@) == spec_playlist_lines(self@),
            spec_parse_playlist(line_texts(lines@), UnknownPolicy::Preserve) == Ok::<
                Seq<EntryView>,
                ErrorView,
            >(self@),
    {
        proof {
            use_type_invariant(self);
            lemma_playlist_round_trip(self@, UnknownPolicy::Preserve);
        }
        let mut lines: Vec<String> = Vec::new();
        let mut i: usize = 0;
        while i < self.entries.len()
            invariant
                i <= self.entries.len(),
                lines@.len() == i,
                forall|j: int|
                    0 <= j < i ==> (#[trigger] lines@[j])@ == spec_entry_text(self.entries@[j]@),
            decreases self.entries.len() - i,
        {
            let line = match &self.entries[i] {
                Entry::Tag(t) => t.to_string(),
                Entry::Opaque(s) => s.clone(),
            };
            lines.push(line);
            i += 1;
        }
        assert(line_texts(lines@) =~= spec_playlist_lines(self@));
        lines
    }

    /// Returns the tags of the playlist, in the order of the lines.
    pub fn tags(&self) -> (tags: Vec<Tag>)
        ensures
            tag_views(tags@) == spec_tags(self@),
    {
        let ghost views = entry_views(self.entries@);
        let mut tags: Vec<Tag> = Vec::new();
        let mut i: usize = 0;
        assert(tag_views(tags@) =~= spec_tags(views.take(0)));
        while i < self.entries.len()
            invariant
                i <= self.entries.len(),
                views == entry_views(self.entries@),
                tag_views(tags@) == spec_tags(views.take(i as int)),
            decreases self.entries.len() - i,
        {
            let ghost before = tag_views(tags@);
            assert(views.take(i + 1).drop_last() =~= views.take(i as int));
            assert(views.take(i + 1).last() == self.entries@[i as int]@);
            match &self.entries[i] {
                Entry::Tag(t) => {
                    tags.push(t.clone());
                    assert(tag_views(tags@) =~= before.push(t@));
                },
                Entry::Opaque(_) => {},
            }
            i += 1;
        }
        assert(views.take(self.entries.len() as int) =~= views);
        tags
    }

    /// Returns the number of entries.
    pub fn len(&self) -> (n: usize)
        ensures
            n == self@.len(),
    {
        self.entries.len()
    }

    /// Returns the entry at `index`, in the order of the lines, or `None`
    /// where the playlist has no such index.
    pub fn entry(&self, index: usize) -> (r: Option<&Entry>)
        ensures
            match r {
                Some(e) => index < self@.len() && e@ == self@[index as int],
                None => index >= self@.len(),
            },
    {
        if index < self.entries.len() {
            Some(&self.entries[index])
        } else {
            None
        }
    }

    /// Returns the lowest protocol compatibility version with which the
    /// playlist can be used: the highest that one of its tags requires.
    /// It is computed anew at each call.
    pub fn requires_version(&self) -> (v: ProtocolVersion)
        ensures
            v == spec_required_version(self@),
            spec_declared_version(self@) matches Some(declared) ==> declared.spec_at_least(v),
    {
        proof {
            use_type_invariant(self);
        }
        required_version_of(&self.entries)
    }

    /// Returns the version that the playlist declares, if it declares
    /// one.
    pub fn declared_version(&self) -> (r: Option<ProtocolVersion>)
        ensures
            r == spec_declared_version(self@),
    {
        declared_version_of(&self.entries)
    }
}

/// Assembles a playlist from its lines, keeping each line that is no
/// known tag, no blank line and no comment as an opaque entry.
pub fn parse_playlist(lines: &Vec<String>) -> (r: Result<Playlist, Error>)
    ensures
        viewed(r) == spec_parse_playlist(line_texts(lines@), UnknownPolicy::Preserve),
        r matches Ok(p) ==> p.wf(),
{
    Playlist::parse(lines, UnknownPolicy::Preserve)
}

/// The tags among a sequence of entries, in their order.
pub open spec fn spec_tags(entries: Seq<EntryView>) -> Seq<TagView>
    decreases entries.len(),
{
    if entries.len() == 0 {
        Seq::empty()
    } else {
        match entries.last() {
            EntryView::Tag(t) => spec_tags(entries.drop_last()).push(t),
            EntryView::Opaque(_) => spec_tags(entries.drop_last()),
        }
    }
}

/// The values of a sequence of tags.
pub open spec fn tag_views(tags: Seq<Tag>) -> Seq<TagView> {
    tags.map_values(|t: Tag| t@)
}

/// What adding tags one after the other gives: the tags as entries, or
/// the error of the first that repeats a tag that may occur once.
pub open spec fn spec_collect(tags: Seq<TagView>) -> Result<Seq<EntryView>, ErrorView>
    decreases tags.len(),
{
    if tags.len() == 0 {
        Ok(Seq::empty())
    } else {
        match spec_collect(tags.drop_last()) {
            Err(e) => Err(e),
            Ok(entries) => spec_add_entry(entries, EntryView::Tag(tags.last())),
        }
    }
}

/// What tags mean as a playlist: their entries, where no tag that may
/// occur once occurs twice and the declared version, if there is one, is
/// at least the required one.
pub open spec fn spec_from_tags(tags: Seq<TagView>) -> Result<Seq<EntryView>, ErrorView> {
    match spec_collect(tags) {
        Err(e) => Err(e),
        Ok(entries) => match spec_reconcile(entries) {
            Err(e) => Err(e),
            Ok(_) => Ok(entries),
        },
    }
}

/// An error at one tag is the error of the whole.
proof fn lemma_collect_error(tags: Seq<TagView>, k: int)
    requires
        0 <= k <= tags.len(),
        spec_collect(tags.take(k)) is Err,
    ensures
        spec_collect(tags) == spec_collect(tags.take(k)),
    decreases tags.len() - k,
{
    if k == tags.len() {
        assert(tags.take(k) =~= tags);
    } else {
        assert(tags.take(k + 1).drop_last() =~= tags.take(k));
        lemma_collect_error(tags, k + 1);
    }
}

/// The text of an entry: that of the tag, or the line that was kept.
pub open spec fn spec_entry_text(entry: EntryView) -> Seq<char> {
    match entry {
        EntryView::Tag(t) => spec_tag_text(t),
        EntryView::Opaque(line) => line,
    }
}

/// The lines of a playlist: the text of each entry, in order.
pub open spec fn spec_playlist_lines(entries: Seq<EntryView>) -> Seq<Seq<char>> {
    entries.map_values(|e: EntryView| spec_entry_text(e))
}

/// Whether none of `entries` is an opaque entry.
pub open spec fn all_tags(entries: Seq<EntryView>) -> bool {
    forall|i: int| 0 <= i < entries.len() ==> #[trigger] entries[i] is Tag
}

/// The required version is the highest that an entry requires: it is at
/// least the version of each entry, and it is the version of one of
/// them, or the lowest version where there is no entry.
pub proof fn lemma_required_version_is_highest(entries: Seq<EntryView>)
    ensures
        forall|i: int|
            0 <= i < entries.len() ==> spec_required_version(entries).spec_at_least(
                spec_entry_version(#[trigger] entries[i]),
            ),
        entries.len() == 0 ==> spec_required_version(entries) == ProtocolVersion::V1,
        entries.len() > 0 ==> exists|i: int|
            0 <= i < entries.len() && spec_entry_version(#[trigger] entries[i])
                == spec_required_version(entries),
    decreases entries.len(),
{
    if entries.len() > 0 {
        let front = entries.drop_last();
        lemma_required_version_is_highest(front);
        let r = spec_required_version(entries);
        assert forall|i: int| 0 <= i < entries.len() implies r.spec_at_least(
            spec_entry_version(#[trigger] entries[i]),
        ) by {
            if i < front.len() {
                assert(entries[i] == front[i]);
            }
        }
        if front.len() > 0 && r == spec_required_version(front) {
            let i = choose|i: int|
                0 <= i < front.len() && spec_entry_version(#[trigger] front[i])
                    == spec_required_version(front);
        } else {
            ProtocolVersion::lemma_rank_names_version(r, spec_entry_version(entries.last()));
        }
    }
}

/// Reading the lines of the valid entries of a playlist gives the
/// entries back, one after the other.
proof fn lemma_accumulate_lines(entries: Seq<EntryView>, policy: UnknownPolicy)
    requires
        forall|i: int| 0 <= i < entries.len() ==> entry_wf(#[trigger] entries[i]),
        no_duplicates(entries),
        policy == UnknownPolicy::Preserve || all_tags(entries),
    ensures
        spec_accumulate(spec_playlist_lines(entries), policy) == Ok::<Seq<EntryView>, ErrorView>(
            entries,
        ),
    decreases entries.len(),
{
    let lines = spec_playlist_lines(entries);
    if entries.len() == 0 {
        assert(entries =~= Seq::<EntryView>::empty());
    } else {
        let front = entries.drop_last();
        let last = entries.last();
        assert(lines.drop_last() =~= spec_playlist_lines(front));
        assert forall|i: int| 0 <= i < front.len() implies entry_wf(#[trigger] front[i]) by {
            assert(front[i] == entries[i]);
        }
        assert(no_duplicates(front)) by {
            assert forall|i: int, j: int| 0 <= i < j < front.len() implies !({
                &&& #[trigger] front[i] matches EntryView::Tag(a)
                &&& #[trigger] front[j] matches EntryView::Tag(b)
                &&& spec_kind(a) == spec_kind(b)
                &&& spec_kind(a).spec_is_once_only()
            }) by {
                assert(front[i] == entries[i] && front[j] == entries[j]);
            }
        }
        assert(all_tags(entries) ==> all_tags(front)) by {
            if all_tags(entries) {
                assert forall|i: int| 0 <= i < front.len() implies #[trigger] front[i] is Tag by {
                    assert(front[i] == entries[i]);
                }
            }
        }
        lemma_accumulate_lines(front, policy);
        match last {
            EntryView::Tag(t) => {
                crate::tags::lemma_tag_round_trip(t);
                crate::tags::lemma_identify_text(t);
                if spec_kind(t).spec_is_once_only() && has_kind(front, spec_kind(t)) {
                    let i = choose|i: int|
                        0 <= i < front.len() && (#[trigger] front[i] matches EntryView::Tag(a)
                            && spec_kind(a) == spec_kind(t));
                }
            },
            EntryView::Opaque(line) => {
                assert(entries[entries.len() - 1] is Tag || policy == UnknownPolicy::Preserve);
            },
        }
        assert(front.push(last) =~= entries);
    }
}

/// Assembling the lines of a valid playlist gives the playlist back:
/// `parse_playlist(to_lines(p))` is `p`, under the policy that keeps
/// unknown lines, and under the other where the playlist holds tags only.
pub proof fn lemma_playlist_round_trip(entries: Seq<EntryView>, policy: UnknownPolicy)
    requires
        playlist_wf(entries),
        policy == UnknownPolicy::Preserve || all_tags(entries),
    ensures
        spec_parse_playlist(spec_playlist_lines(entries), policy) == Ok::<
            Seq<EntryView>,
            ErrorView,
        >(entries),
{
    lemma_accumulate_lines(entries, policy);
}

/// Where a line ends that stands in `text[..k]`: before a carriage
/// return that is its last character, and else at `k`.
pub open spec fn line_end(text: Seq<char>, k: int) -> int {
    if k > 0 && text[k - 1] == '\r' {
        k - 1
    } else {
        k
    }
}

/// The lines of a text. A line ends at a line feed, or at the end of the
/// text; a carriage return before the line feed, or at the end of the
/// text, is no part of the line. A text that ends with a line feed has
/// no empty line after it, and the empty text has no line.
pub open spec fn spec_split_lines(text: Seq<char>) -> Seq<Seq<char>>
    decreases text.len(),
{
    if text.len() == 0 {
        Seq::empty()
    } else {
        let k = first_index_of(text, '\n');
        let line = text.take(line_end(text, k));
        if 0 <= k < text.len() {
            seq![line] + spec_split_lines(text.skip(k + 1))
        } else {
            seq![line]
        }
    }
}

/// Splits a text into its lines.
pub fn split_lines(text: &str) -> (lines: Vec<String>)
    ensures
        line_texts(lines@) == spec_split_lines(text@),
{
    let v = to_chars(text);
    let mut lines: Vec<String> = Vec::new();
    let mut pos: usize = 0;
    assert(v@.skip(0) =~= v@);
    while pos < v.len()
        invariant
            pos <= v.len(),
            v@ == text@,
            spec_split_lines(text@) == line_texts(lines@) + spec_split_lines(v@.skip(pos as int)),
        decreases v.len() - pos,
    {
        let ghost rest = v@.skip(pos as int);
        let ghost before = line_texts(lines@);
        let k = find_char(&v, pos, v.len(), '\n');
        let end: usize = if k > pos && v[k - 1] == '\r' {
            k - 1
        } else {
            k
        };
        assert(end - pos == line_end(rest, k - pos)) by {
            if k > pos {
                assert(rest[k - pos - 1] == v@[k - 1]);
            }
        }
        let line = string_of_range(&v, pos, end);
        assert(line@ =~= rest.take(end - pos));
        lines.push(line);
        if k < v.len() {
            assert(rest.skip(k - pos + 1) =~= v@.skip(k + 1));
            assert(before + (seq![line@] + spec_split_lines(v@.skip(k + 1))) =~= before.push(line@)
                + spec_split_lines(v@.skip(k + 1)));
            pos = k + 1;
        } else {
            assert(before + seq![line@] =~= before.push(line@) + spec_split_lines(
                v@.skip(v.len() as int),
            ));
            pos = v.len();
        }
    }
    lines
}

/// Assembles a playlist from a text: the text is split into its lines,
/// and the lines are assembled as `Playlist::parse` says.
pub fn parse_playlist_text(text: &str, policy: UnknownPolicy) -> (r: Result<Playlist, Error>)
    ensures
        viewed(r) == spec_parse_playlist(spec_split_lines(text@), policy),
        r matches Ok(p) ==> p.wf(),
{
    let lines = split_lines(text);
    Playlist::parse(&lines, policy)
}

/// Adding an entry keeps a sequence of entries free of repeated tags and
/// made of entries that a playlist can hold.
proof fn lemma_add_entry_keeps_valid(entries: Seq<EntryView>, entry: EntryView)
    requires
        no_duplicates(entries),
        forall|i: int| 0 <= i < entries.len() ==> entry_wf(#[trigger] entries[i]),
        entry_wf(entry),
    ensures
        spec_add_entry(entries, entry) matches Ok(next) ==> no_duplicates(next) && forall|i: int|
            0 <= i < next.len() ==> entry_wf(#[trigger] next[i]),
{
    if let Ok(next) = spec_add_entry(entries, entry) {
        assert forall|i: int, j: int| 0 <= i < j < next.len() implies !({
            &&& #[trigger] next[i] matches EntryView::Tag(a)
            &&& #[trigger] next[j] matches EntryView::Tag(b)
            &&& spec_kind(a) == spec_kind(b)
            &&& spec_kind(a).spec_is_once_only()
        }) by {
            if j < entries.len() {
                assert(next[i] == entries[i] && next[j] == entries[j]);
            } else {
                assert(next[i] == entries[i]);
            }
        }
        assert forall|i: int| 0 <= i < next.len() implies entry_wf(#[trigger] next[i]) by {
            if i < entries.len() {
                assert(next[i] == entries[i]);
            }
        }
    }
}

/// What the lines of a playlist mean, where they mean anything, is a
/// valid playlist: each entry can be held, no tag that may occur once
/// occurs twice, and the declared version is at least the required one.
pub proof fn lemma_parsed_playlist_is_valid(lines: Seq<Seq<char>>, policy: UnknownPolicy)
    ensures
        spec_accumulate(lines, policy) matches Ok(entries) ==> no_duplicates(entries)
            && forall|i: int| 0 <= i < entries.len() ==> entry_wf(#[trigger] entries[i]),
        spec_parse_playlist(lines, policy) matches Ok(entries) ==> playlist_wf(entries),
    decreases lines.len(),
{
    if lines.len() > 0 {
        lemma_parsed_playlist_is_valid(lines.drop_last(), policy);
        if let Ok(entries) = spec_accumulate(lines.drop_last(), policy) {
            let line = lines.last();
            crate::tags::lemma_parsed_tag_is_wf(line);
            if let Ok(Some(entry)) = spec_read_line(line, policy) {
                lemma_add_entry_keeps_valid(entries, entry);
            }
        }
    }
}

} // verus!
