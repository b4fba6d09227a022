use vstd::prelude::*;

use crate::models::external::{external_views, ExternalReference};
use crate::models::internal::{internal_views, InternalReference, LinkView};
use crate::models::note::{note_views, Note, NoteView};
use crate::models::sources::{source_views, Source, SourceView};

verus! {

/// One write to the store.
#[derive(Debug)]
pub enum Change {
    AddNote(Note),
    UpdateNote(Note),
    AddSource(Source),
    AddInternal(InternalReference),
    AddExternal(ExternalReference),
    /// The link between notes with this identifier was deleted.
    DeleteInternal(String),
    /// The links to notes that this note owned were deleted.
    ClearInternal(String),
    /// The links to sources that this note owned were deleted.
    ClearExternal(String),
}

/// A write as a value.
pub enum ChangeView {
    AddNote(NoteView),
    UpdateNote(NoteView),
    AddSource(SourceView),
    AddInternal(LinkView),
    AddExternal(LinkView),
    DeleteInternal(Seq<char>),
    ClearInternal(Seq<char>),
    ClearExternal(Seq<char>),
}

impl View for Change {
    type V = ChangeView;

    open spec fn view(&self) -> ChangeView {
        match self {
            Change::AddNote(note) => ChangeView::AddNote(note@),
            Change::UpdateNote(note) => ChangeView::UpdateNote(note@),
            Change::AddSource(source) => ChangeView::AddSource(source@),
            Change::AddInternal(link) => ChangeView::AddInternal(link@),
            Change::AddExternal(link) => ChangeView::AddExternal(link@),
            Change::DeleteInternal(id) => ChangeView::DeleteInternal(id@),
            Change::ClearInternal(note_id) => ChangeView::ClearInternal(note_id@),
            Change::ClearExternal(note_id) => ChangeView::ClearExternal(note_id@),
        }
    }
}

impl Clone for Change {
    fn clone(&self) -> (copy: Self)
        ensures
            copy@ == self@,
    {
        match self {
            Change::AddNote(note) => Change::AddNote(note.clone()),
            Change::UpdateNote(note) => Change::UpdateNote(note.clone()),
            Change::AddSource(source) => Change::AddSource(source.clone()),
            Change::AddInternal(link) => Change::AddInternal(link.clone()),
            Change::AddExternal(link) => Change::AddExternal(link.clone()),
            Change::DeleteInternal(id) => Change::DeleteInternal(id.clone()),
            Change::ClearInternal(note_id) => Change::ClearInternal(note_id.clone()),
            Change::ClearExternal(note_id) => Change::ClearExternal(note_id.clone()),
        }
    }
}

/// The views of a sequence of writes.
pub open spec fn change_views(changes: Seq<Change>) -> Seq<ChangeView> {
    changes.map_values(|c: Change| c@)
}

/// The rows of the four tables, each in the order in which they were added,
/// and the writes made since the store was set up.
#[derive(Debug)]
pub struct Store {
    pub notes: Vec<Note>,
    pub sources: Vec<Source>,
    pub internal: Vec<InternalReference>,
    pub external: Vec<ExternalReference>,
    pub changes: Vec<Change>,
}

/// A store as a value: the rows of its tables and its writes, as sequences.
pub struct StoreView {
    pub notes: Seq<NoteView>,
    pub sources: Seq<SourceView>,
    pub internal: Seq<LinkView>,
    pub external: Seq<LinkView>,
    pub changes: Seq<ChangeView>,
}

impl View for Store {
    type V = StoreView;

    open spec fn view(&self) -> StoreView {
        StoreView {
            notes: note_views(self.notes@),
            sources: source_views(self.sources@),
            internal: internal_views(self.internal@),
            external: external_views(self.external@),
            changes: change_views(self.changes@),
        }
    }
}

/// The store without rows and without writes.
pub open spec fn empty_store() -> StoreView {
    StoreView {
        notes: Seq::empty(),
        sources: Seq::empty(),
        internal: Seq::empty(),
        external: Seq::empty(),
        changes: Seq::empty(),
    }
}

impl Store {
    /// A store without rows.
    pub fn new() -> (store: Self)
        ensures
            store@ == empty_store(),
    {
        let store = Store {
            notes: Vec::new(),
            sources: Vec::new(),
            internal: Vec::new(),
            external: Vec::new(),
            changes: Vec::new(),
        };
        assert(store@.notes =~= Seq::empty());
        assert(store@.sources =~= Seq::empty());
        assert(store@.internal =~= Seq::empty());
        assert(store@.external =~= Seq::empty());
        assert(store@.changes =~= Seq::empty());
        store
    }

    /// A store with the given rows and no writes.
    pub fn with_rows(
        notes: Vec<Note>,
        sources: Vec<Source>,
        internal: Vec<InternalReference>,
        external: Vec<ExternalReference>,
    ) -> (store: Self)
        ensures
            store@ == (StoreView {
                notes: note_views(notes@),
                sources: source_views(sources@),
                internal: internal_views(internal@),
                external: external_views(external@),
                changes: Seq::empty(),
            }),
    {
        let store = Store { notes, sources, internal, external, changes: Vec::new() };
        assert(store@.changes =~= Seq::empty());
        store
    }

    /// A copy of the store, on which a transaction can work.
    pub fn begin(&self) -> (copy: Self)
        ensures
            copy@ == self@,
    {
        let mut notes: Vec<Note> = Vec::new();
        let mut i: usize = 0;
        while i < self.notes.len()
            invariant
                i <= self.notes.len(),
                notes.len() == i,
                forall|k: int| 0 <= k < i ==> notes@[k]@ == self.notes@[k]@,
            decreases self.notes.len() - i,
        {
            notes.push(self.notes[i].clone());
            i += 1;
        }
        assert(note_views(notes@) =~= note_views(self.notes@));
        let mut sources: Vec<Source> = Vec::new();
        let mut i: usize = 0;
        while i < self.sources.len()
            invariant
                i <= self.sources.len(),
                sources.len() == i,
                forall|k: int| 0 <= k < i ==> sources@[k]@ == self.sources@[k]@,
            decreases self.sources.len() - i,
        {
            sources.push(self.sources[i].clone());
            i += 1;
        }
        assert(source_views(sources@) =~= source_views(self.sources@));
        let mut internal: Vec<InternalReference> = Vec::new();
        let mut i: usize = 0;
        while i < self.internal.len()
            invariant
                i <= self.internal.len(),
                internal.len() == i,
                forall|k: int| 0 <= k < i ==> internal@[k]@ == self.internal@[k]@,
            decreases self.internal.len() - i,
        {
            internal.push(self.internal[i].clone());
            i += 1;
        }
        assert(internal_views(internal@) =~= internal_views(self.internal@));
        let mut external: Vec<ExternalReference> = Vec::new();
        let mut i: usize = 0;
        while i < self.external.len()
            invariant
                i <= self.external.len(),
                external.len() == i,
                forall|k: int| 0 <= k < i ==> external@[k]@ == self.external@[k]@,
            decreases self.external.len() - i,
        {
            external.push(self.external[i].clone());
            i += 1;
        }
        assert(external_views(external@) =~= external_views(self.external@));
        let mut changes: Vec<Change> = Vec::new();
        let mut i: usize = 0;
        while i < self.changes.len()
            invariant
                i <= self.changes.len(),
                changes.len() == i,
                forall|k: int| 0 <= k < i ==> changes@[k]@ == self.changes@[k]@,
            decreases self.changes.len() - i,
        {
            changes.push(self.changes[i].clone());
            i += 1;
        }
        assert(change_views(changes@) =~= change_views(self.changes@));
        Store { notes, sources, internal, external, changes }
    }
}

/// The position of the first of `keys` that equals `key`.
pub open spec fn first_at(keys: Seq<Seq<char>>, key: Seq<char>) -> Option<int>
    decreases keys.len(),
{
    if keys.len() == 0 {
        None
    } else {
        match first_at(keys.drop_last(), key) {
            Some(i) => Some(i),
            None => if keys.last() == key {
                Some(keys.len() - 1)
            } else {
                None
            },
        }
    }
}

/// `first_at` gives the least position that holds the key, and `None` exactly
/// when no position holds it.
pub proof fn lemma_first_at(keys: Seq<Seq<char>>, key: Seq<char>)
    ensures
        match first_at(keys, key) {
            Some(i) => 0 <= i < keys.len() && keys[i] == key && forall|j: int|
                0 <= j < i ==> keys[j] != key,
            None => forall|j: int| 0 <= j < keys.len() ==> keys[j] != key,
        },
    decreases keys.len(),
{
    if keys.len() > 0 {
        lemma_first_at(keys.drop_last(), key);
        assert(forall|j: int| 0 <= j < keys.len() - 1 ==> keys.drop_last()[j] == keys[j]);
    }
}

/// A position that holds the key, with none before it, is what `first_at`
/// gives.
pub proof fn lemma_first_at_is(keys: Seq<Seq<char>>, key: Seq<char>, i: int)
    requires
        0 <= i < keys.len(),
        keys[i] == key,
        forall|j: int| 0 <= j < i ==> keys[j] != key,
    ensures
        first_at(keys, key) == Some(i),
{
    lemma_first_at(keys, key);
}

/// Where no position holds the key, `first_at` gives `None`.
pub proof fn lemma_first_at_none(keys: Seq<Seq<char>>, key: Seq<char>)
    requires
        forall|j: int| 0 <= j < keys.len() ==> keys[j] != key,
    ensures
        first_at(keys, key) is None,
{
    lemma_first_at(keys, key);
}

/// The titles of `notes`.
pub open spec fn note_titles(notes: Seq<NoteView>) -> Seq<Seq<char>> {
    notes.map_values(|n: NoteView| n.title)
}

/// The identifiers of `notes`.
pub open spec fn note_ids(notes: Seq<NoteView>) -> Seq<Seq<char>> {
    notes.map_values(|n: NoteView| n.id)
}

/// The titles of `sources`.
pub open spec fn source_titles(sources: Seq<SourceView>) -> Seq<Seq<char>> {
    sources.map_values(|s: SourceView| s.title)
}

/// The identifiers of `sources`.
pub open spec fn source_ids(sources: Seq<SourceView>) -> Seq<Seq<char>> {
    sources.map_values(|s: SourceView| s.id)
}

/// The first of `notes` with the given title.
pub open spec fn note_titled(notes: Seq<NoteView>, title: Seq<char>) -> Option<NoteView> {
    match first_at(note_titles(notes), title) {
        Some(i) => Some(notes[i]),
        None => None,
    }
}

/// The first of `notes` with the given identifier.
pub open spec fn note_with_id(notes: Seq<NoteView>, id: Seq<char>) -> Option<NoteView> {
    match first_at(note_ids(notes), id) {
        Some(i) => Some(notes[i]),
        None => None,
    }
}

/// The first of `sources` with the given title.
pub open spec fn source_titled(sources: Seq<SourceView>, title: Seq<char>) -> Option<SourceView> {
    match first_at(source_titles(sources), title) {
        Some(i) => Some(sources[i]),
        None => None,
    }
}

/// The first of `sources` with the given identifier.
pub open spec fn source_with_id(sources: Seq<SourceView>, id: Seq<char>) -> Option<SourceView> {
    match first_at(source_ids(sources), id) {
        Some(i) => Some(sources[i]),
        None => None,
    }
}

/// Whether `links` holds a link from the note `note` to `target`.
pub open spec fn linked(links: Seq<LinkView>, note: Seq<char>, target: Seq<char>) -> bool {
    exists|i: int|
        0 <= i < links.len() && (#[trigger] links[i]).note_id == note && links[i].reference_id
            == target
}

/// The links of `links` that the note `note` does not own, in their order.
pub open spec fn not_owned_by(links: Seq<LinkView>, note: Seq<char>) -> Seq<LinkView>
    decreases links.len(),
{
    if links.len() == 0 {
        links
    } else if links.last().note_id == note {
        not_owned_by(links.drop_last(), note)
    } else {
        not_owned_by(links.drop_last(), note).push(links.last())
    }
}

/// The targets of the links in `links` that the note `note` owns, in their
/// order.
pub open spec fn targets_of(links: Seq<LinkView>, note: Seq<char>) -> Seq<Seq<char>>
    decreases links.len(),
{
    if links.len() == 0 {
        Seq::empty()
    } else if links.last().note_id == note {
        targets_of(links.drop_last(), note).push(links.last().reference_id)
    } else {
        targets_of(links.drop_last(), note)
    }
}

impl Store {
    /// The position of the first note with the given title.
    pub fn note_position_by_title(&self, title: &String) -> (r: Option<usize>)
        ensures
            match r {
                Some(i) => first_at(note_titles(self@.notes), title@) == Some(i as int) && i
                    < self.notes.len(),
                None => first_at(note_titles(self@.notes), title@) is None,
            },
    {
        let ghost keys = note_titles(self@.notes);
        let mut i: usize = 0;
        while i < self.notes.len()
            invariant
                i <= self.notes.len(),
                keys == note_titles(self@.notes),
                forall|j: int| 0 <= j < i ==> keys[j] != title@,
            decreases self.notes.len() - i,
        {
            if self.notes[i].title == *title {
                proof {
                    lemma_first_at_is(keys, title@, i as int);
                }
                return Some(i);
            }
            i += 1;
        }
        proof {
            lemma_first_at_none(keys, title@);
        }
        None
    }

    /// The position of the first note with the given identifier.
    pub fn note_position_by_id(&self, id: &String) -> (r: Option<usize>)
        ensures
            match r {
                Some(i) => first_at(note_ids(self@.notes), id@) == Some(i as int) && i
                    < self.notes.len(),
                None => first_at(note_ids(self@.notes), id@) is None,
            },
    {
        let ghost keys = note_ids(self@.notes);
        let mut i: usize = 0;
        while i < self.notes.len()
            invariant
                i <= self.notes.len(),
                keys == note_ids(self@.notes),
                forall|j: int| 0 <= j < i ==> keys[j] != id@,
            decreases self.notes.len() - i,
        {
            if self.notes[i].id == *id {
                proof {
                    lemma_first_at_is(keys, id@, i as int);
                }
                return Some(i);
            }
            i += 1;
        }
        proof {
            lemma_first_at_none(keys, id@);
        }
        None
    }

    /// The position of the first source with the given title.
    pub fn source_position_by_title(&self, title: &String) -> (r: Option<usize>)
        ensures
            match r {
                Some(i) => first_at(source_titles(self@.sources), title@) == Some(i as int) && i
                    < self.sources.len(),
                None => first_at(source_titles(self@.sources), title@) is None,
            },
    {
        let ghost keys = source_titles(self@.sources);
        let mut i: usize = 0;
        while i < self.sources.len()
            invariant
                i <= self.sources.len(),
                keys == source_titles(self@.sources),
                forall|j: int| 0 <= j < i ==> keys[j] != title@,
            decreases self.sources.len() - i,
        {
            if self.sources[i].title == *title {
                proof {
                    lemma_first_at_is(keys, title@, i as int);
                }
                return Some(i);
            }
            i += 1;
        }
        proof {
            lemma_first_at_none(keys, title@);
        }
        None
    }

    /// The position of the first source with the given identifier.
    pub fn source_position_by_id(&self, id: &String) -> (r: Option<usize>)
        ensures
            match r {
                Some(i) => first_at(source_ids(self@.sources), id@) == Some(i as int) && i
                    < self.sources.len(),
                None => first_at(source_ids(self@.sources), id@) is None,
            },
    {
        let ghost keys = source_ids(self@.sources);
        let mut i: usize = 0;
        while i < self.sources.len()
            invariant
                i <= self.sources.len(),
                keys == source_ids(self@.sources),
                forall|j: int| 0 <= j < i ==> keys[j] != id@,
            decreases self.sources.len() - i,
        {
            if self.sources[i].id == *id {
                proof {
                    lemma_first_at_is(keys, id@, i as int);
                }
                return Some(i);
            }
            i += 1;
        }
        proof {
            lemma_first_at_none(keys, id@);
        }
        None
    }
}

/// `s` after the note `note` was added.
pub open spec fn with_note(s: StoreView, note: NoteView) -> StoreView {
    StoreView { notes: s.notes.push(note), changes: s.changes.push(ChangeView::AddNote(note)), ..s }
}

/// `s` after the source `source` was added.
pub open spec fn with_source(s: StoreView, source: SourceView) -> StoreView {
    StoreView {
        sources: s.sources.push(source),
        changes: s.changes.push(ChangeView::AddSource(source)),
        ..s
    }
}

/// `s` after the link `link` between notes was added.
pub open spec fn with_internal(s: StoreView, link: LinkView) -> StoreView {
    StoreView {
        internal: s.internal.push(link),
        changes: s.changes.push(ChangeView::AddInternal(link)),
        ..s
    }
}

/// `s` after the link `link` to a source was added.
pub open spec fn with_external(s: StoreView, link: LinkView) -> StoreView {
    StoreView {
        external: s.external.push(link),
        changes: s.changes.push(ChangeView::AddExternal(link)),
        ..s
    }
}

/// Whether a note at another position than `i` has the given title.
pub open spec fn title_held_elsewhere(notes: Seq<NoteView>, title: Seq<char>, i: int) -> bool {
    exists|j: int| 0 <= j < notes.len() && j != i && (#[trigger] notes[j]).title == title
}

/// `s` after the note with the identifier of `note` was given the title and
/// the body of `note`. Without such a note nothing changes. `None` where
/// another note holds the title already.
pub open spec fn after_update(s: StoreView, note: NoteView) -> Option<StoreView> {
    match first_at(note_ids(s.notes), note.id) {
        None => Some(s),
        Some(i) => if title_held_elsewhere(s.notes, note.title, i) {
            None
        } else {
            Some(
                StoreView {
                    notes: s.notes.update(i, note),
                    changes: s.changes.push(ChangeView::UpdateNote(note)),
                    ..s
                },
            )
        },
    }
}

/// The notes with the identifiers `ids`, in that order, or `None` if one of
/// the identifiers is that of no note.
pub open spec fn notes_with_ids(notes: Seq<NoteView>, ids: Seq<Seq<char>>) -> Option<Seq<NoteView>>
    decreases ids.len(),
{
    if ids.len() == 0 {
        Some(Seq::empty())
    } else {
        match (notes_with_ids(notes, ids.drop_last()), note_with_id(notes, ids.last())) {
            (Some(found), Some(note)) => Some(found.push(note)),
            _ => None,
        }
    }
}

/// The sources with the identifiers `ids`, in that order, or `None` if one of
/// the identifiers is that of no source.
pub open spec fn sources_with_ids(sources: Seq<SourceView>, ids: Seq<Seq<char>>) -> Option<
    Seq<SourceView>,
>
    decreases ids.len(),
{
    if ids.len() == 0 {
        Some(Seq::empty())
    } else {
        match (sources_with_ids(sources, ids.drop_last()), source_with_id(sources, ids.last())) {
            (Some(found), Some(source)) => Some(found.push(source)),
            _ => None,
        }
    }
}

/// The targets of the first `i` links are the first of the targets of all.
pub proof fn lemma_targets_grow(links: Seq<LinkView>, note: Seq<char>, i: int)
    requires
        0 <= i <= links.len(),
    ensures
        targets_of(links.take(i), note).len() <= targets_of(links, note).len(),
        targets_of(links, note).take(targets_of(links.take(i), note).len() as int) == targets_of(
            links.take(i),
            note,
        ),
    decreases links.len(),
{
    if i == links.len() {
        assert(links.take(i) =~= links);
        assert(targets_of(links, note).take(targets_of(links, note).len() as int) =~= targets_of(
            links,
            note,
        ));
    } else {
        lemma_targets_grow(links.drop_last(), note, i);
        assert(links.drop_last().take(i) =~= links.take(i));
        let shorter = targets_of(links.drop_last(), note);
        let n = targets_of(links.take(i), note).len() as int;
        assert(targets_of(links, note).take(n) =~= shorter.take(n));
    }
}

/// Where one of the first identifiers is that of no note, the whole sequence
/// finds nothing.
pub proof fn lemma_notes_missing(notes: Seq<NoteView>, ids: Seq<Seq<char>>, n: int)
    requires
        0 <= n <= ids.len(),
        notes_with_ids(notes, ids.take(n)) is None,
    ensures
        notes_with_ids(notes, ids) is None,
    decreases ids.len(),
{
    if n == ids.len() {
        assert(ids.take(n) =~= ids);
    } else {
        assert(ids.drop_last().take(n) =~= ids.take(n));
        lemma_notes_missing(notes, ids.drop_last(), n);
    }
}

/// Where one of the first identifiers is that of no source, the whole sequence
/// finds nothing.
pub proof fn lemma_sources_missing(sources: Seq<SourceView>, ids: Seq<Seq<char>>, n: int)
    requires
        0 <= n <= ids.len(),
        sources_with_ids(sources, ids.take(n)) is None,
    ensures
        sources_with_ids(sources, ids) is None,
    decreases ids.len(),
{
    if n == ids.len() {
        assert(ids.take(n) =~= ids);
    } else {
        assert(ids.drop_last().take(n) =~= ids.take(n));
        lemma_sources_missing(sources, ids.drop_last(), n);
    }
}

/// The links of `links` that the note `note` owns, in their order.
pub open spec fn owned_by(links: Seq<LinkView>, note: Seq<char>) -> Seq<LinkView>
    decreases links.len(),
{
    if links.len() == 0 {
        links
    } else if links.last().note_id == note {
        owned_by(links.drop_last(), note).push(links.last())
    } else {
        owned_by(links.drop_last(), note)
    }
}

/// The links of `links` whose own identifier is not `id`, in their order.
pub open spec fn without_link(links: Seq<LinkView>, id: Seq<char>) -> Seq<LinkView>
    decreases links.len(),
{
    if links.len() == 0 {
        links
    } else if links.last().id == id {
        without_link(links.drop_last(), id)
    } else {
        without_link(links.drop_last(), id).push(links.last())
    }
}

/// What the store says when it refuses a note because another note has its
/// title.
pub open spec fn title_refusal() -> Seq<char> {
    "UNIQUE constraint failed: notes.title"@
}

/// What the store says when it refuses to add `note`: another note has its
/// identifier, or its title. `None` where the note can be added.
pub open spec fn note_refusal(notes: Seq<NoteView>, note: NoteView) -> Option<Seq<char>> {
    if note_with_id(notes, note.id) is Some {
        Some("UNIQUE constraint failed: notes.id"@)
    } else if note_titled(notes, note.title) is Some {
        Some(title_refusal())
    } else {
        None
    }
}

/// What the store says when it refuses a source because another source has
/// its title.
pub open spec fn source_refusal() -> Seq<char> {
    "UNIQUE constraint failed: sources.title"@
}

} // verus!
