use vstd::prelude::*;

use crate::models::error::DbError;
use crate::models::order::{arranged, order_by_title, title_keys, title_order};
use crate::models::store::{
    after_update, first_at, note_ids, note_refusal, note_titled, note_titles, note_with_id,
    title_refusal, with_note, Change, Store,
};
use crate::util::NoteFromMd;

verus! {

/// A stored note.
#[derive(Debug)]
pub struct Note {
    pub id: String,
    pub title: String,
    pub contents: String,
}

/// A note as a value: its identifier, title and body as sequences of
/// characters.
pub struct NoteView {
    pub id: Seq<char>,
    pub title: Seq<char>,
    pub contents: Seq<char>,
}

impl View for Note {
    type V = NoteView;

    open spec fn view(&self) -> NoteView {
        NoteView { id: self.id@, title: self.title@, contents: self.contents@ }
    }
}

impl Clone for Note {
    fn clone(&self) -> (copy: Self)
        ensures
            copy@ == self@,
    {
        Note { id: self.id.clone(), title: self.title.clone(), contents: self.contents.clone() }
    }
}

/// The views of a sequence of notes.
pub open spec fn note_views(notes: Seq<Note>) -> Seq<NoteView> {
    notes.map_values(|n: Note| n@)
}

/// A note as a listing shows it.
#[derive(Debug)]
pub struct NoteListItem {
    pub id: String,
    pub title: String,
}

/// An entry of a listing as a value.
pub struct NoteListItemView {
    pub id: Seq<char>,
    pub title: Seq<char>,
}

impl View for NoteListItem {
    type V = NoteListItemView;

    open spec fn view(&self) -> NoteListItemView {
        NoteListItemView { id: self.id@, title: self.title@ }
    }
}

/// The view of an optional note.
pub open spec fn opt_note(note: Option<Note>) -> Option<NoteView> {
    match note {
        Some(note) => Some(note@),
        None => None,
    }
}

/// How a listing shows a note.
pub open spec fn listed(note: NoteView) -> NoteListItemView {
    NoteListItemView { id: note.id, title: note.title }
}

impl Note {
    /// Adds the note to the store. The store refuses a note whose identifier
    /// or title another note has.
    pub fn add(&self, conn: &mut Store) -> (r: Result<(), DbError>)
        ensures
            match r {
                Ok(_) => note_refusal(old(conn)@.notes, self@) is None && final(conn)@
                    == with_note(old(conn)@, self@),
                Err(e) => e matches DbError::Generic(message) && note_refusal(
                    old(conn)@.notes,
                    self@,
                ) == Some(message@) && final(conn)@ == old(conn)@,
            },
    {
        if conn.note_position_by_id(&self.id).is_some() {
            return Err(DbError::Generic("UNIQUE constraint failed: notes.id".to_owned()));
        }
        if conn.note_position_by_title(&self.title).is_some() {
            return Err(DbError::Generic("UNIQUE constraint failed: notes.title".to_owned()));
        }
        conn.notes.push(self.clone());
        conn.changes.push(Change::AddNote(self.clone()));
        assert(conn@.notes =~= old(conn)@.notes.push(self@));
        assert(conn@.changes =~= old(conn)@.changes.push(
            crate::models::store::ChangeView::AddNote(self@),
        ));
        Ok(())
    }

    /// Whether the store holds a note with the given title.
    pub fn exists_by_title(title: String, conn: &Store) -> (r: Result<bool, DbError>)
        ensures
            r matches Ok(found) && found == (note_titled(conn@.notes, title@) is Some),
    {
        Ok(conn.note_position_by_title(&title).is_some())
    }

    /// The note with the given title.
    pub fn get_by_title(title: String, conn: &Store) -> (r: Result<Option<Note>, DbError>)
        ensures
            r matches Ok(found) && opt_note(found) == note_titled(conn@.notes, title@),
    {
        match conn.note_position_by_title(&title) {
            Some(i) => Ok(Some(conn.notes[i].clone())),
            None => Ok(None),
        }
    }

    /// The note with the given identifier.
    pub fn get_by_id(id: String, conn: &Store) -> (r: Result<Option<Note>, DbError>)
        ensures
            r matches Ok(found) && opt_note(found) == note_with_id(conn@.notes, id@),
    {
        match conn.note_position_by_id(&id) {
            Some(i) => Ok(Some(conn.notes[i].clone())),
            None => Ok(None),
        }
    }

    /// Every note of the store, with its identifier and title.
    pub fn list(conn: &Store) -> (r: Result<Vec<NoteListItem>, DbError>)
        ensures
            r matches Ok(items) && items@.map_values(|item: NoteListItem| item@)
                == conn@.notes.map_values(|note: NoteView| listed(note)),
    {
        let mut items: Vec<NoteListItem> = Vec::new();
        let mut i: usize = 0;
        while i < conn.notes.len()
            invariant
                i <= conn.notes.len(),
                items.len() == i,
                forall|k: int| 0 <= k < i ==> items@[k]@ == listed(conn.notes@[k]@),
            decreases conn.notes.len() - i,
        {
            items.push(
                NoteListItem { id: conn.notes[i].id.clone(), title: conn.notes[i].title.clone() },
            );
            i += 1;
        }
        assert(items@.map_values(|item: NoteListItem| item@) =~= conn@.notes.map_values(
            |note: NoteView| listed(note),
        ));
        Ok(items)
    }

    /// Gives the note of the store that has this note's identifier this
    /// note's title and body. The store refuses a title that another note has.
    pub fn update(&self, conn: &mut Store) -> (r: Result<(), DbError>)
        ensures
            match r {
                Ok(_) => after_update(old(conn)@, self@) == Some(final(conn)@),
                Err(e) => e matches DbError::Generic(message) && message@ == title_refusal()
                    && after_update(old(conn)@, self@) is None && final(conn)@ == old(conn)@,
            },
    {
        let found = conn.note_position_by_id(&self.id);
        match found {
            None => Ok(()),
            Some(i) => {
                let mut j: usize = 0;
                while j < conn.notes.len()
                    invariant
                        j <= conn.notes.len(),
                        i < conn.notes.len(),
                        *conn == *old(conn),
                        first_at(note_ids(conn@.notes), self.id@) == Some(i as int),
                        forall|k: int|
                            0 <= k < j && k != i ==> (#[trigger] conn@.notes[k]).title
                                != self.title@,
                    decreases conn.notes.len() - j,
                {
                    if j != i && conn.notes[j].title == self.title {
                        assert(conn@.notes[j as int].title == self.title@);
                        return Err(
                            DbError::Generic("UNIQUE constraint failed: notes.title".to_owned()),
                        );
                    }
                    j += 1;
                }
                conn.notes.set(i, self.clone());
                conn.changes.push(Change::UpdateNote(self.clone()));
                assert(conn@.notes =~= old(conn)@.notes.update(i as int, self@));
                assert(conn@.changes =~= old(conn)@.changes.push(
                    crate::models::store::ChangeView::UpdateNote(self@),
                ));
                Ok(())
            },
        }
    }
}

/// `notes` in the order of their titles; notes with the same title keep their
/// order.
pub open spec fn notes_by_title(notes: Seq<NoteView>) -> Seq<NoteView> {
    arranged(notes, title_order(note_titles(notes)))
}

/// The notes in the order of their titles.
pub fn sort_notes_by_title(notes: Vec<Note>) -> (sorted: Vec<Note>)
    ensures
        note_views(sorted@) == notes_by_title(note_views(notes@)),
{
    let mut titles: Vec<String> = Vec::new();
    let mut i: usize = 0;
    while i < notes.len()
        invariant
            i <= notes.len(),
            titles.len() == i,
            forall|j: int| 0 <= j < i ==> titles@[j]@ == notes@[j].title@,
        decreases notes.len() - i,
    {
        titles.push(notes[i].title.clone());
        i += 1;
    }
    let keys = title_keys(&titles);
    let order = order_by_title(&keys);
    assert(keys@.map_values(|k: Vec<char>| k@) =~= note_titles(note_views(notes@)));
    let mut sorted: Vec<Note> = Vec::new();
    let mut k: usize = 0;
    while k < order.len()
        invariant
            k <= order.len(),
            sorted.len() == k,
            order.len() == notes.len(),
            forall|j: int| 0 <= j < order.len() ==> (#[trigger] order@[j]) < notes.len(),
            forall|j: int| 0 <= j < k ==> sorted@[j]@ == notes@[order@[j] as int]@,
        decreases order.len() - k,
    {
        sorted.push(notes[order[k]].clone());
        k += 1;
    }
    assert(note_views(sorted@) =~= arranged(note_views(notes@), order@));
    sorted
}

impl Note {
    /// The note that a draft stands for: with the draft's identifier, or with
    /// `fresh_id` where the draft has none.
    pub fn from_draft(value: &NoteFromMd, fresh_id: String) -> (note: Self)
        ensures
            note@ == (NoteView {
                id: match value@.id {
                    Some(id) => id,
                    None => fresh_id@,
                },
                title: value@.title,
                contents: value@.contents,
            }),
    {
        let id = match &value.id {
            Some(id) => id.clone(),
            None => fresh_id,
        };
        Self { id, title: value.title.clone(), contents: value.contents.clone() }
    }
}

impl NoteListItem {
    /// The entry as one line: the identifier, a bar and the title.
    pub fn line(&self) -> (text: String)
        ensures
            text@ == self.id@ + " | "@ + self.title@,
    {
        let mut text = self.id.clone();
        text.append(" | ");
        text.append(self.title.as_str());
        text
    }
}

} // verus!
