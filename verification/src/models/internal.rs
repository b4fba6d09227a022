use vstd::prelude::*;

use crate::models::error::DbError;
use crate::models::note::{note_views, notes_by_title, sort_notes_by_title, Note, NoteView};
use crate::models::store::{
    lemma_notes_missing, lemma_targets_grow, linked, not_owned_by, notes_with_ids, owned_by,
    targets_of, with_internal, without_link, Change, ChangeView, Store, StoreView,
};

verus! {

/// A link from a note to another note.
#[derive(Debug)]
pub struct InternalReference {
    pub id: String,
    pub note_id: String,
    pub reference_id: String,
}

/// A link row: its own identifier, the note that owns it and its target.
pub struct LinkView {
    pub id: Seq<char>,
    pub note_id: Seq<char>,
    pub reference_id: Seq<char>,
}

impl View for InternalReference {
    type V = LinkView;

    open spec fn view(&self) -> LinkView {
        LinkView { id: self.id@, note_id: self.note_id@, reference_id: self.reference_id@ }
    }
}

impl Clone for InternalReference {
    fn clone(&self) -> (copy: Self)
        ensures
            copy@ == self@,
    {
        InternalReference {
            id: self.id.clone(),
            note_id: self.note_id.clone(),
            reference_id: self.reference_id.clone(),
        }
    }
}

/// The views of a sequence of links between notes.
pub open spec fn internal_views(links: Seq<InternalReference>) -> Seq<LinkView> {
    links.map_values(|l: InternalReference| l@)
}

impl InternalReference {
    /// A link with the given identifier, from the note `note_id` to the note
    /// `reference_id`.
    pub fn new(id: String, note_id: String, reference_id: String) -> (link: Self)
        ensures
            link.id == id,
            link.note_id == note_id,
            link.reference_id == reference_id,
    {
        Self { id, note_id, reference_id }
    }
}

impl InternalReference {
    /// Adds the link to the store.
    pub fn add(&self, conn: &mut Store) -> (r: Result<(), DbError>)
        ensures
            r is Ok,
            final(conn)@ == with_internal(old(conn)@, self@),
    {
        conn.internal.push(self.clone());
        conn.changes.push(Change::AddInternal(self.clone()));
        assert(conn@.internal =~= old(conn)@.internal.push(self@));
        assert(conn@.changes =~= old(conn)@.changes.push(ChangeView::AddInternal(self@)));
        Ok(())
    }

    /// Deletes the links to notes that the note `note_id` owns.
    pub fn delete_by_note_id(note_id: &str, conn: &mut Store) -> (r: Result<(), DbError>)
        ensures
            r is Ok,
            final(conn)@ == (StoreView {
                internal: not_owned_by(old(conn)@.internal, note_id@),
                changes: old(conn)@.changes.push(ChangeView::ClearInternal(note_id@)),
                ..old(conn)@
            }),
    {
        let owner = note_id.to_owned();
        let ghost all = conn@.internal;
        let mut kept: Vec<InternalReference> = Vec::new();
        let mut i: usize = 0;
        assert(all.take(0) =~= Seq::<LinkView>::empty());
        while i < conn.internal.len()
            invariant
                i <= conn.internal.len(),
                *conn == *old(conn),
                all == conn@.internal,
                owner@ == note_id@,
                internal_views(kept@) == not_owned_by(all.take(i as int), note_id@),
            decreases conn.internal.len() - i,
        {
            assert(all.take(i + 1).drop_last() =~= all.take(i as int));
            assert(all.take(i + 1).last() == conn.internal@[i as int]@);
            if conn.internal[i].note_id != owner {
                let ghost before = internal_views(kept@);
                kept.push(conn.internal[i].clone());
                assert(internal_views(kept@) =~= before.push(conn.internal@[i as int]@));
            }
            i += 1;
        }
        assert(all.take(conn.internal.len() as int) =~= all);
        conn.internal = kept;
        conn.changes.push(Change::ClearInternal(owner));
        assert(conn@.changes =~= old(conn)@.changes.push(ChangeView::ClearInternal(note_id@)));
        Ok(())
    }

    /// Whether the store holds a link from the note `note_id` to the note
    /// `reference_id`.
    pub fn exists_link(note_id: &str, reference_id: &str, conn: &Store) -> (r: Result<
        bool,
        DbError,
    >)
        ensures
            r matches Ok(found) && found == linked(conn@.internal, note_id@, reference_id@),
    {
        let owner = note_id.to_owned();
        let target = reference_id.to_owned();
        let mut i: usize = 0;
        while i < conn.internal.len()
            invariant
                i <= conn.internal.len(),
                owner@ == note_id@,
                target@ == reference_id@,
                forall|k: int|
                    0 <= k < i ==> !((#[trigger] conn@.internal[k]).note_id == note_id@
                        && conn@.internal[k].reference_id == reference_id@),
            decreases conn.internal.len() - i,
        {
            if conn.internal[i].note_id == owner && conn.internal[i].reference_id == target {
                assert(conn@.internal[i as int].note_id == note_id@);
                return Ok(true);
            }
            i += 1;
        }
        Ok(false)
    }
}

impl InternalReference {
    /// The notes that the note `note_id` refers to, in the order of their
    /// titles. A link to a note that the store does not hold is an error.
    pub fn get_by_note_id(note_id: &str, conn: &Store) -> (r: Result<Vec<Note>, DbError>)
        ensures
            match r {
                Ok(notes) => notes_with_ids(conn@.notes, targets_of(conn@.internal, note_id@))
                    matches Some(found) && note_views(notes@) == notes_by_title(found),
                Err(e) => notes_with_ids(conn@.notes, targets_of(conn@.internal, note_id@))
                    is None && e is InternalError,
            },
    {
        let owner = note_id.to_owned();
        let ghost all = conn@.internal;
        let mut notes: Vec<Note> = Vec::new();
        let mut i: usize = 0;
        assert(all.take(0) =~= Seq::<LinkView>::empty());
        assert(note_views(notes@) =~= Seq::<NoteView>::empty());
        while i < conn.internal.len()
            invariant
                i <= conn.internal.len(),
                all == conn@.internal,
                owner@ == note_id@,
                notes_with_ids(conn@.notes, targets_of(all.take(i as int), note_id@)) == Some(
                    note_views(notes@),
                ),
            decreases conn.internal.len() - i,
        {
            assert(all.take(i + 1).drop_last() =~= all.take(i as int));
            assert(all.take(i + 1).last() == conn.internal@[i as int]@);
            if conn.internal[i].note_id == owner {
                let ghost targets = targets_of(all.take(i + 1), note_id@);
                assert(targets.drop_last() =~= targets_of(all.take(i as int), note_id@));
                match conn.note_position_by_id(&conn.internal[i].reference_id) {
                    Some(at) => {
                        let ghost before = note_views(notes@);
                        notes.push(conn.notes[at].clone());
                        assert(note_views(notes@) =~= before.push(conn.notes@[at as int]@));
                    },
                    None => {
                        proof {
                            lemma_targets_grow(all, note_id@, i + 1);
                            lemma_notes_missing(
                                conn@.notes,
                                targets_of(all, note_id@),
                                targets.len() as int,
                            );
                        }
                        return Err(DbError::InternalError);
                    },
                }
            }
            i += 1;
        }
        assert(all.take(conn.internal.len() as int) =~= all);
        Ok(sort_notes_by_title(notes))
    }
}

impl InternalReference {
    /// The links to notes that the note `note_id` owns, in the order in which
    /// they were added.
    pub fn get_by_note_id_raw(note_id: &str, conn: &Store) -> (r: Result<
        Vec<InternalReference>,
        DbError,
    >)
        ensures
            r matches Ok(links) && internal_views(links@) == owned_by(conn@.internal, note_id@),
    {
        let owner = note_id.to_owned();
        let ghost all = conn@.internal;
        let mut links: Vec<InternalReference> = Vec::new();
        let mut i: usize = 0;
        assert(all.take(0) =~= Seq::<LinkView>::empty());
        while i < conn.internal.len()
            invariant
                i <= conn.internal.len(),
                all == conn@.internal,
                owner@ == note_id@,
                internal_views(links@) == owned_by(all.take(i as int), note_id@),
            decreases conn.internal.len() - i,
        {
            assert(all.take(i + 1).drop_last() =~= all.take(i as int));
            assert(all.take(i + 1).last() == conn.internal@[i as int]@);
            if conn.internal[i].note_id == owner {
                let ghost before = internal_views(links@);
                links.push(conn.internal[i].clone());
                assert(internal_views(links@) =~= before.push(conn.internal@[i as int]@));
            }
            i += 1;
        }
        assert(all.take(conn.internal.len() as int) =~= all);
        Ok(links)
    }

    /// Deletes the link from the store: every row with this link's
    /// identifier.
    pub fn delete(self, conn: &mut Store) -> (r: Result<(), DbError>)
        ensures
            r is Ok,
            final(conn)@ == (StoreView {
                internal: without_link(old(conn)@.internal, self.id@),
                changes: old(conn)@.changes.push(ChangeView::DeleteInternal(self.id@)),
                ..old(conn)@
            }),
    {
        let ghost all = conn@.internal;
        let mut kept: Vec<InternalReference> = Vec::new();
        let mut i: usize = 0;
        assert(all.take(0) =~= Seq::<LinkView>::empty());
        while i < conn.internal.len()
            invariant
                i <= conn.internal.len(),
                *conn == *old(conn),
                all == conn@.internal,
                internal_views(kept@) == without_link(all.take(i as int), self.id@),
            decreases conn.internal.len() - i,
        {
            assert(all.take(i + 1).drop_last() =~= all.take(i as int));
            assert(all.take(i + 1).last() == conn.internal@[i as int]@);
            if conn.internal[i].id != self.id {
                let ghost before = internal_views(kept@);
                kept.push(conn.internal[i].clone());
                assert(internal_views(kept@) =~= before.push(conn.internal@[i as int]@));
            }
            i += 1;
        }
        assert(all.take(conn.internal.len() as int) =~= all);
        conn.internal = kept;
        conn.changes.push(Change::DeleteInternal(self.id));
        assert(conn@.changes =~= old(conn)@.changes.push(ChangeView::DeleteInternal(self.id@)));
        Ok(())
    }
}

} // verus!
