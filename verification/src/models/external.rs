use vstd::prelude::*;

use crate::models::error::DbError;
use crate::models::internal::LinkView;
use crate::models::sources::{
    sort_sources_by_title, source_views, sources_by_title, Source, SourceView,
};
use crate::models::store::{
    lemma_sources_missing, lemma_targets_grow, linked, not_owned_by, sources_with_ids,
    targets_of, with_external, Change, ChangeView, Store, StoreView,
};

verus! {

/// A link from a note to a source.
#[derive(Debug)]
pub struct ExternalReference {
    pub id: String,
    pub note_id: String,
    pub reference_id: String,
}

impl View for ExternalReference {
    type V = LinkView;

    open spec fn view(&self) -> LinkView {
        LinkView { id: self.id@, note_id: self.note_id@, reference_id: self.reference_id@ }
    }
}

impl Clone for ExternalReference {
    fn clone(&self) -> (copy: Self)
        ensures
            copy@ == self@,
    {
        ExternalReference {
            id: self.id.clone(),
            note_id: self.note_id.clone(),
            reference_id: self.reference_id.clone(),
        }
    }
}

/// The views of a sequence of links to sources.
pub open spec fn external_views(links: Seq<ExternalReference>) -> Seq<LinkView> {
    links.map_values(|l: ExternalReference| l@)
}

impl ExternalReference {
    /// A link with the given identifier, from the note `note_id` to the source
    /// `reference_id`.
    pub fn new(id: String, note_id: String, reference_id: String) -> (link: Self)
        ensures
            link.id == id,
            link.note_id == note_id,
            link.reference_id == reference_id,
    {
        Self { id, note_id, reference_id }
    }
}

impl ExternalReference {
    /// Adds the link to the store.
    pub fn add(&self, conn: &mut Store) -> (r: Result<(), DbError>)
        ensures
            r is Ok,
            final(conn)@ == with_external(old(conn)@, self@),
    {
        conn.external.push(self.clone());
        conn.changes.push(Change::AddExternal(self.clone()));
        assert(conn@.external =~= old(conn)@.external.push(self@));
        assert(conn@.changes =~= old(conn)@.changes.push(ChangeView::AddExternal(self@)));
        Ok(())
    }

    /// Deletes the links to sources that the note `note_id` owns.
    pub fn delete_by_note_id(note_id: &str, conn: &mut Store) -> (r: Result<(), DbError>)
        ensures
            r is Ok,
            final(conn)@ == (StoreView {
                external: not_owned_by(old(conn)@.external, note_id@),
                changes: old(conn)@.changes.push(ChangeView::ClearExternal(note_id@)),
                ..old(conn)@
            }),
    {
        let owner = note_id.to_owned();
        let ghost all = conn@.external;
        let mut kept: Vec<ExternalReference> = Vec::new();
        let mut i: usize = 0;
        assert(all.take(0) =~= Seq::<LinkView>::empty());
        while i < conn.external.len()
            invariant
                i <= conn.external.len(),
                *conn == *old(conn),
                all == conn@.external,
                owner@ == note_id@,
                external_views(kept@) == not_owned_by(all.take(i as int), note_id@),
            decreases conn.external.len() - i,
        {
            assert(all.take(i + 1).drop_last() =~= all.take(i as int));
            assert(all.take(i + 1).last() == conn.external@[i as int]@);
            if conn.external[i].note_id != owner {
                let ghost before = external_views(kept@);
                kept.push(conn.external[i].clone());
                assert(external_views(kept@) =~= before.push(conn.external@[i as int]@));
            }
            i += 1;
        }
        assert(all.take(conn.external.len() as int) =~= all);
        conn.external = kept;
        conn.changes.push(Change::ClearExternal(owner));
        assert(conn@.changes =~= old(conn)@.changes.push(ChangeView::ClearExternal(note_id@)));
        Ok(())
    }

    /// Whether the store holds a link from the note `note_id` to the source
    /// `reference_id`.
    pub fn exists_link(note_id: &str, reference_id: &str, conn: &Store) -> (r: Result<
        bool,
        DbError,
    >)
        ensures
            r matches Ok(found) && found == linked(conn@.external, note_id@, reference_id@),
    {
        let owner = note_id.to_owned();
        let target = reference_id.to_owned();
        let mut i: usize = 0;
        while i < conn.external.len()
            invariant
                i <= conn.external.len(),
                owner@ == note_id@,
                target@ == reference_id@,
                forall|k: int|
                    0 <= k < i ==> !((#[trigger] conn@.external[k]).note_id == note_id@
                        && conn@.external[k].reference_id == reference_id@),
            decreases conn.external.len() - i,
        {
            if conn.external[i].note_id == owner && conn.external[i].reference_id == target {
                assert(conn@.external[i as int].note_id == note_id@);
                return Ok(true);
            }
            i += 1;
        }
        Ok(false)
    }
}

impl ExternalReference {
    /// The sources that the note `note_id` refers to, in the order of their
    /// titles. A link to a source that the store does not hold is an error.
    pub fn get_by_note_id(note_id: &str, conn: &Store) -> (r: Result<Vec<Source>, DbError>)
        ensures
            match r {
                Ok(sources) => sources_with_ids(
                    conn@.sources,
                    targets_of(conn@.external, note_id@),
                ) matches Some(found) && source_views(sources@) == sources_by_title(found),
                Err(e) => sources_with_ids(conn@.sources, targets_of(conn@.external, note_id@))
                    is None && e is InternalError,
            },
    {
        let owner = note_id.to_owned();
        let ghost all = conn@.external;
        let mut sources: Vec<Source> = Vec::new();
        let mut i: usize = 0;
        assert(all.take(0) =~= Seq::<LinkView>::empty());
        assert(source_views(sources@) =~= Seq::<SourceView>::empty());
        while i < conn.external.len()
            invariant
                i <= conn.external.len(),
                all == conn@.external,
                owner@ == note_id@,
                sources_with_ids(conn@.sources, targets_of(all.take(i as int), note_id@)) == Some(
                    source_views(sources@),
                ),
            decreases conn.external.len() - i,
        {
            assert(all.take(i + 1).drop_last() =~= all.take(i as int));
            assert(all.take(i + 1).last() == conn.external@[i as int]@);
            if conn.external[i].note_id == owner {
                let ghost targets = targets_of(all.take(i + 1), note_id@);
                assert(targets.drop_last() =~= targets_of(all.take(i as int), note_id@));
                match conn.source_position_by_id(&conn.external[i].reference_id) {
                    Some(at) => {
                        let ghost before = source_views(sources@);
                        sources.push(conn.sources[at].clone());
                        assert(source_views(sources@) =~= before.push(conn.sources@[at as int]@));
                    },
                    None => {
                        proof {
                            lemma_targets_grow(all, note_id@, i + 1);
                            lemma_sources_missing(
                                conn@.sources,
                                targets_of(all, note_id@),
                                targets.len() as int,
                            );
                        }
                        return Err(DbError::InternalError);
                    },
                }
            }
            i += 1;
        }
        assert(all.take(conn.external.len() as int) =~= all);
        Ok(sort_sources_by_title(sources))
    }
}

} // verus!
