use vstd::prelude::*;
use vstd::utf8::{decode_utf8, valid_utf8};

use crate::cli::error::CliError;
use crate::cli::subcommands::{GetNote, NoteField, NoteFields, SourceField, SourceFields};
use crate::cli::table::{
    csv_begin, csv_bytes, csv_finish, csv_rows, csv_write, record_view, utf8_text, CsvTable,
};
use crate::models::external::ExternalReference;
use crate::models::internal::InternalReference;
use crate::models::note::{notes_by_title, Note, NoteView};
use crate::models::sources::{sources_by_title, Source, SourceView};
use crate::models::store::{
    after_update, first_at, lemma_first_at, not_owned_by, note_ids, note_refusal, note_titled,
    note_titles, note_with_id, notes_with_ids, sources_with_ids, targets_of, title_refusal,
    with_note, ChangeView, Store, StoreView,
};
use crate::reconcile::{
    after_external, after_externals, after_internal, after_internals, all_identifier_pairs,
    all_identifiers, first_missing, law_reconcile_keeps_sound, lemma_first_missing_stays,
    lemma_not_owned_sound, lemma_reconciled_keeps_notes, linked_external, linked_internal,
    notes_sound, reconciled, reconciles_to, store_sound,
};
use crate::util::{
    generate_id, is_identifier, reference_views, NoteFromMd, NoteFromMdView, Reference,
    References, ReferencesView, ReferenceView,
};
use crate::util::parse::{note_to_md, rendered};
use crate::util::text::{chars_of, string_of, trim_range, trimmed};

verus! {

/// Runs the commands on a store.
#[derive(Debug)]
pub struct Controller {
    pub conn: Store,
}

impl Controller {
    /// A controller for the store `conn`.
    pub fn new(conn: Store) -> (controller: Self)
        ensures
            controller.conn == conn,
    {
        Self { conn }
    }

    /// Links the note `note_id` to the note that `reference` names, with
    /// `link_id` as the identifier of a new link.
    pub fn add_internal_reference(
        reference: &Reference,
        note_id: &str,
        link_id: String,
        tx: &mut Store,
    ) -> (r: Result<(), CliError>)
        ensures
            match r {
                Ok(_) => after_internal(old(tx)@, note_id@, reference@, link_id@) == Ok::<
                    StoreView,
                    Seq<char>,
                >(final(tx)@),
                Err(e) => after_internal(old(tx)@, note_id@, reference@, link_id@) matches Err(
                    title,
                ) && e matches CliError::ReferenceDoesNotExist(named) && named@ == title
                    && final(tx)@ == old(tx)@,
            },
    {
        match reference {
            Reference::ById(id) => {
                Self::link_notes(note_id, id.as_str(), link_id, tx);
                Ok(())
            },
            Reference::ByTitle(title) => Self::add_internal_reference_by_title(
                title.as_str(),
                note_id,
                link_id,
                tx,
            ),
        }
    }

    /// Links the note `note_id` to the note `target`, unless it is linked to it
    /// already.
    fn link_notes(note_id: &str, target: &str, link_id: String, tx: &mut Store)
        ensures
            final(tx)@ == linked_internal(old(tx)@, note_id@, target@, link_id@),
    {
        match InternalReference::exists_link(note_id, target, tx) {
            Ok(true) => {},
            _ => {
                let link = InternalReference::new(link_id, note_id.to_owned(), target.to_owned());
                let _ = link.add(tx);
            },
        }
    }

    /// Links the note `note_id` to the source `target`, unless it is linked to
    /// it already.
    fn link_source(note_id: &str, target: &str, link_id: String, tx: &mut Store)
        ensures
            final(tx)@ == linked_external(old(tx)@, note_id@, target@, link_id@),
    {
        match ExternalReference::exists_link(note_id, target, tx) {
            Ok(true) => {},
            _ => {
                let link = ExternalReference::new(link_id, note_id.to_owned(), target.to_owned());
                let _ = link.add(tx);
            },
        }
    }

    /// Links the note `note_id` to the note with the title `title`. Fails if
    /// the store holds no such note.
    pub fn add_internal_reference_by_title(
        title: &str,
        note_id: &str,
        link_id: String,
        tx: &mut Store,
    ) -> (r: Result<(), CliError>)
        ensures
            match r {
                Ok(_) => note_titled(old(tx)@.notes, title@) matches Some(found) && final(tx)@
                    == linked_internal(old(tx)@, note_id@, found.id, link_id@),
                Err(e) => e matches CliError::ReferenceDoesNotExist(named) && named@ == title@
                    && note_titled(old(tx)@.notes, title@) is None && final(tx)@ == old(tx)@,
            },
    {
        match Note::get_by_title(title.to_owned(), tx) {
            Ok(Some(note)) => {
                Self::link_notes(note_id, note.id.as_str(), link_id, tx);
                Ok(())
            },
            _ => Err(CliError::ReferenceDoesNotExist(title.to_owned())),
        }
    }

    /// Links the note `note_id` to the source that `reference` names, with
    /// `source_id` as the identifier of a new source and `link_id` as that of a
    /// new link.
    pub fn add_external_reference(
        reference: &Reference,
        note_id: &str,
        source_id: String,
        link_id: String,
        tx: &mut Store,
    ) -> (r: Result<(), CliError>)
        ensures
            r is Ok,
            final(tx)@ == after_external(old(tx)@, note_id@, reference@, source_id@, link_id@),
    {
        match reference {
            Reference::ById(id) => {
                Self::link_source(note_id, id.as_str(), link_id, tx);
                Ok(())
            },
            Reference::ByTitle(title) => Self::add_external_reference_by_title(
                title.as_str(),
                note_id,
                source_id,
                link_id,
                tx,
            ),
        }
    }

    /// Links the note `note_id` to the source with the title `title`, which is
    /// made first if the store does not hold it.
    pub fn add_external_reference_by_title(
        title: &str,
        note_id: &str,
        source_id: String,
        link_id: String,
        tx: &mut Store,
    ) -> (r: Result<(), CliError>)
        ensures
            r is Ok,
            final(tx)@ == after_external(
                old(tx)@,
                note_id@,
                ReferenceView::ByTitle(title@),
                source_id@,
                link_id@,
            ),
    {
        let target = match Source::get_by_title(title.to_owned(), tx) {
            Ok(Some(source)) => source.id,
            _ => {
                let source = Source::new(source_id, title.to_owned());
                let _ = source.add(tx);
                source.id
            },
        };
        Self::link_source(note_id, target.as_str(), link_id, tx);
        Ok(())
    }
}

impl Controller {
    /// Reconciles the references of the note `note_id` with the store: every
    /// reference is resolved and linked, a link is added only where none is
    /// there, and a source named by title is made where none has that title.
    /// A fresh identifier is drawn for every reference to a note, and two for
    /// every reference to a source. Where a reference names, by title, a note
    /// that the store does not hold, the first such title is the error and the
    /// store stays as it was.
    pub fn reconcile(references: &References, note_id: &str, tx: &mut Store) -> (r: Result<
        (),
        CliError,
    >)
        ensures
            match r {
                Ok(_) => first_missing(old(tx)@.notes, references@.internal) is None
                    && reconciles_to(old(tx)@, note_id@, references@, final(tx)@),
                Err(e) => e matches CliError::ReferenceDoesNotExist(named) && first_missing(
                    old(tx)@.notes,
                    references@.internal,
                ) == Some(named@) && final(tx)@ == old(tx)@,
            },
    {
        let mut work = tx.begin();
        let ghost start = tx@;
        let ghost refs = references@.internal;
        let ghost mut internal_ids: Seq<Seq<char>> = Seq::empty();
        let mut i: usize = 0;
        assert(refs.take(0) =~= Seq::<ReferenceView>::empty());
        while i < references.internal.len()
            invariant
                i <= references.internal.len(),
                refs == reference_views(references.internal@),
                start == tx@,
                *tx == *old(tx),
                work@.notes == start.notes,
                internal_ids.len() == i,
                all_identifiers(internal_ids),
                first_missing(start.notes, refs.take(i as int)) is None,
                after_internals(start, note_id@, refs.take(i as int), internal_ids) == Ok::<
                    StoreView,
                    Seq<char>,
                >(work@),
            decreases references.internal.len() - i,
        {
            let id = generate_id();
            proof {
                assert(refs.take(i + 1).drop_last() =~= refs.take(i as int));
                assert(refs.take(i + 1).last() == references.internal@[i as int]@);
                assert(internal_ids.push(id@).drop_last() =~= internal_ids);
                internal_ids = internal_ids.push(id@);
            }
            match Self::add_internal_reference(&references.internal[i], note_id, id, &mut work) {
                Ok(_) => {},
                Err(e) => {
                    proof {
                        lemma_first_missing_stays(start.notes, refs, i + 1);
                    }
                    return Err(e);
                },
            }
            i += 1;
        }
        assert(refs.take(references.internal.len() as int) =~= refs);
        let ghost middle = work@;
        let ghost sources = references@.external;
        let ghost mut external_ids: Seq<(Seq<char>, Seq<char>)> = Seq::empty();
        let mut j: usize = 0;
        assert(sources.take(0) =~= Seq::<ReferenceView>::empty());
        while j < references.external.len()
            invariant
                j <= references.external.len(),
                sources == reference_views(references.external@),
                external_ids.len() == j,
                all_identifier_pairs(external_ids),
                after_externals(middle, note_id@, sources.take(j as int), external_ids) == work@,
            decreases references.external.len() - j,
        {
            let source_id = generate_id();
            let link_id = generate_id();
            proof {
                assert(sources.take(j + 1).drop_last() =~= sources.take(j as int));
                assert(sources.take(j + 1).last() == references.external@[j as int]@);
                assert(external_ids.push((source_id@, link_id@)).drop_last() =~= external_ids);
                external_ids = external_ids.push((source_id@, link_id@));
            }
            let _ = Self::add_external_reference(
                &references.external[j],
                note_id,
                source_id,
                link_id,
                &mut work,
            );
            j += 1;
        }
        assert(sources.take(references.external.len() as int) =~= sources);
        *tx = work;
        assert(reconciled(start, note_id@, references@, internal_ids, external_ids) == Ok::<
            StoreView,
            Seq<char>,
        >(tx@));
        Ok(())
    }
}

/// The note that a draft stands for: with the draft's identifier, or with
/// `fresh_id` where the draft has none.
pub open spec fn drafted(draft: NoteFromMdView, fresh_id: Seq<char>) -> NoteView {
    NoteView {
        id: match draft.id {
            Some(id) => id,
            None => fresh_id,
        },
        title: draft.title,
        contents: draft.contents,
    }
}

/// What adding the note `note` with the references `refs` to the store `s`
/// comes to: the store `t`, and the failure if there is one. A title that is
/// empty but for white space is refused; so is a note whose identifier or
/// title another note has; so is a reference by title to a note that the store
/// does not hold. Every failure leaves the store as it was.
pub open spec fn note_added(
    s: StoreView,
    note: NoteView,
    refs: ReferencesView,
    failure: Option<CliError>,
    t: StoreView,
) -> bool {
    if trimmed(note.title).len() == 0 {
        failure matches Some(CliError::NoteTitleEmpty) && t == s
    } else if note_refusal(s.notes, note) is Some {
        failure matches Some(CliError::Generic(message)) && Some(message@) == note_refusal(
            s.notes,
            note,
        ) && t == s
    } else {
        match first_missing(s.notes.push(note), refs.internal) {
            Some(title) => failure matches Some(CliError::ReferenceDoesNotExist(named)) && named@
                == title && t == s,
            None => failure is None && reconciles_to(with_note(s, note), note.id, refs, t),
        }
    }
}

/// `s` without the links that the note `note` owns.
pub open spec fn unlinked(s: StoreView, note: Seq<char>) -> StoreView {
    StoreView {
        internal: not_owned_by(s.internal, note),
        external: not_owned_by(s.external, note),
        changes: s.changes.push(ChangeView::ClearInternal(note)).push(
            ChangeView::ClearExternal(note),
        ),
        ..s
    }
}

/// What updating the note `note` with the references `refs` in the store `s`
/// comes to: the store `t`, and the failure if there is one. The store must
/// hold a note with that identifier; another note must not have the new
/// title; and every reference by title to a note must name a note of the
/// store. The note's former links are dropped before the references are
/// reconciled. Every failure leaves the store as it was.
pub open spec fn note_updated(
    s: StoreView,
    note: NoteView,
    refs: ReferencesView,
    failure: Option<CliError>,
    t: StoreView,
) -> bool {
    if note_with_id(s.notes, note.id) is None {
        failure matches Some(CliError::NoteNotFound) && t == s
    } else {
        match after_update(s, note) {
            None => failure matches Some(CliError::Generic(message)) && message@
                == title_refusal() && t == s,
            Some(u) => match first_missing(u.notes, refs.internal) {
                Some(title) => failure matches Some(CliError::ReferenceDoesNotExist(named))
                    && named@ == title && t == s,
                None => failure is None && reconciles_to(unlinked(u, note.id), note.id, refs, t),
            },
        }
    }
}

/// The failure of an outcome.
pub open spec fn failure_of(r: Result<&'static str, CliError>) -> Option<CliError> {
    match r {
        Ok(_) => None,
        Err(e) => Some(e),
    }
}

impl Controller {
    /// Adds `note` with the references `references` to the store.
    pub fn add_note(&mut self, note: Note, references: &References) -> (r: Result<
        &'static str,
        CliError,
    >)
        ensures
            note_added(old(self).conn@, note@, references@, failure_of(r), final(self).conn@),
            r matches Ok(message) ==> message@ == "Note added successfuly"@,
    {
        let title = chars_of(note.title.as_str());
        let (a, b) = trim_range(&title, 0, title.len());
        assert(title@.subrange(0, title.len() as int) =~= title@);
        if a == b {
            return Err(CliError::NoteTitleEmpty);
        }
        let mut tx = self.conn.begin();
        match note.add(&mut tx) {
            Ok(_) => {},
            Err(e) => {
                return Err(CliError::from_db(e));
            },
        }
        match Self::reconcile(references, note.id.as_str(), &mut tx) {
            Ok(_) => {},
            Err(e) => {
                return Err(e);
            },
        }
        self.conn = tx;
        Ok("Note added successfuly")
    }

    /// Adds the note of a draft to the store, under the draft's identifier or,
    /// where it has none, under a fresh one.
    pub fn add(&mut self, note_from_md: NoteFromMd) -> (r: Result<&'static str, CliError>)
        ensures
            exists|fresh_id: Seq<char>|
                is_identifier(fresh_id) && #[trigger] note_added(
                    old(self).conn@,
                    drafted(note_from_md@, fresh_id),
                    note_from_md@.references,
                    failure_of(r),
                    final(self).conn@,
                ),
            r matches Ok(message) ==> message@ == "Note added successfuly"@,
    {
        let fresh_id = generate_id();
        let note = Note::from_draft(&note_from_md, fresh_id);
        let r = self.add_note(note, &note_from_md.references);
        assert(note_added(
            old(self).conn@,
            drafted(note_from_md@, fresh_id@),
            note_from_md@.references,
            failure_of(r),
            self.conn@,
        ));
        r
    }

    /// Gives the stored note with the identifier of `note` the title and the
    /// body of `note`, and replaces its links by those that `references` ask
    /// for.
    pub fn update_note(&mut self, note: Note, references: &References) -> (r: Result<
        &'static str,
        CliError,
    >)
        ensures
            note_updated(old(self).conn@, note@, references@, failure_of(r), final(self).conn@),
            r matches Ok(message) ==> message@ == "Note updated successfuly"@,
    {
        match Note::get_by_id(note.id.clone(), &self.conn) {
            Ok(Some(_)) => {},
            _ => {
                return Err(CliError::NoteNotFound);
            },
        }
        let mut tx = self.conn.begin();
        match note.update(&mut tx) {
            Ok(_) => {},
            Err(e) => {
                return Err(CliError::from_db(e));
            },
        }
        let _ = InternalReference::delete_by_note_id(note.id.as_str(), &mut tx);
        let _ = ExternalReference::delete_by_note_id(note.id.as_str(), &mut tx);
        match Self::reconcile(references, note.id.as_str(), &mut tx) {
            Ok(_) => {},
            Err(e) => {
                return Err(e);
            },
        }
        self.conn = tx;
        Ok("Note updated successfuly")
    }

    /// Updates the stored note that a draft stands for. A draft without an
    /// identifier stands for no stored note.
    pub fn update(&mut self, note_from_md: NoteFromMd) -> (r: Result<&'static str, CliError>)
        ensures
            exists|fresh_id: Seq<char>|
                is_identifier(fresh_id) && #[trigger] note_updated(
                    old(self).conn@,
                    drafted(note_from_md@, fresh_id),
                    note_from_md@.references,
                    failure_of(r),
                    final(self).conn@,
                ),
            r matches Ok(message) ==> message@ == "Note updated successfuly"@,
    {
        let fresh_id = generate_id();
        let note = Note::from_draft(&note_from_md, fresh_id);
        let r = self.update_note(note, &note_from_md.references);
        assert(note_updated(
            old(self).conn@,
            drafted(note_from_md@, fresh_id@),
            note_from_md@.references,
            failure_of(r),
            self.conn@,
        ));
        r
    }
}

/// What setting a draft in the store `s` comes to. A draft with an identifier
/// updates the note with that identifier, and is added where the store holds
/// none; a draft without one updates the note with its title, and is added
/// under the fresh identifier where the store holds none.
pub open spec fn note_set(
    s: StoreView,
    draft: NoteFromMdView,
    fresh_id: Seq<char>,
    failure: Option<CliError>,
    t: StoreView,
) -> bool {
    match draft.id {
        Some(id) => if note_with_id(s.notes, id) is Some {
            note_updated(s, drafted(draft, id), draft.references, failure, t)
        } else {
            note_added(s, drafted(draft, id), draft.references, failure, t)
        },
        None => match note_titled(s.notes, draft.title) {
            Some(found) => note_updated(s, drafted(draft, found.id), draft.references, failure, t),
            None => note_added(s, drafted(draft, fresh_id), draft.references, failure, t),
        },
    }
}

impl Controller {
    /// Stores the note of a draft: updates the note that the draft stands for,
    /// by its identifier or else by its title, or adds it as a new note.
    pub fn set(&mut self, note_from_md: NoteFromMd) -> (r: Result<&'static str, CliError>)
        ensures
            exists|fresh_id: Seq<char>|
                is_identifier(fresh_id) && #[trigger] note_set(
                    old(self).conn@,
                    note_from_md@,
                    fresh_id,
                    failure_of(r),
                    final(self).conn@,
                ),
            r matches Ok(message) ==> message@ == "Note set successfuly"@,
    {
        let fresh_id = generate_id();
        let ghost fresh = fresh_id@;
        let r = match &note_from_md.id {
            Some(id) => {
                let note = Note::from_draft(&note_from_md, fresh_id);
                match Note::get_by_id(id.clone(), &self.conn) {
                    Ok(Some(_)) => self.update_note(note, &note_from_md.references),
                    _ => self.add_note(note, &note_from_md.references),
                }
            },
            None => {
                match Note::get_by_title(note_from_md.title.clone(), &self.conn) {
                    Ok(Some(found)) => {
                        let note = Note::from_draft(&note_from_md, found.id);
                        self.update_note(note, &note_from_md.references)
                    },
                    _ => {
                        let note = Note::from_draft(&note_from_md, fresh_id);
                        self.add_note(note, &note_from_md.references)
                    },
                }
            },
        };
        assert(note_set(old(self).conn@, note_from_md@, fresh, failure_of(r), self.conn@));
        match r {
            Ok(_) => Ok("Note set successfuly"),
            Err(e) => Err(e),
        }
    }
}

/// The record of a note: its identifier or its title for each column.
pub open spec fn note_record(id: Seq<char>, title: Seq<char>, columns: Seq<NoteField>) -> Seq<
    Seq<char>,
> {
    columns.map_values(
        |column: NoteField|
            match column {
                NoteField::Id => id,
                NoteField::Title => title,
            },
    )
}

/// The record of a source: its identifier or its title for each column.
pub open spec fn source_record(id: Seq<char>, title: Seq<char>, columns: Seq<SourceField>) -> Seq<
    Seq<char>,
> {
    columns.map_values(
        |column: SourceField|
            match column {
                SourceField::Id => id,
                SourceField::Title => title,
            },
    )
}

/// What a listing shows: the lines of a listing with one column, and the
/// table of a listing with more.
#[derive(Debug)]
pub struct Listing {
    pub lines: Vec<String>,
    pub table: String,
}

/// The text of a table with the records `rows`: what the bytes of the table
/// encode, without white space at either end.
pub open spec fn table_text(rows: Seq<Seq<Seq<char>>>) -> Seq<char> {
    trimmed(decode_utf8(csv_bytes(rows)))
}

/// Whether `listing` shows `records`, which all have `columns` fields: one
/// line for each record where there is one column, and the table of the
/// records otherwise.
pub open spec fn shows(listing: Listing, records: Seq<Seq<Seq<char>>>, columns: nat) -> bool {
    if columns == 1 {
        &&& listing.lines@.map_values(|line: String| line@) == records.map_values(
            |record: Seq<Seq<char>>| record[0],
        )
        &&& valid_utf8(csv_bytes(Seq::empty()))
        &&& listing.table@ == table_text(Seq::empty())
    } else {
        &&& listing.lines@.len() == 0
        &&& valid_utf8(csv_bytes(records))
        &&& listing.table@ == table_text(records)
    }
}

/// Whether a listing of `records` with `columns` columns can fail with `e`:
/// the table could not be had from the writer, or its bytes are no text.
pub open spec fn listing_fails(e: CliError, records: Seq<Seq<Seq<char>>>, columns: nat) -> bool {
    ||| e is InternalError
    ||| e is InvalidUtf8 && !valid_utf8(
        csv_bytes(
            if columns == 1 {
                Seq::empty()
            } else {
                records
            },
        ),
    )
}

/// A note written out: the path of the file, the markdown to write there, and
/// the message to show afterwards.
#[derive(Debug)]
pub struct Export {
    pub path: String,
    pub markdown: String,
    pub message: String,
}

impl Controller {
    /// The record of a note for the columns `fields`.
    pub fn note_item_to_record<'a>(id: &'a str, title: &'a str, fields: &NoteFields) -> (record:
        Vec<&'a str>)
        ensures
            record_view(record@) == note_record(id@, title@, fields.items@),
            record.len() == fields.items.len(),
    {
        let mut record: Vec<&'a str> = Vec::new();
        let mut i: usize = 0;
        while i < fields.items.len()
            invariant
                i <= fields.items.len(),
                record.len() == i,
                forall|k: int|
                    0 <= k < i ==> record@[k]@ == note_record(id@, title@, fields.items@)[k],
            decreases fields.items.len() - i,
        {
            match fields.items[i] {
                NoteField::Id => record.push(id),
                NoteField::Title => record.push(title),
            }
            i += 1;
        }
        assert(record_view(record@) =~= note_record(id@, title@, fields.items@));
        record
    }

    /// The record of a source for the columns `fields`.
    pub fn source_to_record<'a>(id: &'a str, title: &'a str, fields: &SourceFields) -> (record:
        Vec<&'a str>)
        ensures
            record_view(record@) == source_record(id@, title@, fields.items@),
            record.len() == fields.items.len(),
    {
        let mut record: Vec<&'a str> = Vec::new();
        let mut i: usize = 0;
        while i < fields.items.len()
            invariant
                i <= fields.items.len(),
                record.len() == i,
                forall|k: int|
                    0 <= k < i ==> record@[k]@ == source_record(id@, title@, fields.items@)[k],
            decreases fields.items.len() - i,
        {
            match fields.items[i] {
                SourceField::Id => record.push(id),
                SourceField::Title => record.push(title),
            }
            i += 1;
        }
        assert(record_view(record@) =~= source_record(id@, title@, fields.items@));
        record
    }

    /// The line to show for a record with a single column; a record with more
    /// or fewer columns goes to the table.
    pub fn handle_single_column(record: &Vec<&str>) -> (line: Option<String>)
        ensures
            match line {
                Some(text) => record.len() == 1 && text@ == record@[0]@,
                None => record.len() != 1,
            },
    {
        if record.len() == 1 {
            return Some(record[0].to_owned());
        }
        None
    }

    /// The text of a table, ready to be shown: what its bytes encode, without
    /// white space at either end.
    pub fn print_csv_record(wtr: CsvTable) -> (r: Result<String, CliError>)
        ensures
            match r {
                Ok(text) => valid_utf8(csv_bytes(csv_rows(wtr))) && text@ == table_text(
                    csv_rows(wtr),
                ),
                Err(e) => e is InternalError || (e is InvalidUtf8 && !valid_utf8(
                    csv_bytes(csv_rows(wtr)),
                )),
            },
    {
        let bytes = match csv_finish(wtr) {
            Some(bytes) => bytes,
            None => {
                return Err(CliError::InternalError);
            },
        };
        Self::table_contents(bytes)
    }

    /// The text that the bytes of a table encode, without white space at
    /// either end.
    pub fn table_contents(bytes: Vec<u8>) -> (r: Result<String, CliError>)
        ensures
            match r {
                Ok(text) => valid_utf8(bytes@) && text@ == trimmed(decode_utf8(bytes@)),
                Err(e) => e is InvalidUtf8 && !valid_utf8(bytes@),
            },
    {
        let contents = match utf8_text(bytes) {
            Some(contents) => contents,
            None => {
                return Err(CliError::InvalidUtf8);
            },
        };
        let chars = chars_of(contents.as_str());
        let (a, b) = trim_range(&chars, 0, chars.len());
        assert(chars@.subrange(0, chars.len() as int) =~= chars@);
        Ok(string_of(&chars, a, b))
    }

    /// Lists the notes of the store with the columns `fields`.
    pub fn list_notes(&self, fields: NoteFields) -> (r: Result<Listing, CliError>)
        ensures
            match r {
                Ok(listing) => shows(
                    listing,
                    self.conn@.notes.map_values(
                        |note: NoteView| note_record(note.id, note.title, fields.items@),
                    ),
                    fields.items@.len(),
                ),
                Err(e) => listing_fails(
                    e,
                    self.conn@.notes.map_values(
                        |note: NoteView| note_record(note.id, note.title, fields.items@),
                    ),
                    fields.items@.len(),
                ),
            },
    {
        let ghost records = self.conn@.notes.map_values(
            |note: NoteView| note_record(note.id, note.title, fields.items@),
        );
        let single = fields.items.len() == 1;
        let mut wtr = csv_begin();
        let mut lines: Vec<String> = Vec::new();
        let mut i: usize = 0;
        assert(csv_rows(wtr) =~= Seq::<Seq<Seq<char>>>::empty());
        while i < self.conn.notes.len()
            invariant
                i <= self.conn.notes.len(),
                single == (fields.items@.len() == 1),
                records == self.conn@.notes.map_values(
                    |note: NoteView| note_record(note.id, note.title, fields.items@),
                ),
                single ==> lines.len() == i && csv_rows(wtr).len() == 0 && forall|k: int|
                    0 <= k < i ==> lines@[k]@ == records[k][0],
                !single ==> lines.len() == 0 && csv_rows(wtr) == records.take(i as int),
            decreases self.conn.notes.len() - i,
        {
            let note = &self.conn.notes[i];
            let record = Self::note_item_to_record(note.id.as_str(), note.title.as_str(), &fields);
            assert(record_view(record@) == records[i as int]);
            assert(record.len() == fields.items.len());
            match Self::handle_single_column(&record) {
                Some(line) => {
                    lines.push(line);
                },
                None => {
                    proof {
                        if i > 0 {
                            assert(csv_rows(wtr)[0] == records[0]);
                        }
                    }
                    wtr = match csv_write(wtr, &record) {
                        Some(longer) => longer,
                        None => {
                            return Err(CliError::InternalError);
                        },
                    };
                    assert(csv_rows(wtr) =~= records.take(i + 1));
                },
            }
            i += 1;
        }
        proof {
            if single {
                assert(csv_rows(wtr) =~= Seq::<Seq<Seq<char>>>::empty());
                assert(lines@.map_values(|line: String| line@) =~= records.map_values(
                    |record: Seq<Seq<char>>| record[0],
                ));
            } else {
                assert(records.take(self.conn.notes.len() as int) =~= records);
            }
        }
        match Self::print_csv_record(wtr) {
            Ok(table) => Ok(Listing { lines, table }),
            Err(e) => Err(e),
        }
    }

    /// Lists the sources of the store with the columns `fields`.
    pub fn list_sources(&self, fields: SourceFields) -> (r: Result<Listing, CliError>)
        ensures
            match r {
                Ok(listing) => shows(
                    listing,
                    self.conn@.sources.map_values(
                        |source: SourceView|
                            source_record(source.id, source.title, fields.items@),
                    ),
                    fields.items@.len(),
                ),
                Err(e) => listing_fails(
                    e,
                    self.conn@.sources.map_values(
                        |source: SourceView|
                            source_record(source.id, source.title, fields.items@),
                    ),
                    fields.items@.len(),
                ),
            },
    {
        let ghost records = self.conn@.sources.map_values(
            |source: SourceView|
                source_record(source.id, source.title, fields.items@),
        );
        let single = fields.items.len() == 1;
        let mut wtr = csv_begin();
        let mut lines: Vec<String> = Vec::new();
        let mut i: usize = 0;
        assert(csv_rows(wtr) =~= Seq::<Seq<Seq<char>>>::empty());
        while i < self.conn.sources.len()
            invariant
                i <= self.conn.sources.len(),
                single == (fields.items@.len() == 1),
                records == self.conn@.sources.map_values(
                    |source: SourceView|
                        source_record(source.id, source.title, fields.items@),
                ),
                single ==> lines.len() == i && csv_rows(wtr).len() == 0 && forall|k: int|
                    0 <= k < i ==> lines@[k]@ == records[k][0],
                !single ==> lines.len() == 0 && csv_rows(wtr) == records.take(i as int),
            decreases self.conn.sources.len() - i,
        {
            let source = &self.conn.sources[i];
            let record = Self::source_to_record(
                source.id.as_str(),
                source.title.as_str(),
                &fields,
            );
            assert(record_view(record@) == records[i as int]);
            assert(record.len() == fields.items.len());
            match Self::handle_single_column(&record) {
                Some(line) => {
                    lines.push(line);
                },
                None => {
                    proof {
                        if i > 0 {
                            assert(csv_rows(wtr)[0] == records[0]);
                        }
                    }
                    wtr = match csv_write(wtr, &record) {
                        Some(longer) => longer,
                        None => {
                            return Err(CliError::InternalError);
                        },
                    };
                    assert(csv_rows(wtr) =~= records.take(i + 1));
                },
            }
            i += 1;
        }
        proof {
            if single {
                assert(csv_rows(wtr) =~= Seq::<Seq<Seq<char>>>::empty());
                assert(lines@.map_values(|line: String| line@) =~= records.map_values(
                    |record: Seq<Seq<char>>| record[0],
                ));
            } else {
                assert(records.take(self.conn.sources.len() as int) =~= records);
            }
        }
        match Self::print_csv_record(wtr) {
            Ok(table) => Ok(Listing { lines, table }),
            Err(e) => Err(e),
        }
    }
}

/// The message shown once a note was written to the file at `path`.
pub open spec fn written_message(path: Seq<char>) -> Seq<char> {
    "Note written to "@ + path + " successfuly"@
}

/// What writing out the note with the identifier `id` comes to, in the store
/// `s`: the markdown of the note with the notes and the sources that it refers
/// to, each list in the order of the titles. `None` where the store holds no
/// such note, or where one of its links points at nothing.
pub open spec fn written_out(s: StoreView, id: Seq<char>) -> Option<Seq<char>> {
    match note_with_id(s.notes, id) {
        Some(note) => match (
            notes_with_ids(s.notes, targets_of(s.internal, note.id)),
            sources_with_ids(s.sources, targets_of(s.external, note.id)),
        ) {
            (Some(notes), Some(sources)) => Some(
                rendered(note, notes_by_title(notes), sources_by_title(sources)),
            ),
            _ => None,
        },
        None => None,
    }
}

/// A command with what it is given.
#[derive(Debug)]
pub enum Command {
    AddNote(NoteFromMd),
    ListNotes(NoteFields),
    ListSources(SourceFields),
    GetNote(GetNote),
    UpdateNote(NoteFromMd),
    SetNote(NoteFromMd),
    /// No command, or one that is not known.
    Nothing,
}

/// What a command leaves to be done: a message to show, a listing to show,
/// or a note to write to a file.
#[derive(Debug)]
pub enum Outcome {
    Done(&'static str),
    Listed(Listing),
    Written(Export),
}

impl Controller {
    /// Writes out a note: its markdown, with the notes and the sources that
    /// it refers to in the order of their titles, for the file at the given
    /// path.
    pub fn get_note(&self, get_note: GetNote) -> (r: Result<Export, CliError>)
        ensures
            match r {
                Ok(export) => written_out(self.conn@, get_note.id@) == Some(export.markdown@)
                    && export.path@ == get_note.path@ && export.message@ == written_message(
                    get_note.path@,
                ),
                Err(e) => written_out(self.conn@, get_note.id@) is None && if note_with_id(
                    self.conn@.notes,
                    get_note.id@,
                ) is None {
                    e is NoteNotFound
                } else {
                    e matches CliError::Generic(message) && message@
                        == "Something went wrong, contact the developer"@
                },
            },
    {
        let note = match Note::get_by_id(get_note.id.clone(), &self.conn) {
            Ok(Some(note)) => note,
            _ => {
                return Err(CliError::NoteNotFound);
            },
        };
        let internal = match InternalReference::get_by_note_id(note.id.as_str(), &self.conn) {
            Ok(internal) => internal,
            Err(e) => {
                return Err(CliError::from_db(e));
            },
        };
        let external = match ExternalReference::get_by_note_id(note.id.as_str(), &self.conn) {
            Ok(external) => external,
            Err(e) => {
                return Err(CliError::from_db(e));
            },
        };
        let markdown = note_to_md(note, internal, external);
        let mut message = "Note written to ".to_owned();
        message.append(get_note.path.as_str());
        message.append(" successfuly");
        Ok(Export { path: get_note.path, markdown, message })
    }

    /// Runs a command on the store.
    pub fn handle_command(&mut self, command: Command) -> (r: Result<Outcome, CliError>)
        ensures
            match command {
                Command::AddNote(draft) => exists|fresh_id: Seq<char>|
                    is_identifier(fresh_id) && #[trigger] note_added(
                        old(self).conn@,
                        drafted(draft@, fresh_id),
                        draft@.references,
                        outcome_failure(r),
                        final(self).conn@,
                    ),
                Command::UpdateNote(draft) => exists|fresh_id: Seq<char>|
                    is_identifier(fresh_id) && #[trigger] note_updated(
                        old(self).conn@,
                        drafted(draft@, fresh_id),
                        draft@.references,
                        outcome_failure(r),
                        final(self).conn@,
                    ),
                Command::SetNote(draft) => exists|fresh_id: Seq<char>|
                    is_identifier(fresh_id) && #[trigger] note_set(
                        old(self).conn@,
                        draft@,
                        fresh_id,
                        outcome_failure(r),
                        final(self).conn@,
                    ),
                Command::ListNotes(fields) => final(self).conn@ == old(self).conn@ && match r {
                    Ok(Outcome::Listed(listing)) => shows(
                        listing,
                        old(self).conn@.notes.map_values(
                            |note: NoteView| note_record(note.id, note.title, fields.items@),
                        ),
                        fields.items@.len(),
                    ),
                    Ok(_) => false,
                    Err(e) => listing_fails(
                        e,
                        old(self).conn@.notes.map_values(
                            |note: NoteView| note_record(note.id, note.title, fields.items@),
                        ),
                        fields.items@.len(),
                    ),
                },
                Command::ListSources(fields) => final(self).conn@ == old(self).conn@ && match r {
                    Ok(Outcome::Listed(listing)) => shows(
                        listing,
                        old(self).conn@.sources.map_values(
                            |source: SourceView|
                                source_record(source.id, source.title, fields.items@),
                        ),
                        fields.items@.len(),
                    ),
                    Ok(_) => false,
                    Err(e) => listing_fails(
                        e,
                        old(self).conn@.sources.map_values(
                            |source: SourceView|
                                source_record(source.id, source.title, fields.items@),
                        ),
                        fields.items@.len(),
                    ),
                },
                Command::GetNote(wanted) => final(self).conn@ == old(self).conn@ && match r {
                    Ok(Outcome::Written(export)) => written_out(old(self).conn@, wanted.id@) == Some(
                        export.markdown@,
                    ) && export.path@ == wanted.path@ && export.message@ == written_message(
                        wanted.path@,
                    ),
                    Ok(_) => false,
                    Err(e) => written_out(old(self).conn@, wanted.id@) is None && if note_with_id(
                        old(self).conn@.notes,
                        wanted.id@,
                    ) is None {
                        e is NoteNotFound
                    } else {
                        e matches CliError::Generic(message) && message@
                            == "Something went wrong, contact the developer"@
                    },
                },
                Command::Nothing => r matches Ok(Outcome::Done(message)) && message@.len() == 0
                    && final(self).conn@ == old(self).conn@,
            },
            match command {
                Command::AddNote(_) => r matches Ok(outcome) ==> outcome matches Outcome::Done(
                    message,
                ) && message@ == "Note added successfuly"@,
                Command::UpdateNote(_) => r matches Ok(outcome) ==> outcome matches Outcome::Done(
                    message,
                ) && message@ == "Note updated successfuly"@,
                Command::SetNote(_) => r matches Ok(outcome) ==> outcome matches Outcome::Done(
                    message,
                ) && message@ == "Note set successfuly"@,
                _ => true,
            },
    {
        match command {
            Command::AddNote(draft) => match self.add(draft) {
                Ok(message) => Ok(Outcome::Done(message)),
                Err(e) => Err(e),
            },
            Command::ListNotes(fields) => match self.list_notes(fields) {
                Ok(listing) => Ok(Outcome::Listed(listing)),
                Err(e) => Err(e),
            },
            Command::ListSources(fields) => match self.list_sources(fields) {
                Ok(listing) => Ok(Outcome::Listed(listing)),
                Err(e) => Err(e),
            },
            Command::GetNote(wanted) => match self.get_note(wanted) {
                Ok(export) => Ok(Outcome::Written(export)),
                Err(e) => Err(e),
            },
            Command::UpdateNote(draft) => match self.update(draft) {
                Ok(message) => Ok(Outcome::Done(message)),
                Err(e) => Err(e),
            },
            Command::SetNote(draft) => match self.set(draft) {
                Ok(message) => Ok(Outcome::Done(message)),
                Err(e) => Err(e),
            },
            Command::Nothing => {
                proof {
                    reveal_strlit("");
                }
                Ok(Outcome::Done(""))
            },
        }
    }
}

/// The failure of the outcome of a command.
pub open spec fn outcome_failure(r: Result<Outcome, CliError>) -> Option<CliError> {
    match r {
        Ok(_) => None,
        Err(e) => Some(e),
    }
}

/// Adding a note keeps the store sound: where the rules of the tables hold
/// before a note is added with its references, they hold afterwards, whether
/// the note was added or refused.
pub proof fn law_added_keeps_sound(
    s: StoreView,
    note: NoteView,
    refs: ReferencesView,
    failure: Option<CliError>,
    t: StoreView,
)
    requires
        store_sound(s),
        note_added(s, note, refs, failure, t),
    ensures
        store_sound(t),
{
    if failure is None {
        let u = with_note(s, note);
        lemma_first_at(note_ids(s.notes), note.id);
        lemma_first_at(note_titles(s.notes), note.title);
        assert(notes_sound(u.notes)) by {
            assert forall|i: int, j: int| 0 <= i < j < u.notes.len() implies (
            #[trigger] u.notes[i]).id != (#[trigger] u.notes[j]).id && u.notes[i].title
                != u.notes[j].title by {
                assert(u.notes[i] == s.notes[i]);
                if j < s.notes.len() {
                    assert(u.notes[j] == s.notes[j]);
                } else {
                    assert(note_ids(s.notes)[i] == s.notes[i].id);
                    assert(note_titles(s.notes)[i] == s.notes[i].title);
                }
            }
        }
        let (i, e) = choose|i: Seq<Seq<char>>, e: Seq<(Seq<char>, Seq<char>)>|
            #[trigger] reconciled(u, note.id, refs, i, e) == Ok::<StoreView, Seq<char>>(t);
        law_reconcile_keeps_sound(u, note.id, refs, i, e);
        lemma_reconciled_keeps_notes(u, note.id, refs, i, e);
    }
}

/// Updating a note keeps the store sound: where the rules of the tables hold
/// before a note is updated with its references, they hold afterwards,
/// whether the note was updated or refused.
pub proof fn law_updated_keeps_sound(
    s: StoreView,
    note: NoteView,
    refs: ReferencesView,
    failure: Option<CliError>,
    t: StoreView,
)
    requires
        store_sound(s),
        note_updated(s, note, refs, failure, t),
    ensures
        store_sound(t),
{
    if failure is None {
        let u = after_update(s, note)->Some_0;
        let at = first_at(note_ids(s.notes), note.id)->Some_0;
        lemma_first_at(note_ids(s.notes), note.id);
        assert(note_ids(s.notes)[at] == s.notes[at].id);
        assert(notes_sound(u.notes)) by {
            assert forall|i: int, j: int| 0 <= i < j < u.notes.len() implies (
            #[trigger] u.notes[i]).id != (#[trigger] u.notes[j]).id && u.notes[i].title
                != u.notes[j].title by {
                assert(s.notes[i].id != s.notes[j].id);
                if i != at {
                    assert(u.notes[i] == s.notes[i]);
                }
                if j != at {
                    assert(u.notes[j] == s.notes[j]);
                }
            }
        }
        let v = unlinked(u, note.id);
        lemma_not_owned_sound(u.internal, note.id);
        lemma_not_owned_sound(u.external, note.id);
        let (i, e) = choose|i: Seq<Seq<char>>, e: Seq<(Seq<char>, Seq<char>)>|
            #[trigger] reconciled(v, note.id, refs, i, e) == Ok::<StoreView, Seq<char>>(t);
        law_reconcile_keeps_sound(v, note.id, refs, i, e);
        lemma_reconciled_keeps_notes(v, note.id, refs, i, e);
    }
}

} // verus!
