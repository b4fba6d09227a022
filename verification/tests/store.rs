use spark::models::error::DbError;
use spark::models::external::ExternalReference;
use spark::models::internal::InternalReference;
use spark::models::note::{sort_notes_by_title, Note};
use spark::models::sources::{sort_sources_by_title, Source};
use spark::models::store::{Change, Store};
use spark::util::{NoteFromMd, References};

fn a_note(id: &str, title: &str, contents: &str) -> Note {
    Note { id: id.to_string(), title: title.to_string(), contents: contents.to_string() }
}

fn link(id: &str, note: &str, target: &str) -> InternalReference {
    InternalReference::new(id.to_string(), note.to_string(), target.to_string())
}

fn outward(id: &str, note: &str, target: &str) -> ExternalReference {
    ExternalReference::new(id.to_string(), note.to_string(), target.to_string())
}

#[test]
fn constructors_keep_their_arguments() {
    let l = link("l1", "n1", "n2");
    assert_eq!((l.id.as_str(), l.note_id.as_str(), l.reference_id.as_str()), ("l1", "n1", "n2"));
    let e = outward("e1", "n1", "s1");
    assert_eq!((e.id.as_str(), e.note_id.as_str(), e.reference_id.as_str()), ("e1", "n1", "s1"));
    let s = Source::new("s1".to_string(), "Title".to_string());
    assert_eq!((s.id.as_str(), s.title.as_str()), ("s1", "Title"));
}

#[test]
fn notes_are_added_found_and_listed() {
    let mut store = Store::new();
    a_note("n1", "First", "\nbody").add(&mut store).unwrap();
    a_note("n2", "Second", "").add(&mut store).unwrap();
    assert!(Note::exists_by_title("First".to_string(), &store).unwrap());
    assert!(!Note::exists_by_title("first".to_string(), &store).unwrap());
    let found = Note::get_by_title("Second".to_string(), &store).unwrap().unwrap();
    assert_eq!(found.id, "n2");
    assert!(Note::get_by_title("Third".to_string(), &store).unwrap().is_none());
    let found = Note::get_by_id("n1".to_string(), &store).unwrap().unwrap();
    assert_eq!(found.title, "First");
    assert_eq!(found.contents, "\nbody");
    assert!(Note::get_by_id("n3".to_string(), &store).unwrap().is_none());
    let items = Note::list(&store).unwrap();
    let shown: Vec<(&str, &str)> =
        items.iter().map(|i| (i.id.as_str(), i.title.as_str())).collect();
    assert_eq!(shown, vec![("n1", "First"), ("n2", "Second")]);
    assert_eq!(items[1].line(), "n2 | Second");
    assert_eq!(store.changes.len(), 2);
    assert!(matches!(&store.changes[1], Change::AddNote(n) if n.id == "n2"));
}

#[test]
fn the_store_refuses_a_second_note_with_an_id_or_a_title() {
    let mut store = Store::new();
    a_note("n1", "First", "").add(&mut store).unwrap();
    let by_id = a_note("n1", "Other", "").add(&mut store);
    assert!(matches!(by_id, Err(DbError::Generic(ref m)) if m == "UNIQUE constraint failed: notes.id"));
    let by_title = a_note("n2", "First", "").add(&mut store);
    assert!(
        matches!(by_title, Err(DbError::Generic(ref m)) if m == "UNIQUE constraint failed: notes.title")
    );
    assert_eq!(store.notes.len(), 1);
    assert_eq!(store.changes.len(), 1);
    assert_eq!(
        DbError::InternalError.message(),
        "Something went wrong, contact the developer"
    );
    assert_eq!(by_title.unwrap_err().message(), "UNIQUE constraint failed: notes.title");
}

#[test]
fn a_note_is_updated_in_place() {
    let mut store = Store::new();
    a_note("n1", "First", "").add(&mut store).unwrap();
    a_note("n2", "Second", "").add(&mut store).unwrap();
    a_note("n2", "Renamed", "\nnew").update(&mut store).unwrap();
    assert_eq!(store.notes[1].title, "Renamed");
    assert_eq!(store.notes[1].contents, "\nnew");
    assert_eq!(store.notes[0].title, "First");
    assert!(matches!(&store.changes[2], Change::UpdateNote(n) if n.title == "Renamed"));
    a_note("n2", "Renamed", "\nagain").update(&mut store).unwrap();
    assert_eq!(store.notes[1].contents, "\nagain");
    let taken = a_note("n2", "First", "").update(&mut store);
    assert!(matches!(taken, Err(DbError::Generic(_))));
    assert_eq!(store.notes[1].title, "Renamed");
    let written = store.changes.len();
    a_note("n9", "Nobody", "").update(&mut store).unwrap();
    assert_eq!(store.notes.len(), 2);
    assert_eq!(store.changes.len(), written);
}

#[test]
fn sources_are_added_and_found() {
    let mut store = Store::new();
    let made = Source::create("s1".to_string(), "A book".to_string(), &mut store).unwrap();
    assert_eq!(made.id, "s1");
    Source::new("s2".to_string(), "A paper".to_string()).add(&mut store).unwrap();
    let again = Source::create("s3".to_string(), "A book".to_string(), &mut store);
    assert!(
        matches!(again, Err(DbError::Generic(ref m)) if m == "UNIQUE constraint failed: sources.title")
    );
    assert_eq!(store.sources.len(), 2);
    assert_eq!(Source::get_by_id("s2".to_string(), &store).unwrap().unwrap().title, "A paper");
    assert!(Source::get_by_id("s3".to_string(), &store).unwrap().is_none());
    assert_eq!(Source::get_by_title("A book".to_string(), &store).unwrap().unwrap().id, "s1");
    assert!(Source::get_by_title("a book".to_string(), &store).unwrap().is_none());
    let all = Source::list(&store).unwrap();
    assert_eq!(all.iter().map(|s| s.id.as_str()).collect::<Vec<_>>(), vec!["s1", "s2"]);
}

#[test]
fn links_are_added_found_and_deleted() {
    let mut store = Store::new();
    link("l1", "n1", "n2").add(&mut store).unwrap();
    link("l2", "n2", "n1").add(&mut store).unwrap();
    link("l3", "n1", "n3").add(&mut store).unwrap();
    outward("e1", "n1", "s1").add(&mut store).unwrap();
    outward("e2", "n2", "s1").add(&mut store).unwrap();
    assert!(InternalReference::exists_link("n1", "n3", &store).unwrap());
    assert!(!InternalReference::exists_link("n3", "n1", &store).unwrap());
    assert!(ExternalReference::exists_link("n2", "s1", &store).unwrap());
    assert!(!ExternalReference::exists_link("n2", "s2", &store).unwrap());
    let raw = InternalReference::get_by_note_id_raw("n1", &store).unwrap();
    assert_eq!(raw.iter().map(|l| l.id.as_str()).collect::<Vec<_>>(), vec!["l1", "l3"]);
    link("l1", "", "").delete(&mut store).unwrap();
    assert_eq!(store.internal.iter().map(|l| l.id.as_str()).collect::<Vec<_>>(), vec!["l2", "l3"]);
    assert!(matches!(store.changes.last(), Some(Change::DeleteInternal(id)) if id == "l1"));
    InternalReference::delete_by_note_id("n1", &mut store).unwrap();
    assert_eq!(store.internal.iter().map(|l| l.id.as_str()).collect::<Vec<_>>(), vec!["l2"]);
    assert!(matches!(store.changes.last(), Some(Change::ClearInternal(id)) if id == "n1"));
    ExternalReference::delete_by_note_id("n2", &mut store).unwrap();
    assert_eq!(store.external.iter().map(|l| l.id.as_str()).collect::<Vec<_>>(), vec!["e1"]);
    assert!(matches!(store.changes.last(), Some(Change::ClearExternal(id)) if id == "n2"));
}

#[test]
fn a_link_to_nothing_is_an_error_when_read() {
    let mut store = Store::new();
    a_note("n1", "First", "").add(&mut store).unwrap();
    a_note("n2", "Second", "").add(&mut store).unwrap();
    link("l1", "n1", "n2").add(&mut store).unwrap();
    link("l2", "n1", "gone").add(&mut store).unwrap();
    outward("e1", "n2", "gone").add(&mut store).unwrap();
    assert!(matches!(
        InternalReference::get_by_note_id("n1", &store),
        Err(DbError::InternalError)
    ));
    assert!(matches!(
        ExternalReference::get_by_note_id("n2", &store),
        Err(DbError::InternalError)
    ));
    assert!(InternalReference::get_by_note_id("n2", &store).unwrap().is_empty());
    assert!(ExternalReference::get_by_note_id("n1", &store).unwrap().is_empty());
}

#[test]
fn rows_are_sorted_by_title() {
    let notes = vec![
        a_note("n1", "Zebra", ""),
        a_note("n2", "Apple", ""),
        a_note("n3", "apple", ""),
        a_note("n4", "Apple", ""),
    ];
    let sorted = sort_notes_by_title(notes);
    assert_eq!(sorted.iter().map(|n| n.id.as_str()).collect::<Vec<_>>(), vec!["n2", "n4", "n1", "n3"]);
    let sources = vec![
        Source::new("s1".to_string(), "b".to_string()),
        Source::new("s2".to_string(), "a".to_string()),
    ];
    let sorted = sort_sources_by_title(sources);
    assert_eq!(sorted.iter().map(|s| s.id.as_str()).collect::<Vec<_>>(), vec!["s2", "s1"]);
}

#[test]
fn a_store_is_set_up_and_copied() {
    let store = Store::with_rows(
        vec![a_note("n1", "First", "")],
        vec![Source::new("s1".to_string(), "A book".to_string())],
        vec![link("l1", "n1", "n1")],
        vec![outward("e1", "n1", "s1")],
    );
    assert!(store.changes.is_empty());
    let mut copy = store.begin();
    a_note("n2", "Second", "").add(&mut copy).unwrap();
    assert_eq!(store.notes.len(), 1);
    assert_eq!(copy.notes.len(), 2);
    assert_eq!(copy.sources[0].title, "A book");
    assert_eq!(copy.internal[0].id, "l1");
    assert_eq!(copy.external[0].reference_id, "s1");
    assert_eq!(copy.changes.len(), 1);
    assert_eq!(store.note_position_by_id(&"n1".to_string()), Some(0));
    assert_eq!(copy.note_position_by_title(&"Second".to_string()), Some(1));
    assert_eq!(copy.source_position_by_id(&"s1".to_string()), Some(0));
    assert_eq!(copy.source_position_by_title(&"none".to_string()), None);
}

#[test]
fn a_draft_becomes_a_note() {
    let draft = NoteFromMd {
        id: Some("abc123".to_string()),
        title: "T".to_string(),
        contents: "\nb".to_string(),
        references: References::default(),
    };
    let note = Note::from_draft(&draft, "FRESH1".to_string());
    assert_eq!((note.id.as_str(), note.title.as_str(), note.contents.as_str()), ("abc123", "T", "\nb"));
    let draft = NoteFromMd::default();
    assert_eq!(draft.id, None);
    assert_eq!(draft.title, "");
    assert!(draft.references.internal.is_empty());
    let note = Note::from_draft(&draft, "FRESH1".to_string());
    assert_eq!(note.id, "FRESH1");
}

#[test]
fn drafts_and_references_are_copied() {
    let draft = NoteFromMd {
        id: Some("abc123".to_string()),
        title: "T".to_string(),
        contents: "\nb".to_string(),
        references: References {
            internal: vec![spark::util::Reference::ById("def456".to_string())],
            external: vec![spark::util::Reference::ByTitle("A book".to_string())],
        },
    };
    let copy = draft.clone();
    assert_eq!(copy.id, draft.id);
    assert_eq!(copy.title, "T");
    assert_eq!(copy.contents, "\nb");
    assert!(matches!(&copy.references.internal[0], spark::util::Reference::ById(id) if id == "def456"));
    assert!(matches!(&copy.references.external[0], spark::util::Reference::ByTitle(t) if t == "A book"));
    assert_eq!(copy.references.internal.len(), 1);
    assert_eq!(copy.references.external.len(), 1);
}

#[test]
fn the_rules_of_the_tables_hold_after_commands() {
    let mut controller = spark::controller::Controller::new(Store::new());
    for (id, title, refs) in [
        (Some("n1"), "First", vec![]),
        (None, "Second", vec!["First", "First"]),
        (Some("n1"), "First", vec!["Second"]),
        (None, "Second", vec!["Second", "First"]),
        (None, "Third", vec!["Nobody"]),
    ] {
        let draft = NoteFromMd {
            id: id.map(|s| s.to_string()),
            title: title.to_string(),
            contents: String::new(),
            references: References {
                internal: refs.iter().map(|t| spark::util::Reference::ByTitle(t.to_string())).collect(),
                external: refs.iter().map(|t| spark::util::Reference::ByTitle(t.to_string())).collect(),
            },
        };
        let _ = controller.set(draft);
        let store = &controller.conn;
        for i in 0..store.notes.len() {
            for j in 0..i {
                assert_ne!(store.notes[i].id, store.notes[j].id);
                assert_ne!(store.notes[i].title, store.notes[j].title);
            }
        }
        for i in 0..store.sources.len() {
            for j in 0..i {
                assert_ne!(store.sources[i].title, store.sources[j].title);
            }
        }
        for i in 0..store.internal.len() {
            for j in 0..i {
                let (a, b) = (&store.internal[i], &store.internal[j]);
                assert!(a.note_id != b.note_id || a.reference_id != b.reference_id);
            }
        }
        for i in 0..store.external.len() {
            for j in 0..i {
                let (a, b) = (&store.external[i], &store.external[j]);
                assert!(a.note_id != b.note_id || a.reference_id != b.reference_id);
            }
        }
    }
    assert_eq!(controller.conn.notes.len(), 2);
    assert_eq!(controller.conn.sources.len(), 2);
    assert_eq!(controller.conn.internal.len(), 3);
    assert_eq!(controller.conn.external.len(), 3);
}
