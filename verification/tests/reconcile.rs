use spark::cli::error::CliError;
use spark::controller::Controller;
use spark::models::external::ExternalReference;
use spark::models::internal::InternalReference;
use spark::models::note::Note;
use spark::models::sources::Source;
use spark::models::store::{Change, Store};
use spark::util::{NoteFromMd, Reference, References};

fn note(id: &str, title: &str) -> Note {
    Note { id: id.to_string(), title: title.to_string(), contents: String::new() }
}

fn refs(internal: Vec<Reference>, external: Vec<Reference>) -> References {
    References { internal, external }
}

fn internal_pairs(store: &Store) -> Vec<(String, String)> {
    store.internal.iter().map(|l| (l.note_id.clone(), l.reference_id.clone())).collect()
}

fn external_pairs(store: &Store) -> Vec<(String, String)> {
    store.external.iter().map(|l| (l.note_id.clone(), l.reference_id.clone())).collect()
}

#[test]
fn reconciling_twice_adds_nothing_more() {
    let mut store = Store::new();
    note("aaaaaa", "First").add(&mut store).unwrap();
    note("bbbbbb", "Second").add(&mut store).unwrap();
    let wanted = refs(
        vec![Reference::ById("bbbbbb".to_string()), Reference::ByTitle("Second".to_string())],
        vec![Reference::ByTitle("A book".to_string()), Reference::ById("src001".to_string())],
    );
    Controller::reconcile(&wanted, "aaaaaa", &mut store).unwrap();
    assert_eq!(internal_pairs(&store), vec![("aaaaaa".to_string(), "bbbbbb".to_string())]);
    assert_eq!(store.sources.len(), 1);
    assert_eq!(store.external.len(), 2);
    let links: Vec<String> = store.internal.iter().map(|l| l.id.clone()).collect();
    let sources: Vec<String> = store.sources.iter().map(|s| s.id.clone()).collect();
    let outward = external_pairs(&store);
    let written = store.changes.len();
    Controller::reconcile(&wanted, "aaaaaa", &mut store).unwrap();
    assert_eq!(store.internal.iter().map(|l| l.id.clone()).collect::<Vec<_>>(), links);
    assert_eq!(store.sources.iter().map(|s| s.id.clone()).collect::<Vec<_>>(), sources);
    assert_eq!(external_pairs(&store), outward);
    assert_eq!(store.changes.len(), written);
}

#[test]
fn a_missing_title_fails_closed() {
    let mut store = Store::new();
    let wanted = refs(vec![Reference::ByTitle("Nonexistent".to_string())], vec![]);
    let r = Controller::reconcile(&wanted, "aaaaaa", &mut store);
    assert!(matches!(r, Err(CliError::ReferenceDoesNotExist(ref t)) if t == "Nonexistent"));
    assert!(store.notes.is_empty());
    assert!(store.sources.is_empty());
    assert!(store.internal.is_empty());
    assert!(store.external.is_empty());
    assert!(store.changes.is_empty());
}

#[test]
fn a_missing_title_undoes_what_came_before_it() {
    let mut store = Store::new();
    note("aaaaaa", "First").add(&mut store).unwrap();
    let written = store.changes.len();
    let wanted = refs(
        vec![Reference::ById("zzzzzz".to_string()), Reference::ByTitle("Nonexistent".to_string())],
        vec![Reference::ByTitle("A book".to_string())],
    );
    let r = Controller::reconcile(&wanted, "aaaaaa", &mut store);
    assert!(matches!(r, Err(CliError::ReferenceDoesNotExist(ref t)) if t == "Nonexistent"));
    assert!(store.internal.is_empty());
    assert!(store.sources.is_empty());
    assert!(store.external.is_empty());
    assert_eq!(store.changes.len(), written);
}

#[test]
fn a_new_source_is_made_once() {
    let mut store = Store::new();
    let wanted = refs(vec![], vec![Reference::ByTitle("New Source".to_string())]);
    Controller::reconcile(&wanted, "aaaaaa", &mut store).unwrap();
    assert_eq!(store.sources.len(), 1);
    assert_eq!(store.sources[0].title, "New Source");
    assert_eq!(store.sources[0].id.chars().count(), 6);
    assert_eq!(store.external.len(), 1);
    assert_eq!(store.external[0].note_id, "aaaaaa");
    assert_eq!(store.external[0].reference_id, store.sources[0].id);
    assert_eq!(store.changes.len(), 2);
    assert!(matches!(&store.changes[0], Change::AddSource(s) if s.title == "New Source"));
    assert!(matches!(&store.changes[1], Change::AddExternal(l) if l.note_id == "aaaaaa"));
}

#[test]
fn a_known_source_is_linked_not_made() {
    let mut store = Store::new();
    Source::new("src001".to_string(), "A book".to_string()).add(&mut store).unwrap();
    let wanted = refs(
        vec![],
        vec![Reference::ByTitle("A book".to_string()), Reference::ByTitle("A book".to_string())],
    );
    Controller::reconcile(&wanted, "aaaaaa", &mut store).unwrap();
    assert_eq!(store.sources.len(), 1);
    assert_eq!(external_pairs(&store), vec![("aaaaaa".to_string(), "src001".to_string())]);
}

#[test]
fn a_dangling_identifier_is_linked() {
    let mut store = Store::new();
    let wanted = refs(vec![Reference::ById("nobody".to_string())], vec![]);
    Controller::reconcile(&wanted, "aaaaaa", &mut store).unwrap();
    assert_eq!(internal_pairs(&store), vec![("aaaaaa".to_string(), "nobody".to_string())]);
}

#[test]
fn one_reference_with_given_identifiers() {
    let mut store = Store::new();
    note("bbbbbb", "Second").add(&mut store).unwrap();
    let by_title = Reference::ByTitle("Second".to_string());
    Controller::add_internal_reference(&by_title, "aaaaaa", "LINK01".to_string(), &mut store)
        .unwrap();
    assert_eq!(store.internal.len(), 1);
    assert_eq!(store.internal[0].id, "LINK01");
    assert_eq!(store.internal[0].reference_id, "bbbbbb");
    let by_id = Reference::ById("bbbbbb".to_string());
    Controller::add_internal_reference(&by_id, "aaaaaa", "LINK02".to_string(), &mut store).unwrap();
    assert_eq!(store.internal.len(), 1);
    let outward = Reference::ByTitle("Paper".to_string());
    Controller::add_external_reference(
        &outward,
        "aaaaaa",
        "SRC001".to_string(),
        "LINK03".to_string(),
        &mut store,
    )
    .unwrap();
    assert_eq!(store.sources[0].id, "SRC001");
    assert_eq!(store.external[0].id, "LINK03");
    assert_eq!(store.external[0].reference_id, "SRC001");
    assert!(InternalReference::exists_link("aaaaaa", "bbbbbb", &store).unwrap());
    assert!(!InternalReference::exists_link("bbbbbb", "aaaaaa", &store).unwrap());
    assert!(ExternalReference::exists_link("aaaaaa", "SRC001", &store).unwrap());
}

fn draft(id: Option<&str>, title: &str, body: &str, references: References) -> NoteFromMd {
    NoteFromMd {
        id: id.map(|s| s.to_string()),
        title: title.to_string(),
        contents: body.to_string(),
        references,
    }
}

#[test]
fn add_update_and_set_a_note() {
    let mut controller = Controller::new(Store::new());
    let first = draft(Some("aaaaaa"), "First", "\nbody", refs(vec![], vec![]));
    assert_eq!(controller.add(first).unwrap(), "Note added successfuly");
    let blank = draft(None, "   ", "", refs(vec![], vec![]));
    assert!(matches!(controller.add(blank), Err(CliError::NoteTitleEmpty)));
    let again = draft(Some("cccccc"), "First", "", refs(vec![], vec![]));
    assert!(matches!(controller.add(again), Err(CliError::Generic(_))));
    let second = draft(
        None,
        "Second",
        "",
        refs(vec![Reference::ByTitle("First".to_string())], vec![]),
    );
    assert_eq!(controller.set(second).unwrap(), "Note set successfuly");
    assert_eq!(controller.conn.notes.len(), 2);
    let second_id = controller.conn.notes[1].id.clone();
    assert_eq!(
        internal_pairs(&controller.conn),
        vec![(second_id.clone(), "aaaaaa".to_string())]
    );
    let changed = draft(
        None,
        "Second",
        "\nnew body",
        refs(vec![], vec![Reference::ByTitle("A book".to_string())]),
    );
    assert_eq!(controller.set(changed).unwrap(), "Note set successfuly");
    assert_eq!(controller.conn.notes.len(), 2);
    assert_eq!(controller.conn.notes[1].contents, "\nnew body");
    assert!(controller.conn.internal.is_empty());
    assert_eq!(controller.conn.external.len(), 1);
    let unknown = draft(Some("zzzzzz"), "Third", "", refs(vec![], vec![]));
    assert!(matches!(controller.update(unknown), Err(CliError::NoteNotFound)));
    let broken = draft(
        Some("aaaaaa"),
        "First again",
        "",
        refs(vec![Reference::ByTitle("Nobody".to_string())], vec![]),
    );
    assert!(matches!(
        controller.update(broken),
        Err(CliError::ReferenceDoesNotExist(ref t)) if t == "Nobody"
    ));
    assert_eq!(controller.conn.notes[0].title, "First");
}

#[test]
fn referred_notes_come_sorted_by_title() {
    let mut store = Store::new();
    note("aaaaaa", "Owner").add(&mut store).unwrap();
    note("zzzzzz", "Zebra").add(&mut store).unwrap();
    note("pppppp", "Apple").add(&mut store).unwrap();
    let wanted = refs(
        vec![Reference::ByTitle("Zebra".to_string()), Reference::ByTitle("Apple".to_string())],
        vec![Reference::ByTitle("b source".to_string()), Reference::ByTitle("a source".to_string())],
    );
    Controller::reconcile(&wanted, "aaaaaa", &mut store).unwrap();
    let notes = InternalReference::get_by_note_id("aaaaaa", &store).unwrap();
    let titles: Vec<&str> = notes.iter().map(|n| n.title.as_str()).collect();
    assert_eq!(titles, vec!["Apple", "Zebra"]);
    let sources = ExternalReference::get_by_note_id("aaaaaa", &store).unwrap();
    let titles: Vec<&str> = sources.iter().map(|s| s.title.as_str()).collect();
    assert_eq!(titles, vec!["a source", "b source"]);
    let md = spark::util::parse::note_to_md(note("aaaaaa", "Owner"), notes, sources);
    let apple = md.find("Apple").unwrap();
    let zebra = md.find("Zebra").unwrap();
    assert!(apple < zebra);
    assert!(md.contains("1. [pppppp] Apple\n2. [zzzzzz] Zebra\n"));
}
