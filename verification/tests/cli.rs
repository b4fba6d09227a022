use spark::cli::error::CliError;
use spark::cli::subcommands::{GetNote, NoteField, NoteFields, SourceField, SourceFields};
use spark::cli::{parse_i32, DefaultParser, ParseArgs};
use spark::controller::{Command, Controller, Outcome};
use spark::models::error::DbError;
use spark::models::internal::InternalReference;
use spark::models::note::Note;
use spark::models::sources::Source;
use spark::models::store::Store;
use spark::util::error::UtilError;
use spark::util::{NoteFromMd, Reference, References};

fn chars(s: &str) -> Vec<char> {
    s.chars().collect()
}

fn a_store() -> Store {
    let mut store = Store::new();
    for (id, title) in [("n1", "First"), ("n2", "Second, with a comma")] {
        Note { id: id.to_string(), title: title.to_string(), contents: "\nbody".to_string() }
            .add(&mut store)
            .unwrap();
    }
    Source::new("s1".to_string(), "A book".to_string()).add(&mut store).unwrap();
    store
}

#[test]
fn columns_follow_the_flags() {
    assert_eq!(NoteFields::default().items, vec![NoteField::Id, NoteField::Title]);
    assert_eq!(NoteFields::from_flags(false, false).items, vec![NoteField::Id, NoteField::Title]);
    assert_eq!(NoteFields::from_flags(true, false).items, vec![NoteField::Id]);
    assert_eq!(NoteFields::from_flags(false, true).items, vec![NoteField::Title]);
    assert_eq!(NoteFields::from_flags(true, true).items, vec![NoteField::Id, NoteField::Title]);
    assert_eq!(SourceFields::default().items, vec![SourceField::Id, SourceField::Title]);
    assert_eq!(SourceFields::from_flags(false, false).items, vec![SourceField::Id, SourceField::Title]);
    assert_eq!(SourceFields::from_flags(true, false).items, vec![SourceField::Id]);
    assert_eq!(SourceFields::from_flags(false, true).items, vec![SourceField::Title]);
    assert_eq!(SourceFields::from_flags(true, true).items, vec![SourceField::Id, SourceField::Title]);
}

#[test]
fn records_follow_the_columns() {
    let fields = NoteFields { items: vec![NoteField::Title, NoteField::Id, NoteField::Title] };
    assert_eq!(Controller::note_item_to_record("n1", "First", &fields), vec!["First", "n1", "First"]);
    let fields = SourceFields { items: vec![SourceField::Id] };
    assert_eq!(Controller::source_to_record("s1", "A book", &fields), vec!["s1"]);
    assert_eq!(Controller::handle_single_column(&vec!["only"]), Some("only".to_string()));
    assert_eq!(Controller::handle_single_column(&vec!["a", "b"]), None);
    assert_eq!(Controller::handle_single_column(&Vec::new()), None);
}

#[test]
fn a_listing_with_two_columns_is_a_table() {
    let controller = Controller::new(a_store());
    let listing = controller.list_notes(NoteFields::default()).unwrap();
    assert!(listing.lines.is_empty());
    assert_eq!(listing.table, "n1,First\nn2,\"Second, with a comma\"");
    let listing = controller.list_sources(SourceFields::default()).unwrap();
    assert!(listing.lines.is_empty());
    assert_eq!(listing.table, "s1,A book");
}

#[test]
fn a_listing_with_one_column_is_made_of_lines() {
    let controller = Controller::new(a_store());
    let listing = controller.list_notes(NoteFields::from_flags(false, true)).unwrap();
    assert_eq!(listing.lines, vec!["First", "Second, with a comma"]);
    assert_eq!(listing.table, "");
    let listing = controller.list_sources(SourceFields::from_flags(true, false)).unwrap();
    assert_eq!(listing.lines, vec!["s1"]);
    assert_eq!(listing.table, "");
    let empty = Controller::new(Store::new());
    let listing = empty.list_notes(NoteFields::default()).unwrap();
    assert!(listing.lines.is_empty());
    assert_eq!(listing.table, "");
}

#[test]
fn the_text_of_a_table_is_trimmed() {
    assert_eq!(Controller::table_contents(b" a,b\nc,d\n\n".to_vec()).unwrap(), "a,b\nc,d");
    assert_eq!(Controller::table_contents(Vec::new()).unwrap(), "");
    assert_eq!(Controller::table_contents("é,ü\n".as_bytes().to_vec()).unwrap(), "é,ü");
    assert!(matches!(
        Controller::table_contents(vec![b'a', 0xff, b'b']),
        Err(CliError::InvalidUtf8)
    ));
}

#[test]
fn a_note_is_written_out_with_what_it_refers_to() {
    let mut store = a_store();
    let wanted = References {
        internal: vec![Reference::ByTitle("Second, with a comma".to_string())],
        external: vec![Reference::ByTitle("A book".to_string())],
    };
    Controller::reconcile(&wanted, "n1", &mut store).unwrap();
    let controller = Controller::new(store);
    let export = controller
        .get_note(GetNote { id: "n1".to_string(), path: "out/note.md".to_string() })
        .unwrap();
    assert_eq!(export.path, "out/note.md");
    assert_eq!(export.message, "Note written to out/note.md successfuly");
    assert_eq!(
        export.markdown,
        "# [n1] First\nbody\n## References\n### Internal\n1. [n2] Second, with a comma\n\n### External\n - [s1] A book\n"
    );
    let missing = controller.get_note(GetNote { id: "n9".to_string(), path: "x".to_string() });
    assert!(matches!(missing, Err(CliError::NoteNotFound)));
}

#[test]
fn writing_out_fails_on_a_link_to_nothing() {
    let mut store = a_store();
    InternalReference::new("l1".to_string(), "n1".to_string(), "gone".to_string())
        .add(&mut store)
        .unwrap();
    let controller = Controller::new(store);
    let r = controller.get_note(GetNote { id: "n1".to_string(), path: "x".to_string() });
    assert!(
        matches!(r, Err(CliError::Generic(ref m)) if m == "Something went wrong, contact the developer")
    );
}

#[test]
fn commands_are_run() {
    let mut controller = Controller::new(a_store());
    let draft = NoteFromMd {
        id: None,
        title: "Third".to_string(),
        contents: String::new(),
        references: References {
            internal: vec![Reference::ById("n1".to_string())],
            external: vec![],
        },
    };
    let r = controller.handle_command(Command::AddNote(draft)).unwrap();
    assert!(matches!(r, Outcome::Done("Note added successfuly")));
    assert_eq!(controller.conn.notes.len(), 3);
    let third = controller.conn.notes[2].id.clone();
    assert_eq!(third.chars().count(), 6);
    assert_eq!(controller.conn.internal[0].note_id, third);

    let draft = NoteFromMd {
        id: Some(third.clone()),
        title: "Third, renamed".to_string(),
        contents: "\nx".to_string(),
        references: References::default(),
    };
    let r = controller.handle_command(Command::UpdateNote(draft)).unwrap();
    assert!(matches!(r, Outcome::Done("Note updated successfuly")));
    assert_eq!(controller.conn.notes[2].title, "Third, renamed");
    assert!(controller.conn.internal.is_empty());

    let draft = NoteFromMd {
        id: Some("n4".to_string()),
        title: "Fourth".to_string(),
        contents: String::new(),
        references: References::default(),
    };
    let r = controller.handle_command(Command::SetNote(draft)).unwrap();
    assert!(matches!(r, Outcome::Done("Note set successfuly")));
    assert_eq!(controller.conn.notes[3].id, "n4");

    let r = controller.handle_command(Command::ListNotes(NoteFields::from_flags(true, false)));
    assert!(matches!(r, Ok(Outcome::Listed(ref l)) if l.lines.len() == 4 && l.lines[3] == "n4"));
    let r = controller.handle_command(Command::ListSources(SourceFields::default()));
    assert!(matches!(r, Ok(Outcome::Listed(ref l)) if l.table == "s1,A book"));
    let wanted = GetNote { id: "n4".to_string(), path: "p".to_string() };
    let r = controller.handle_command(Command::GetNote(wanted));
    assert!(matches!(r, Ok(Outcome::Written(ref e)) if e.markdown.starts_with("# [n4] Fourth")));
    let r = controller.handle_command(Command::Nothing);
    assert!(matches!(r, Ok(Outcome::Done(""))));
    let blank = NoteFromMd::default();
    let r = controller.handle_command(Command::AddNote(blank));
    assert!(matches!(r, Err(CliError::NoteTitleEmpty)));
}

#[test]
fn arguments_of_the_get_command() {
    let r = GetNote::from_args(Some("n1".to_string()), Some("p".to_string())).unwrap();
    assert_eq!((r.id.as_str(), r.path.as_str()), ("n1", "p"));
    assert!(matches!(GetNote::from_args(None, Some("p".to_string())), Err(CliError::InternalError)));
    assert!(matches!(GetNote::from_args(Some("n".to_string()), None), Err(CliError::InternalError)));
}

#[test]
fn values_of_arguments() {
    let given = "value".to_string();
    assert_eq!(DefaultParser::parse_option_string(Some(&given)), Some("value".to_string()));
    assert_eq!(DefaultParser::parse_option_string(None), None);
    assert_eq!(DefaultParser::parse_option(Some(&true)), Some(true));
    assert_eq!(DefaultParser::parse_option::<i32>(None), None);
    assert_eq!(DefaultParser::parse_vector_int(Some(vec![&1, &-2, &3])), Some(vec![1, -2, 3]));
    assert_eq!(DefaultParser::parse_vector_int(None), None);
    assert_eq!(DefaultParser::parse_nullable_string(None), None);
    assert_eq!(DefaultParser::parse_nullable_string(Some(" - ".to_string())), Some(None));
    assert_eq!(
        DefaultParser::parse_nullable_string(Some(" x ".to_string())),
        Some(Some(" x ".to_string()))
    );
    assert_eq!(
        DefaultParser::parse_nullable_string(Some("--".to_string())),
        Some(Some("--".to_string()))
    );
    assert_eq!(NoteFields::parse_nullable_string(Some("-".to_string())), Some(None));
}

#[test]
fn whole_numbers_with_bounds() {
    assert!(matches!(DefaultParser::parse_nullable_int(None, 0, 10), Ok(None)));
    assert!(matches!(DefaultParser::parse_nullable_int(Some("-".to_string()), 0, 10), Ok(Some(None))));
    assert!(matches!(DefaultParser::parse_nullable_int(Some("7".to_string()), 0, 10), Ok(Some(Some(7)))));
    assert!(matches!(DefaultParser::parse_nullable_int(Some("10".to_string()), 0, 10), Ok(Some(Some(10)))));
    assert!(matches!(DefaultParser::parse_nullable_int(Some("0".to_string()), 0, 10), Ok(Some(Some(0)))));
    assert!(matches!(
        DefaultParser::parse_nullable_int(Some("11".to_string()), 0, 10),
        Err(CliError::InvalidArguments)
    ));
    assert!(matches!(
        DefaultParser::parse_nullable_int(Some("-1".to_string()), 0, 10),
        Err(CliError::InvalidArguments)
    ));
    assert!(matches!(
        DefaultParser::parse_nullable_int(Some(" 7".to_string()), 0, 10),
        Err(CliError::InvalidDigit)
    ));
    assert!(matches!(
        DefaultParser::parse_nullable_int(Some("seven".to_string()), 0, 10),
        Err(CliError::InvalidDigit)
    ));
}

#[test]
fn whole_numbers_are_read_as_the_standard_library_reads_them() {
    for text in [
        "0", "7", "-7", "+7", "007", "-0", "2147483647", "2147483648", "-2147483648",
        "-2147483649", "99999999999999999999999", "", "-", "+", "--1", "+-1", "1-", "1 ", " 1",
        "1_000", "0x10", "١٢", "12a", "-2147483647", "+2147483647", "+2147483648",
    ] {
        assert_eq!(parse_i32(&chars(text)), text.parse::<i32>().ok());
    }
}

#[test]
fn errors_have_their_messages() {
    assert_eq!(CliError::CannotInteract.message(), "Cannot interact with user!");
    assert_eq!(CliError::CannotReadUserInput.message(), "Cannot read user input!");
    assert_eq!(CliError::InvalidArguments.message(), "Invalid arguments");
    assert_eq!(CliError::InvalidDigit.message(), "Invalid digit");
    assert_eq!(CliError::InvalidUtf8.message(), "Invalid utf-8 found in note!");
    assert_eq!(CliError::CannotOpenFile("gone".to_string()).message(), "Cannot open file: gone");
    assert_eq!(
        CliError::NoteNotFound.message(),
        "Note with provided id not found, or id not provided"
    );
    assert_eq!(
        CliError::InvalidReference.message(),
        "Provided reference must have either title or id"
    );
    assert_eq!(
        CliError::ReferenceDoesNotExist("X".to_string()).message(),
        "Reference with provided title: X does not exist."
    );
    assert_eq!(CliError::InternalError.message(), "Internal error - contact the developer");
    assert_eq!(CliError::ObjectNotFound.message(), "Object with provided id doesn't exist!");
    assert_eq!(CliError::NoteTitleEmpty.message(), "The title of note cannot be empty!");
    assert_eq!(CliError::Generic("as given".to_string()).message(), "as given");
    assert_eq!(
        CliError::from_db(DbError::InternalError).message(),
        "Something went wrong, contact the developer"
    );
    assert_eq!(CliError::from_db(DbError::Generic("db".to_string())).message(), "db");
    assert_eq!(
        CliError::from_util(UtilError::InvalidNoteMarkdown).message(),
        "Error: Invalid note markdown!"
    );
    assert_eq!(CliError::from_util(UtilError::Generic("u".to_string())).message(), "u");
}

#[test]
fn columns_and_commands_are_copied() {
    let fields = NoteFields::from_flags(false, true);
    assert_eq!(fields.clone().items, vec![NoteField::Title]);
    let fields = SourceFields::default();
    assert_eq!(fields.clone().items, vec![SourceField::Id, SourceField::Title]);
    let wanted = GetNote { id: "n1".to_string(), path: "p".to_string() };
    let copy = wanted.clone();
    assert_eq!((copy.id.as_str(), copy.path.as_str()), ("n1", "p"));
}
