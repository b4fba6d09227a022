use spark::models::note::Note;
use spark::models::sources::Source;
use spark::util::error::UtilError;
use spark::util::parse::{
    body_text, iter_nodes, md_to_new_note, note_to_md, reference_from, Block, MdToNoteParser,
    ParsingStage,
};
use spark::util::{extract_id, find_id, generate_id, id_from_number, Reference};

fn chars(s: &str) -> Vec<char> {
    s.chars().collect()
}

#[test]
fn id_is_extracted_from_the_title() {
    let text = "# [ab12cd] My Note\n".to_string();
    let note = md_to_new_note(text).unwrap();
    assert_eq!(note.id, Some("ab12cd".to_string()));
    assert_eq!(note.title, "My Note");
}

#[test]
fn a_title_without_a_token_has_no_id() {
    let note = md_to_new_note("#   Plain title  \nbody\n".to_string()).unwrap();
    assert_eq!(note.id, None);
    assert_eq!(note.title, "Plain title");
    assert_eq!(note.contents, "\nbody");
}

#[test]
fn stray_text_before_the_internal_section_is_tolerated() {
    let text = "# Title\n## References\nSome stray text\n### Internal\n1. Foo\n".to_string();
    let note = md_to_new_note(text).unwrap();
    assert_eq!(note.title, "Title");
    assert_eq!(note.id, None);
    assert_eq!(note.contents, "");
    // The stray text steps back to the title stage, where the heading of level 3 and the
    // text after it are passed over.
    assert!(note.references.internal.is_empty());
    assert!(note.references.external.is_empty());
}

#[test]
fn stray_text_steps_one_stage_back() {
    let mut parser = MdToNoteParser::default();
    let nodes = vec![
        Block::Heading(1),
        Block::Text("Title".to_string()),
        Block::Heading(2),
        Block::Text("References".to_string()),
    ];
    iter_nodes(&mut parser, &nodes).unwrap();
    assert_eq!(parser.stage, ParsingStage::References);
    parser.handle_current_stage("stray");
    assert_eq!(parser.stage, ParsingStage::Title);

    let mut parser = MdToNoteParser::default();
    parser.stage = ParsingStage::InternalReferences;
    parser.handle_current_stage("stray");
    assert_eq!(parser.stage, ParsingStage::References);
    parser.stage = ParsingStage::InternalReferences;
    parser.handle_current_stage("Internal");
    assert_eq!(parser.stage, ParsingStage::InternalReferenceItems);

    parser.stage = ParsingStage::ExternalReferences;
    parser.handle_current_stage("stray");
    assert_eq!(parser.stage, ParsingStage::InternalReferenceItems);
    parser.handle_current_stage("now a reference");
    assert_eq!(parser.note.references.internal.len(), 1);
    parser.stage = ParsingStage::ExternalReferences;
    parser.handle_current_stage("External");
    assert_eq!(parser.stage, ParsingStage::ExternalReferenceItems);
    parser.handle_current_stage("[src001] A source");
    assert!(matches!(&parser.note.references.external[0], Reference::ById(id) if id == "src001"));
}

#[test]
fn only_the_first_text_is_the_title() {
    let mut parser = MdToNoteParser::default();
    parser.title_stage().unwrap();
    parser.handle_current_stage("[abc123]");
    assert_eq!(parser.note.id, Some("abc123".to_string()));
    assert_eq!(parser.note.title, "");
    parser.handle_current_stage("[def456] body text");
    assert_eq!(parser.note.id, Some("abc123".to_string()));
    assert_eq!(parser.note.title, "");
}

#[test]
fn the_token_is_taken_out_wherever_it_stands() {
    let mut parser = MdToNoteParser::default();
    parser.title_stage().unwrap();
    parser.handle_current_stage("  A [abc123] B [abc123] [zzzzzz] ");
    assert_eq!(parser.note.id, Some("abc123".to_string()));
    assert_eq!(parser.note.title, "A  B  [zzzzzz]");
}

#[test]
fn misplaced_headings_are_refused() {
    assert!(matches!(
        md_to_new_note("# A\n\n# B\n".to_string()),
        Err(UtilError::InvalidNoteMarkdown)
    ));
    assert!(matches!(
        md_to_new_note("## References\n".to_string()),
        Err(UtilError::InvalidNoteMarkdown)
    ));
    assert!(matches!(
        md_to_new_note("# A\n## References\n## References\n".to_string()),
        Err(UtilError::InvalidNoteMarkdown)
    ));
    let mut parser = MdToNoteParser::default();
    assert!(parser.references_stage().is_err());
    assert_eq!(parser.stage, ParsingStage::Start);
    parser.title_stage().unwrap();
    assert!(parser.title_stage().is_err());
    assert_eq!(parser.stage, ParsingStage::Title);
    parser.references_stage().unwrap();
    assert_eq!(parser.stage, ParsingStage::References);
    assert_eq!(
        UtilError::InvalidNoteMarkdown.message(),
        "Error: Invalid note markdown!"
    );
    assert_eq!(UtilError::Generic("other".to_string()).message(), "other");
}

#[test]
fn headings_of_level_three_move_at_two_stages_only() {
    let mut parser = MdToNoteParser::default();
    parser.parse_node(&Block::Heading(3)).unwrap();
    assert_eq!(parser.stage, ParsingStage::Start);
    parser.stage = ParsingStage::References;
    parser.parse_node(&Block::Heading(3)).unwrap();
    assert_eq!(parser.stage, ParsingStage::InternalReferences);
    parser.parse_node(&Block::Heading(3)).unwrap();
    assert_eq!(parser.stage, ParsingStage::InternalReferences);
    parser.stage = ParsingStage::InternalReferenceItems;
    parser.parse_node(&Block::Heading(3)).unwrap();
    assert_eq!(parser.stage, ParsingStage::ExternalReferences);
    parser.parse_node(&Block::Heading(4)).unwrap();
    parser.parse_node(&Block::Other).unwrap();
    assert_eq!(parser.stage, ParsingStage::ExternalReferences);
}

#[test]
fn stages_follow_one_another() {
    let order = [
        ParsingStage::Start,
        ParsingStage::Title,
        ParsingStage::References,
        ParsingStage::InternalReferences,
        ParsingStage::InternalReferenceItems,
        ParsingStage::ExternalReferences,
        ParsingStage::ExternalReferenceItems,
        ParsingStage::Finish,
    ];
    for i in 0..order.len() {
        let mut stage = order[i];
        stage.next();
        assert_eq!(stage, order[(i + 1).min(7)]);
        let mut stage = order[i];
        stage.prev();
        assert_eq!(stage, order[i.saturating_sub(1)]);
    }
    assert_eq!(ParsingStage::default(), ParsingStage::Start);
}

#[test]
fn a_rendered_note_reads_back() {
    let note = Note {
        id: "abc123".to_string(),
        title: "Some title".to_string(),
        contents: "\nfirst line\nsecond line\n".to_string(),
    };
    let md = note_to_md(note, vec![], vec![]);
    assert_eq!(
        md,
        "# [abc123] Some title\nfirst line\nsecond line\n\n## References\n### Internal\n\n### External\n"
    );
    let draft = md_to_new_note(md).unwrap();
    assert_eq!(draft.id, Some("abc123".to_string()));
    assert_eq!(draft.title, "Some title");
    assert_eq!(draft.contents, "\nfirst line\nsecond line\n");
    assert!(draft.references.internal.is_empty());
    assert!(draft.references.external.is_empty());
}

#[test]
fn a_rendered_note_with_references_reads_back() {
    let note = Note {
        id: "abc123".to_string(),
        title: "Note Title".to_string(),
        contents: "\nbody\n".to_string(),
    };
    let internal = vec![
        Note { id: "def456".to_string(), title: "Other Note".to_string(), contents: String::new() },
        Note { id: "jkl012".to_string(), title: "Third".to_string(), contents: String::new() },
    ];
    let external = vec![Source::new("ghi789".to_string(), "Some Source".to_string())];
    let md = note_to_md(note, internal, external);
    assert_eq!(
        md,
        "# [abc123] Note Title\nbody\n\n## References\n### Internal\n1. [def456] Other Note\n2. [jkl012] Third\n\n### External\n - [ghi789] Some Source\n"
    );
    let draft = md_to_new_note(md).unwrap();
    assert_eq!(draft.id, Some("abc123".to_string()));
    assert_eq!(draft.title, "Note Title");
    assert_eq!(draft.contents, "\nbody\n");
    assert_eq!(draft.references.internal.len(), 2);
    assert!(matches!(&draft.references.internal[0], Reference::ById(id) if id == "def456"));
    assert!(matches!(&draft.references.internal[1], Reference::ById(id) if id == "jkl012"));
    assert_eq!(draft.references.external.len(), 1);
    assert!(matches!(&draft.references.external[0], Reference::ById(id) if id == "ghi789"));
}

#[test]
fn list_numbers_are_written_in_decimal() {
    let note = Note { id: "abc123".to_string(), title: "T".to_string(), contents: String::new() };
    let mut internal = Vec::new();
    for i in 0..12 {
        internal.push(Note {
            id: format!("id{:04}", i),
            title: format!("n{}", i),
            contents: String::new(),
        });
    }
    let md = note_to_md(note, internal, vec![]);
    assert!(md.contains("\n9. [id0008] n8\n10. [id0009] n9\n11. [id0010] n10\n12. [id0011] n11\n"));
}

#[test]
fn references_are_read() {
    let text = "# [abc123] T\nbody\n## References\n### Internal\n1. [def456] Other\n2. By Title\n\n### External\n - [ghi789] Src\n - New Source\n".to_string();
    let note = md_to_new_note(text).unwrap();
    assert_eq!(note.contents, "\nbody");
    assert_eq!(note.references.internal.len(), 2);
    assert_eq!(note.references.external.len(), 2);
    assert!(matches!(&note.references.internal[0], Reference::ById(id) if id == "def456"));
    assert!(matches!(&note.references.internal[1], Reference::ByTitle(t) if t == "By Title"));
    assert!(matches!(&note.references.external[0], Reference::ById(id) if id == "ghi789"));
    assert!(matches!(&note.references.external[1], Reference::ByTitle(t) if t == "New Source"));
}

#[test]
fn a_reference_by_title_is_trimmed() {
    assert!(matches!(reference_from(&chars("  Some title \t")), Reference::ByTitle(t) if t == "Some title"));
    assert!(matches!(reference_from(&chars("x [abc_12] y")), Reference::ById(id) if id == "abc_12"));
}

#[test]
fn the_body_stands_between_title_and_references() {
    assert_eq!(body_text("# T\none\ntwo\n## References\nthree\n"), "\none\ntwo");
    assert_eq!(body_text("before\n# T\none\r\ntwo\r\n\n"), "\none\ntwo\n");
    assert_eq!(body_text("# T\none\n  # another title\ntwo"), "\none\ntwo");
    assert_eq!(body_text("## References\n# T\none\n"), "");
    assert_eq!(body_text("no title line\nat all\n"), "");
    assert_eq!(body_text("# T\nlast line\r"), "\nlast line\r");
    assert_eq!(body_text("# T\n# \nx\n   ## References and more\ny"), "\n# \nx");
    assert_eq!(body_text("#\u{a0}T\nx\n"), "");
    assert_eq!(body_text(""), "");
}

#[test]
fn tokens_are_six_word_characters_in_brackets() {
    assert_eq!(extract_id("[ab12cd] My Note"), Some("ab12cd".to_string()));
    assert_eq!(extract_id("x [abcde] [abcdefg] [ab_12Z] [second]"), Some("ab_12Z".to_string()));
    assert_eq!(extract_id("[ab-2cd]"), None);
    assert_eq!(extract_id("[ab 2cd]"), None);
    assert_eq!(extract_id("[abcdef"), None);
    assert_eq!(extract_id("abcdef]"), None);
    assert_eq!(extract_id(""), None);
    assert_eq!(extract_id("[äöüßéñ]"), Some("äöüßéñ".to_string()));
    assert_eq!(extract_id("[[abc123]]"), Some("abc123".to_string()));
    assert_eq!(find_id(&chars("ab[abc123]")), Some(2));
    assert_eq!(find_id(&chars("[abc12!]")), None);
}

#[test]
fn identifiers_are_base_32() {
    assert_eq!(id_from_number(0), "AAAAAA");
    assert_eq!(id_from_number(1), "AEAAAA");
    assert_eq!(id_from_number(-1), "777777");
    assert_eq!(id_from_number(256), "AAAQAA");
}

#[test]
fn generated_ids_are_tokens() {
    for _ in 0..20 {
        let id = generate_id();
        assert_eq!(id.chars().count(), 6);
        assert!(id.chars().all(|c| c.is_ascii_uppercase() || ('2'..='7').contains(&c)));
        assert_eq!(extract_id(&format!("[{}] x", id)), Some(id));
    }
}
