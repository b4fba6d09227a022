use vstd::prelude::*;

use crate::models::note::{note_views, Note, NoteView};
use crate::models::sources::{source_views, Source, SourceView};
use crate::util::{
    find_id, id_token, lemma_find_token, NoteFromMd, NoteFromMdView, Reference, ReferencesView,
    ReferenceView,
};
use crate::util::error::UtilError;
use crate::util::text::{
    chars_of, decimal, lines, lines_from, next_line, push_decimal, push_range,
    range_starts_with, remove_all, same_chars, starts_with, string_of, trim_range, trimmed,
    without,
};

verus! {

/// Where the reading of a note stands. The stages follow one another in the
/// order in which they are written here.
#[derive(PartialEq, Eq, Structural, Debug, Clone, Copy)]
pub enum ParsingStage {
    Start,
    Title,
    References,
    InternalReferences,
    InternalReferenceItems,
    ExternalReferences,
    ExternalReferenceItems,
    Finish,
}

impl ParsingStage {
    /// The stage after this one; `Finish` stays.
    pub open spec fn successor(self) -> ParsingStage {
        match self {
            ParsingStage::Start => ParsingStage::Title,
            ParsingStage::Title => ParsingStage::References,
            ParsingStage::References => ParsingStage::InternalReferences,
            ParsingStage::InternalReferences => ParsingStage::InternalReferenceItems,
            ParsingStage::InternalReferenceItems => ParsingStage::ExternalReferences,
            ParsingStage::ExternalReferences => ParsingStage::ExternalReferenceItems,
            ParsingStage::ExternalReferenceItems => ParsingStage::Finish,
            ParsingStage::Finish => ParsingStage::Finish,
        }
    }

    /// The stage before this one; `Start` stays.
    pub open spec fn predecessor(self) -> ParsingStage {
        match self {
            ParsingStage::Finish => ParsingStage::ExternalReferenceItems,
            ParsingStage::ExternalReferenceItems => ParsingStage::ExternalReferences,
            ParsingStage::ExternalReferences => ParsingStage::InternalReferenceItems,
            ParsingStage::InternalReferenceItems => ParsingStage::InternalReferences,
            ParsingStage::InternalReferences => ParsingStage::References,
            ParsingStage::References => ParsingStage::Title,
            ParsingStage::Title => ParsingStage::Start,
            ParsingStage::Start => ParsingStage::Start,
        }
    }

    /// Moves one stage forward.
    pub fn next(&mut self)
        ensures
            *final(self) == old(self).successor(),
    {
        *self = match self {
            Self::Start => Self::Title,
            Self::Title => Self::References,
            Self::References => Self::InternalReferences,
            Self::InternalReferences => Self::InternalReferenceItems,
            Self::InternalReferenceItems => Self::ExternalReferences,
            Self::ExternalReferences => Self::ExternalReferenceItems,
            Self::ExternalReferenceItems => Self::Finish,
            Self::Finish => Self::Finish,
        };
    }

    /// Moves one stage back.
    pub fn prev(&mut self)
        ensures
            *final(self) == old(self).predecessor(),
    {
        *self = match self {
            Self::Finish => Self::ExternalReferenceItems,
            Self::ExternalReferenceItems => Self::ExternalReferences,
            Self::ExternalReferences => Self::InternalReferenceItems,
            Self::InternalReferenceItems => Self::InternalReferences,
            Self::InternalReferences => Self::References,
            Self::References => Self::Title,
            Self::Title => Self::Start,
            Self::Start => Self::Start,
        };
    }
}

impl Default for ParsingStage {
    fn default() -> (stage: Self)
        ensures
            stage == ParsingStage::Start,
    {
        ParsingStage::Start
    }
}

/// One node of a markdown document, as far as a note's shape depends on it: a
/// heading with its level, a run of text, or anything else.
#[derive(Debug)]
pub enum Block {
    Heading(u8),
    Text(String),
    Other,
}

/// A node as a value.
pub enum BlockView {
    Heading(u8),
    Text(Seq<char>),
    Other,
}

impl View for Block {
    type V = BlockView;

    open spec fn view(&self) -> BlockView {
        match self {
            Block::Heading(level) => BlockView::Heading(*level),
            Block::Text(text) => BlockView::Text(text@),
            Block::Other => BlockView::Other,
        }
    }
}

/// The views of a sequence of nodes.
pub open spec fn block_views(blocks: Seq<Block>) -> Seq<BlockView> {
    blocks.map_values(|b: Block| b@)
}

/// The state of a reader: the draft gathered so far, the stage, and whether the
/// title has been read.
pub struct ParserView {
    pub note: NoteFromMdView,
    pub stage: ParsingStage,
    pub titled: bool,
}

/// The bracketed token that holds `id`.
pub open spec fn bracketed(id: Seq<char>) -> Seq<char> {
    seq!['['] + id + seq![']']
}

/// The title that a run of text gives: the text without its identifier token,
/// wherever that token occurs, and without white space at either end.
pub open spec fn title_of(text: Seq<char>) -> Seq<char> {
    match id_token(text) {
        Some(id) => trimmed(without(text, bracketed(id))),
        None => trimmed(text),
    }
}

/// The reference that a run of text gives: by the identifier in its first
/// token, or else by title, which is the text without white space at either
/// end.
pub open spec fn reference_of(text: Seq<char>) -> ReferenceView {
    match id_token(text) {
        Some(id) => ReferenceView::ById(id),
        None => ReferenceView::ByTitle(trimmed(text)),
    }
}

/// `p` at another stage.
pub open spec fn at_stage(p: ParserView, stage: ParsingStage) -> ParserView {
    ParserView { stage, ..p }
}

/// `p` with one more reference to a note.
pub open spec fn with_internal(p: ParserView, r: ReferenceView) -> ParserView {
    ParserView {
        note: NoteFromMdView {
            references: ReferencesView {
                internal: p.note.references.internal.push(r),
                ..p.note.references
            },
            ..p.note
        },
        ..p
    }
}

/// `p` with one more reference to a source.
pub open spec fn with_external(p: ParserView, r: ReferenceView) -> ParserView {
    ParserView {
        note: NoteFromMdView {
            references: ReferencesView {
                external: p.note.references.external.push(r),
                ..p.note.references
            },
            ..p.note
        },
        ..p
    }
}

/// The state after a run of text.
///
/// At `Title` the first run gives the title and the identifier; later runs are
/// passed over. At `References`, `InternalReferences` and `ExternalReferences`
/// the marker of the section is expected: `Internal` and `External` open their
/// lists, and any other text moves one stage back. At the two list stages each
/// run is one reference.
pub open spec fn after_text(p: ParserView, text: Seq<char>) -> ParserView {
    match p.stage {
        ParsingStage::Title => if p.titled {
            p
        } else {
            ParserView {
                note: NoteFromMdView { id: id_token(text), title: title_of(text), ..p.note },
                titled: true,
                ..p
            }
        },
        ParsingStage::References => if text == "References"@ {
            p
        } else {
            at_stage(p, ParsingStage::Title)
        },
        ParsingStage::InternalReferences => if text == "Internal"@ {
            at_stage(p, ParsingStage::InternalReferenceItems)
        } else {
            at_stage(p, ParsingStage::References)
        },
        ParsingStage::InternalReferenceItems => with_internal(p, reference_of(text)),
        ParsingStage::ExternalReferences => if text == "External"@ {
            at_stage(p, ParsingStage::ExternalReferenceItems)
        } else {
            at_stage(p, ParsingStage::InternalReferenceItems)
        },
        ParsingStage::ExternalReferenceItems => with_external(p, reference_of(text)),
        _ => p,
    }
}

/// The state after a heading of the given level, or `None` where the heading
/// is not allowed: a heading of level 1 anywhere but at `Start`, one of level 2
/// anywhere but at `Title`.
pub open spec fn after_heading(p: ParserView, level: u8) -> Option<ParserView> {
    if level == 1 {
        if p.stage == ParsingStage::Start {
            Some(at_stage(p, ParsingStage::Title))
        } else {
            None
        }
    } else if level == 2 {
        if p.stage == ParsingStage::Title {
            Some(at_stage(p, ParsingStage::References))
        } else {
            None
        }
    } else if level == 3 && (p.stage == ParsingStage::References || p.stage
        == ParsingStage::InternalReferenceItems) {
        Some(at_stage(p, p.stage.successor()))
    } else {
        Some(p)
    }
}

/// The state after one node, or `None` where the node is a heading that is not
/// allowed.
pub open spec fn after_block(p: ParserView, block: BlockView) -> Option<ParserView> {
    match block {
        BlockView::Heading(level) => after_heading(p, level),
        BlockView::Text(text) => Some(after_text(p, text)),
        BlockView::Other => Some(p),
    }
}

/// The state after the nodes of `blocks`, taken in order, or `None` if one of
/// them is a heading that is not allowed.
pub open spec fn after_blocks(p: ParserView, blocks: Seq<BlockView>) -> Option<ParserView>
    decreases blocks.len(),
{
    if blocks.len() == 0 {
        Some(p)
    } else {
        match after_block(p, blocks[0]) {
            Some(q) => after_blocks(q, blocks.drop_first()),
            None => None,
        }
    }
}

/// Reads a note from the nodes of its markdown, one node at a time.
#[derive(Debug)]
pub struct MdToNoteParser {
    pub note: NoteFromMd,
    pub stage: ParsingStage,
    pub titled: bool,
}

impl View for MdToNoteParser {
    type V = ParserView;

    open spec fn view(&self) -> ParserView {
        ParserView { note: self.note@, stage: self.stage, titled: self.titled }
    }
}

/// The state in which reading starts: an empty draft at `Start`.
pub open spec fn initial_parser() -> ParserView {
    ParserView { note: crate::util::empty_note(), stage: ParsingStage::Start, titled: false }
}

impl Default for MdToNoteParser {
    fn default() -> (parser: Self)
        ensures
            parser@ == initial_parser(),
    {
        MdToNoteParser { note: NoteFromMd::default(), stage: ParsingStage::Start, titled: false }
    }
}

/// The reference that a run of text gives.
pub fn reference_from(v: &Vec<char>) -> (r: Reference)
    ensures
        r@ == reference_of(v@),
{
    match find_id(v) {
        Some(i) => Reference::ById(string_of(v, i + 1, i + 7)),
        None => {
            let (a, b) = trim_range(v, 0, v.len());
            assert(v@.subrange(0, v.len() as int) =~= v@);
            Reference::ByTitle(string_of(v, a, b))
        },
    }
}

impl MdToNoteParser {
    /// A heading of level 1: allowed at `Start` only, where it opens the title.
    pub fn title_stage(&mut self) -> (r: Result<(), UtilError>)
        ensures
            match r {
                Ok(_) => old(self).stage == ParsingStage::Start && final(self)@ == at_stage(
                    old(self)@,
                    ParsingStage::Title,
                ),
                Err(e) => old(self).stage != ParsingStage::Start && e is InvalidNoteMarkdown
                    && final(self)@ == old(self)@,
            },
    {
        if self.stage != ParsingStage::Start {
            return Err(UtilError::InvalidNoteMarkdown);
        }
        self.stage.next();
        Ok(())
    }

    /// A heading of level 2: allowed at `Title` only, where it opens the
    /// references.
    pub fn references_stage(&mut self) -> (r: Result<(), UtilError>)
        ensures
            match r {
                Ok(_) => old(self).stage == ParsingStage::Title && final(self)@ == at_stage(
                    old(self)@,
                    ParsingStage::References,
                ),
                Err(e) => old(self).stage != ParsingStage::Title && e is InvalidNoteMarkdown
                    && final(self)@ == old(self)@,
            },
    {
        if self.stage != ParsingStage::Title {
            return Err(UtilError::InvalidNoteMarkdown);
        }
        self.stage.next();
        Ok(())
    }

    /// A run of text, read as the stage asks.
    pub fn handle_current_stage(&mut self, text: &str)
        ensures
            final(self)@ == after_text(old(self)@, text@),
    {
        let v = chars_of(text);
        match self.stage {
            ParsingStage::Title => {
                if !self.titled {
                    match find_id(&v) {
                        Some(i) => {
                            let token = chars_of(string_of(&v, i, i + 8).as_str());
                            let rest = remove_all(&v, &token);
                            let (a, b) = trim_range(&rest, 0, rest.len());
                            proof {
                                lemma_find_token(v@, 0);
                                assert(token@ =~= bracketed(v@.subrange(i + 1, i + 7)));
                                assert(rest@.subrange(0, rest.len() as int) =~= rest@);
                            }
                            self.note.title = string_of(&rest, a, b);
                            self.note.id = Some(string_of(&v, i + 1, i + 7));
                        },
                        None => {
                            let (a, b) = trim_range(&v, 0, v.len());
                            assert(v@.subrange(0, v.len() as int) =~= v@);
                            self.note.title = string_of(&v, a, b);
                            self.note.id = None;
                        },
                    }
                    self.titled = true;
                }
            },
            ParsingStage::References => {
                if same_chars(&v, &chars_of("References")) {
                    return;
                }
                self.stage.prev()
            },
            ParsingStage::InternalReferences => {
                if same_chars(&v, &chars_of("Internal")) {
                    self.stage.next();
                    return;
                }
                self.stage.prev()
            },
            ParsingStage::InternalReferenceItems => {
                let reference = reference_from(&v);
                self.note.references.internal.push(reference);
                assert(self@.note.references.internal =~= old(self)@.note.references.internal.push(
                    reference@,
                ));
            },
            ParsingStage::ExternalReferences => {
                if same_chars(&v, &chars_of("External")) {
                    self.stage.next();
                    return;
                }
                self.stage.prev()
            },
            ParsingStage::ExternalReferenceItems => {
                let reference = reference_from(&v);
                self.note.references.external.push(reference);
                assert(self@.note.references.external =~= old(self)@.note.references.external.push(
                    reference@,
                ));
            },
            _ => (),
        }
    }

    /// One node of the document: a heading moves the stage or is refused, a run
    /// of text is read as the stage asks, anything else is passed over.
    pub fn parse_node(&mut self, node: &Block) -> (r: Result<(), UtilError>)
        ensures
            match r {
                Ok(_) => after_block(old(self)@, node@) == Some(final(self)@),
                Err(e) => after_block(old(self)@, node@) is None && e is InvalidNoteMarkdown
                    && final(self)@ == old(self)@,
            },
    {
        match node {
            Block::Heading(level) => {
                if *level == 1 {
                    self.title_stage()
                } else if *level == 2 {
                    self.references_stage()
                } else {
                    if *level == 3 && (self.stage == ParsingStage::References || self.stage
                        == ParsingStage::InternalReferenceItems) {
                        self.stage.next();
                    }
                    Ok(())
                }
            },
            Block::Text(text) => {
                self.handle_current_stage(text.as_str());
                Ok(())
            },
            Block::Other => Ok(()),
        }
    }
}

/// The body gathered from `lines`, where `adding` says whether the title line
/// has been passed. A line that begins with `# `, white space at its ends
/// aside, is passed over and opens the body; one that begins with
/// `## References` ends the reading; every other line of the body is taken
/// whole, with a line feed before it.
pub open spec fn body_from(lines: Seq<Seq<char>>, adding: bool) -> Seq<char>
    decreases lines.len(),
{
    if lines.len() == 0 {
        Seq::empty()
    } else if starts_with(trimmed(lines[0]), "# "@) {
        body_from(lines.drop_first(), true)
    } else if starts_with(trimmed(lines[0]), "## References"@) {
        Seq::empty()
    } else if adding {
        seq!['\n'] + lines[0] + body_from(lines.drop_first(), true)
    } else {
        body_from(lines.drop_first(), false)
    }
}

/// The body of a note's markdown: the lines after the title line and before
/// the references.
pub open spec fn body_of(text: Seq<char>) -> Seq<char> {
    body_from(lines(text), false)
}

/// The body of a note's markdown.
pub fn body_text(text: &str) -> (body: String)
    ensures
        body@ == body_of(text@),
{
    let v = chars_of(text);
    let title_mark = chars_of("# ");
    let end_mark = chars_of("## References");
    let mut body = String::new();
    let mut adding = false;
    let mut pos: usize = 0;
    assert(body@ + body_from(lines_from(v@, 0), false) =~= body_of(v@));
    while pos < v.len()
        invariant
            pos <= v.len(),
            v@ == text@,
            title_mark@ == "# "@,
            end_mark@ == "## References"@,
            body_of(v@) == body@ + body_from(lines_from(v@, pos as int), adding),
        decreases v.len() - pos,
    {
        let (end, next) = next_line(&v, pos);
        let (a, b) = trim_range(&v, pos, end);
        let ghost line = v@.subrange(pos as int, end as int);
        let ghost rest = lines_from(v@, next as int);
        assert((seq![line] + rest)[0] == line);
        assert((seq![line] + rest).drop_first() =~= rest);
        if range_starts_with(&v, a, b, &title_mark) {
            adding = true;
        } else if range_starts_with(&v, a, b, &end_mark) {
            assert(body@ + Seq::<char>::empty() =~= body@);
            return body;
        } else if adding {
            let ghost before = body@;
            body.push('\n');
            push_range(&mut body, &v, pos, end);
            assert(before + (seq!['\n'] + line + body_from(rest, true)) =~= before.push('\n') + line
                + body_from(rest, true));
        }
        pos = next;
    }
    assert(body@ + Seq::<char>::empty() =~= body@);
    body
}

/// What `comrak` makes of a markdown text: the nodes of its document tree,
/// each parent before its children and the children in order.
pub uninterp spec fn markdown_of(text: Seq<char>) -> Seq<BlockView>;

/// Parses `text` with `comrak::parse_document` under the default options, and
/// walks the tree with `descendants`, which gives every node, a parent before
/// its children. A heading is kept with its level, a text node with its text.
#[verifier::external_body]
fn document_blocks(text: &str) -> (blocks: Vec<Block>)
    ensures
        block_views(blocks@) == markdown_of(text@),
{
    let arena = comrak::Arena::new();
    let root = comrak::parse_document(&arena, text, &comrak::Options::default());
    root.descendants().map(
        |node| match &node.data.borrow().value {
            comrak::nodes::NodeValue::Heading(heading) => Block::Heading(heading.level),
            comrak::nodes::NodeValue::Text(text) => Block::Text(text.to_string()),
            _ => Block::Other,
        },
    ).collect()
}

/// Hands the nodes to the reader one by one, and stops at the first that it
/// refuses.
pub fn iter_nodes(parser: &mut MdToNoteParser, nodes: &Vec<Block>) -> (r: Result<(), UtilError>)
    ensures
        match r {
            Ok(_) => after_blocks(old(parser)@, block_views(nodes@)) == Some(final(parser)@),
            Err(e) => after_blocks(old(parser)@, block_views(nodes@)) is None
                && e is InvalidNoteMarkdown,
        },
{
    let ghost all = block_views(nodes@);
    let mut i: usize = 0;
    assert(all.subrange(0, all.len() as int) =~= all);
    while i < nodes.len()
        invariant
            i <= nodes.len(),
            all == block_views(nodes@),
            after_blocks(old(parser)@, all) == after_blocks(
                parser@,
                all.subrange(i as int, all.len() as int),
            ),
        decreases nodes.len() - i,
    {
        let ghost rest = all.subrange(i as int, all.len() as int);
        assert(rest[0] == nodes@[i as int]@);
        assert(rest.drop_first() =~= all.subrange(i + 1, all.len() as int));
        match parser.parse_node(&nodes[i]) {
            Ok(_) => {},
            Err(e) => {
                return Err(e);
            },
        }
        i += 1;
    }
    Ok(())
}

/// The draft that a reader in state `p` makes of a document with the nodes
/// `blocks` and the text `text`: what the nodes give, and the body of the text.
/// `None` if a heading is not allowed where it stands.
pub open spec fn parsed_from(p: ParserView, blocks: Seq<BlockView>, text: Seq<char>) -> Option<
    NoteFromMdView,
> {
    match after_blocks(p, blocks) {
        Some(q) => Some(NoteFromMdView { contents: body_of(text), ..q.note }),
        None => None,
    }
}

/// The draft read from a document with the nodes `blocks` and the text `text`.
pub open spec fn parsed(blocks: Seq<BlockView>, text: Seq<char>) -> Option<NoteFromMdView> {
    parsed_from(initial_parser(), blocks, text)
}

impl MdToNoteParser {
    /// Sets the body of the draft to the body of `text`.
    pub fn extract_contents(&mut self, text: String)
        ensures
            final(self)@ == (ParserView {
                note: NoteFromMdView { contents: body_of(text@), ..old(self)@.note },
                ..old(self)@
            }),
    {
        self.note.contents = body_text(text.as_str());
    }

    /// Reads a note from `text`, whose nodes are `nodes`.
    pub fn parse_blocks(self, nodes: &Vec<Block>, text: String) -> (r: Result<
        NoteFromMd,
        UtilError,
    >)
        ensures
            match r {
                Ok(note) => parsed_from(self@, block_views(nodes@), text@) == Some(note@),
                Err(e) => parsed_from(self@, block_views(nodes@), text@) is None
                    && e is InvalidNoteMarkdown,
            },
    {
        let mut parser = self;
        match iter_nodes(&mut parser, nodes) {
            Ok(_) => {},
            Err(e) => {
                return Err(e);
            },
        }
        parser.extract_contents(text);
        Ok(parser.note)
    }

    /// Reads a note from the markdown `text`.
    pub fn parse(self, text: String) -> (r: Result<NoteFromMd, UtilError>)
        ensures
            match r {
                Ok(note) => parsed_from(self@, markdown_of(text@), text@) == Some(note@),
                Err(e) => parsed_from(self@, markdown_of(text@), text@) is None
                    && e is InvalidNoteMarkdown,
            },
    {
        let nodes = document_blocks(text.as_str());
        self.parse_blocks(&nodes, text)
    }
}

/// Reads a new note from the markdown `text`.
pub fn md_to_new_note(text: String) -> (r: Result<NoteFromMd, UtilError>)
    ensures
        match r {
            Ok(note) => parsed(markdown_of(text@), text@) == Some(note@),
            Err(e) => parsed(markdown_of(text@), text@) is None && e is InvalidNoteMarkdown,
        },
{
    let parser = MdToNoteParser::default();
    parser.parse(text)
}

/// The numbered list of the notes that a note refers to, counted from 1.
pub open spec fn internal_list(items: Seq<NoteView>) -> Seq<char>
    decreases items.len(),
{
    if items.len() == 0 {
        Seq::empty()
    } else {
        internal_list(items.drop_last()) + decimal(items.len()) + ". ["@ + items.last().id + "] "@
            + items.last().title + "\n"@
    }
}

/// The bulleted list of the sources that a note refers to.
pub open spec fn external_list(items: Seq<SourceView>) -> Seq<char>
    decreases items.len(),
{
    if items.len() == 0 {
        Seq::empty()
    } else {
        external_list(items.drop_last()) + " - ["@ + items.last().id + "] "@ + items.last().title
            + "\n"@
    }
}

/// The markdown of a note with the notes and the sources that it refers to,
/// each list in the order given.
pub open spec fn rendered(note: NoteView, internal: Seq<NoteView>, external: Seq<SourceView>) -> Seq<
    char,
> {
    "# ["@ + note.id + "] "@ + note.title + note.contents + "\n## References\n### Internal\n"@
        + internal_list(internal) + "\n### External\n"@ + external_list(external)
}

/// Writes a note as markdown, with the notes and the sources that it refers
/// to, each list in the order given.
pub fn note_to_md(note: Note, internal: Vec<Note>, external: Vec<Source>) -> (md: String)
    ensures
        md@ == rendered(note@, note_views(internal@), source_views(external@)),
{
    let mut md = String::new();
    md.append("# [");
    md.append(note.id.as_str());
    md.append("] ");
    md.append(note.title.as_str());
    md.append(note.contents.as_str());
    md.append("\n## References\n### Internal\n");
    let ghost head = md@;
    assert(head =~= "# ["@ + note.id@ + "] "@ + note.title@ + note.contents@
        + "\n## References\n### Internal\n"@);
    let ghost notes = note_views(internal@);
    let mut i: usize = 0;
    assert(notes.take(0) =~= Seq::<NoteView>::empty());
    while i < internal.len()
        invariant
            i <= internal.len(),
            notes == note_views(internal@),
            md@ == head + internal_list(notes.take(i as int)),
        decreases internal.len() - i,
    {
        let ghost before = md@;
        let ghost done = notes.take(i as int);
        let ghost now = notes.take(i + 1);
        assert(now.drop_last() =~= done);
        assert(now.last() == internal@[i as int]@);
        push_decimal(&mut md, i + 1);
        md.append(". [");
        md.append(internal[i].id.as_str());
        md.append("] ");
        md.append(internal[i].title.as_str());
        md.append("\n");
        assert(md@ =~= head + (internal_list(done) + decimal(now.len()) + ". ["@ + now.last().id
            + "] "@ + now.last().title + "\n"@));
        i += 1;
    }
    assert(notes.take(internal.len() as int) =~= notes);
    md.append("\n### External\n");
    let ghost middle = md@;
    let ghost sources = source_views(external@);
    let mut j: usize = 0;
    assert(sources.take(0) =~= Seq::<SourceView>::empty());
    while j < external.len()
        invariant
            j <= external.len(),
            sources == source_views(external@),
            md@ == middle + external_list(sources.take(j as int)),
        decreases external.len() - j,
    {
        let ghost done = sources.take(j as int);
        let ghost now = sources.take(j + 1);
        assert(now.drop_last() =~= done);
        assert(now.last() == external@[j as int]@);
        md.append(" - [");
        md.append(external[j].id.as_str());
        md.append("] ");
        md.append(external[j].title.as_str());
        md.append("\n");
        assert(md@ =~= middle + (external_list(done) + " - ["@ + now.last().id + "] "@
            + now.last().title + "\n"@));
        j += 1;
    }
    assert(sources.take(external.len() as int) =~= sources);
    assert(md@ =~= rendered(note@, notes, sources));
    md
}

} // verus!
