use vstd::prelude::*;

use crate::models::note::NoteView;
use crate::models::sources::SourceView;
use crate::util::{
    base32_char, find_token, id_token, is_identifier, token_at, word_char, NoteFromMdView,
    ReferencesView,
};
use crate::util::parse::{
    after_block, after_blocks, after_text, body_from, body_of, bracketed, initial_parser,
    parsed, rendered, title_of, BlockView, ParserView, ParsingStage,
};
use crate::util::text::{
    lemma_line_end, line_end, lines, lines_from, starts_with, strip_cr, trim_end, trim_start,
    trimmed, white_space, without,
};

verus! {

/// Whether `s` holds a line feed.
pub open spec fn has_line_feed(s: Seq<char>) -> bool {
    exists|i: int| 0 <= i < s.len() && s[i] == '\n'
}

/// The lines `ls`, each with a line feed before it.
pub open spec fn joined(ls: Seq<Seq<char>>) -> Seq<char>
    decreases ls.len(),
{
    if ls.len() == 0 {
        Seq::empty()
    } else {
        seq!['\n'] + ls[0] + joined(ls.drop_first())
    }
}

/// A line that a body can hold and give back: it has no line feed and no
/// carriage return at its end, and it does not read as the title line or as
/// the heading of the references.
pub open spec fn body_line(l: Seq<char>) -> bool {
    &&& !has_line_feed(l)
    &&& !(l.len() > 0 && l.last() == '\r')
    &&& !starts_with(trimmed(l), "# "@)
    &&& !starts_with(trimmed(l), "## References"@)
}

/// Behind a prefix, a line ends where it ends without the prefix.
proof fn lemma_line_end_shift(p: Seq<char>, s: Seq<char>, k: int)
    requires
        0 <= k <= s.len(),
    ensures
        line_end(p + s, p.len() + k) == p.len() + line_end(s, k),
    decreases s.len() - k,
{
    if k < s.len() {
        assert((p + s)[p.len() + k] == s[k]);
        if s[k] != '\n' {
            lemma_line_end_shift(p, s, k + 1);
        }
    }
}

/// Behind a prefix, the lines are those of the text without the prefix.
proof fn lemma_lines_shift(p: Seq<char>, s: Seq<char>, k: int)
    requires
        0 <= k <= s.len(),
    ensures
        lines_from(p + s, p.len() + k) == lines_from(s, k),
    decreases s.len() - k,
{
    if k < s.len() {
        lemma_line_end_shift(p, s, k);
        lemma_line_end(s, k);
        let end = line_end(s, k);
        assert((p + s).subrange(p.len() + k, p.len() + end) =~= s.subrange(k, end));
        assert((p + s).subrange(p.len() + k, (p + s).len() as int) =~= s.subrange(
            k,
            s.len() as int,
        ));
        if end < s.len() {
            lemma_lines_shift(p, s, end + 1);
        }
    }
}

/// A line without a line feed, followed by one, ends at that line feed.
proof fn lemma_line_end_plain(a: Seq<char>, rest: Seq<char>, k: int)
    requires
        !has_line_feed(a),
        0 <= k <= a.len(),
    ensures
        line_end(a + seq!['\n'] + rest, k) == a.len(),
    decreases a.len() - k,
{
    let s = a + seq!['\n'] + rest;
    if k < a.len() {
        assert(s[k] == a[k]);
        lemma_line_end_plain(a, rest, k + 1);
    } else {
        assert(s[k] == '\n');
    }
}

/// The lines of a text that begins with a line `a` and a line feed are `a`,
/// without a carriage return at its end, and the lines of the rest.
proof fn lemma_lines_after_first(a: Seq<char>, rest: Seq<char>)
    requires
        !has_line_feed(a),
    ensures
        lines(a + seq!['\n'] + rest) == seq![strip_cr(a)] + lines(rest),
{
    let s = a + seq!['\n'] + rest;
    lemma_line_end_plain(a, rest, 0);
    assert(s.subrange(0, a.len() as int) =~= a);
    lemma_lines_shift(a + seq!['\n'], rest, 0);
    assert((a + seq!['\n']) + rest =~= s);
}

/// What is left of `s` without the white space at its end is a beginning of
/// `s` that reaches beyond every character that is not white space.
proof fn lemma_trim_end_prefix(s: Seq<char>, k: int)
    requires
        0 <= k < s.len(),
        !white_space(s[k]),
    ensures
        k < trim_end(s).len() <= s.len(),
        trim_end(s) == s.subrange(0, trim_end(s).len() as int),
    decreases s.len(),
{
    if white_space(s.last()) {
        lemma_trim_end_prefix(s.drop_last(), k);
        let t = trim_end(s.drop_last());
        assert(s.drop_last().subrange(0, t.len() as int) =~= s.subrange(0, t.len() as int));
    } else {
        assert(s.subrange(0, s.len() as int) =~= s);
    }
}

/// What stands between the body and the end of a note without references.
pub open spec fn references_part() -> Seq<char> {
    "## References\n### Internal\n"@ + "\n### External\n"@
}

/// The lines `ls`, each with a line feed behind it, and then `end`.
pub open spec fn block(ls: Seq<Seq<char>>, end: Seq<char>) -> Seq<char>
    decreases ls.len(),
{
    if ls.len() == 0 {
        end
    } else {
        ls[0] + seq!['\n'] + block(ls.drop_first(), end)
    }
}

/// Lines with line feeds before them, then a line feed and `end`, are a line
/// feed and the block of the lines and `end`.
proof fn lemma_joined_block(ls: Seq<Seq<char>>, end: Seq<char>)
    ensures
        joined(ls) + seq!['\n'] + end == seq!['\n'] + block(ls, end),
    decreases ls.len(),
{
    if ls.len() == 0 {
        assert(joined(ls) + seq!['\n'] + end =~= seq!['\n'] + end);
    } else {
        lemma_joined_block(ls.drop_first(), end);
        assert(joined(ls) + seq!['\n'] + end =~= seq!['\n'] + ls[0] + (joined(ls.drop_first())
            + seq!['\n'] + end));
        assert(seq!['\n'] + ls[0] + (seq!['\n'] + block(ls.drop_first(), end)) =~= seq!['\n']
            + block(ls, end));
    }
}

/// The body ends where the references begin.
proof fn lemma_references_part_ends_body(adding: bool)
    ensures
        body_from(lines(references_part()), adding) == Seq::<char>::empty(),
{
    reveal_strlit("## References\n### Internal\n");
    reveal_strlit("\n### External\n");
    reveal_strlit("## References");
    reveal_strlit("# ");
    let head = "## References"@;
    let rest = "### Internal\n"@ + "\n### External\n"@;
    reveal_strlit("### Internal\n");
    assert(references_part() =~= head + seq!['\n'] + rest);
    assert(!has_line_feed(head)) by {
        assert forall|i: int| 0 <= i < head.len() implies head[i] != '\n' by {}
    }
    lemma_lines_after_first(head, rest);
    assert(strip_cr(head) == head);
    assert(!white_space(head[0]));
    assert(trim_start(head) == head);
    assert(!white_space(head.last()));
    assert(trimmed(head) == head);
    assert(head.subrange(0, head.len() as int) =~= head);
    assert(starts_with(head, "## References"@));
    assert(head.subrange(0, 2)[1] != "# "@[1]);
    assert(!starts_with(head, "# "@));
    let all = seq![head] + lines(rest);
    assert(all[0] == head);
}

/// The body of a block of body lines before the references is those lines.
proof fn lemma_block_body(ls: Seq<Seq<char>>)
    requires
        forall|i: int| 0 <= i < ls.len() ==> body_line(#[trigger] ls[i]),
    ensures
        body_from(lines(block(ls, references_part())), true) == joined(ls),
    decreases ls.len(),
{
    if ls.len() == 0 {
        lemma_references_part_ends_body(true);
    } else {
        let l = ls[0];
        let rest = block(ls.drop_first(), references_part());
        assert(body_line(l));
        assert forall|i: int| 0 <= i < ls.drop_first().len() implies body_line(
            #[trigger] ls.drop_first()[i],
        ) by {
            assert(ls.drop_first()[i] == ls[i + 1]);
        }
        lemma_block_body(ls.drop_first());
        lemma_lines_after_first(l, rest);
        let all = seq![l] + lines(rest);
        assert(strip_cr(l) == l);
        assert(all[0] == l);
        assert(all.drop_first() =~= lines(rest));
    }
}

/// The body of a note comes back from its markdown: where a note has no
/// references, no line feed in its identifier or title, and a body made of
/// lines that each stand behind a line feed and read neither as the title line
/// nor as the heading of the references, the body found in the rendered note
/// is the note's body.
pub proof fn law_body_reads_back(id: Seq<char>, title: Seq<char>, body: Seq<Seq<char>>)
    requires
        !has_line_feed(id),
        !has_line_feed(title),
        forall|i: int| 0 <= i < body.len() ==> body_line(#[trigger] body[i]),
    ensures
        body_of(
            rendered(
                NoteView { id, title, contents: joined(body) },
                Seq::<NoteView>::empty(),
                Seq::<SourceView>::empty(),
            ),
        ) == joined(body),
{
    reveal_strlit("# [");
    reveal_strlit("] ");
    reveal_strlit("\n## References\n### Internal\n");
    reveal_strlit("## References\n### Internal\n");
    reveal_strlit("\n### External\n");
    reveal_strlit("# ");
    let note = NoteView { id, title, contents: joined(body) };
    let text = rendered(note, Seq::<NoteView>::empty(), Seq::<SourceView>::empty());
    let head = "# ["@ + id + "] "@ + title;
    assert("\n## References\n### Internal\n"@ =~= seq!['\n'] + "## References\n### Internal\n"@);
    assert(text =~= head + (joined(body) + seq!['\n'] + references_part()));
    lemma_joined_block(body, references_part());
    let rest = block(body, references_part());
    assert(text =~= head + seq!['\n'] + rest);
    assert(!has_line_feed(head)) by {
        if has_line_feed(head) {
            let i = choose|i: int| 0 <= i < head.len() && head[i] == '\n';
            if i < 3 {
            } else if i < 3 + id.len() {
                assert(id[i - 3] == '\n');
            } else if i < 5 + id.len() {
            } else {
                assert(title[i - 5 - id.len()] == '\n');
            }
        }
    }
    lemma_lines_after_first(head, rest);
    let first = strip_cr(head);
    assert(first.len() >= 3 && first[0] == '#' && first[1] == ' ' && first[2] == '[') by {
        assert(head[0] == '#' && head[1] == ' ' && head[2] == '[');
        if head.last() == '\r' {
            assert(head.len() >= 4);
        }
    }
    assert(trim_start(first) == first);
    lemma_trim_end_prefix(first, 2);
    let cut = trimmed(first);
    assert(cut.subrange(0, 2) =~= "# "@);
    assert(starts_with(cut, "# "@));
    let all = seq![first] + lines(rest);
    assert(all[0] == first);
    assert(all.drop_first() =~= lines(rest));
    lemma_block_body(body);
}

/// The same of a draft: whatever the nodes of the rendered note are, a draft
/// read from them and from the rendered note has the note's body.
pub proof fn law_rendered_body_reads_back(
    id: Seq<char>,
    title: Seq<char>,
    body: Seq<Seq<char>>,
    blocks: Seq<BlockView>,
)
    requires
        !has_line_feed(id),
        !has_line_feed(title),
        forall|i: int| 0 <= i < body.len() ==> body_line(#[trigger] body[i]),
    ensures
        parsed(
            blocks,
            rendered(
                NoteView { id, title, contents: joined(body) },
                Seq::<NoteView>::empty(),
                Seq::<SourceView>::empty(),
            ),
        ) matches Some(draft) ==> draft.contents == joined(body),
{
    law_body_reads_back(id, title, body);
}

/// Every character of an identifier is a word character.
proof fn lemma_identifier_is_word(id: Seq<char>)
    requires
        is_identifier(id),
    ensures
        forall|k: int| 0 <= k < 6 ==> word_char(#[trigger] id[k]),
{
    assert forall|k: int| 0 <= k < 6 implies word_char(#[trigger] id[k]) by {
        assert(base32_char(id[k]));
    }
}

/// The text of a title line, as a note's markdown has it: the identifier in
/// brackets, a space, and the title.
pub open spec fn heading_text(id: Seq<char>, title: Seq<char>) -> Seq<char> {
    bracketed(id) + seq![' '] + title
}

/// The identifier and the title come back from the text of the title line:
/// where the identifier is made of six word characters, and the title has no
/// white space at its ends and does not hold the identifier in brackets, the
/// text gives that identifier and that title.
pub proof fn law_heading_reads_back(id: Seq<char>, title: Seq<char>)
    requires
        id.len() == 6,
        forall|k: int| 0 <= k < 6 ==> word_char(#[trigger] id[k]),
        trimmed(title) == title,
        without(title, bracketed(id)) == title,
    ensures
        id_token(heading_text(id, title)) == Some(id),
        title_of(heading_text(id, title)) == title,
{
    let token = bracketed(id);
    let text = heading_text(id, title);
    assert(token.len() == 8);
    assert forall|k: int| 0 < k < 7 implies word_char(#[trigger] text[k]) by {
        assert(text[k] == id[k - 1]);
    }
    assert(token_at(text, 0));
    assert(find_token(text, 0) == Some(0int));
    assert(text.subrange(1, 7) =~= id);
    assert(text.subrange(0, 8) =~= token);
    assert(starts_with(text, token));
    let rest = text.subrange(8, text.len() as int);
    assert(rest =~= seq![' '] + title);
    assert(without(text, token) == without(rest, token));
    assert(!starts_with(rest, token)) by {
        if starts_with(rest, token) {
            assert(rest.subrange(0, 8)[0] == token[0]);
        }
    }
    assert(rest.drop_first() =~= title);
    assert(without(rest, token) =~= rest) by {
        if rest.len() >= 8 {
            assert(without(rest, token) == seq![rest[0]] + without(title, token));
            assert(seq![rest[0]] + title =~= rest);
        }
    }
    assert(white_space(' '));
    assert(trim_start(rest) == trim_start(title));
}

/// The identifiers that the library makes come back: the text of a title line
/// with an identifier of the library's shape gives that identifier, and the
/// title where it has no white space at its ends and does not hold the
/// identifier in brackets.
pub proof fn law_identifier_reads_back(id: Seq<char>, title: Seq<char>)
    requires
        is_identifier(id),
        trimmed(title) == title,
        without(title, bracketed(id)) == title,
    ensures
        id_token(heading_text(id, title)) == Some(id),
        title_of(heading_text(id, title)) == title,
{
    lemma_identifier_is_word(id);
    law_heading_reads_back(id, title);
}

/// The state at `Title` once the title has been read.
pub open spec fn titled_at(note: NoteFromMdView, stage: ParsingStage) -> ParserView {
    ParserView { note, stage, titled: true }
}

/// Whether none of `blocks` is a heading.
pub open spec fn no_heading(blocks: Seq<BlockView>) -> bool {
    forall|i: int| 0 <= i < blocks.len() ==> !((#[trigger] blocks[i]) is Heading)
}

/// The nodes of two sequences are read one sequence after the other.
proof fn lemma_after_blocks_add(p: ParserView, a: Seq<BlockView>, b: Seq<BlockView>)
    ensures
        after_blocks(p, a + b) == match after_blocks(p, a) {
            Some(q) => after_blocks(q, b),
            None => None,
        },
    decreases a.len(),
{
    if a.len() == 0 {
        assert(a + b =~= b);
    } else {
        assert((a + b)[0] == a[0]);
        assert((a + b).drop_first() =~= a.drop_first() + b);
        match after_block(p, a[0]) {
            Some(q) => {
                lemma_after_blocks_add(q, a.drop_first(), b);
            },
            None => {},
        }
    }
}

/// Once the title has been read, nodes that are no headings change nothing at
/// `Title`.
proof fn lemma_body_blocks_pass(p: ParserView, blocks: Seq<BlockView>)
    requires
        p.stage == ParsingStage::Title,
        p.titled,
        no_heading(blocks),
    ensures
        after_blocks(p, blocks) == Some(p),
    decreases blocks.len(),
{
    if blocks.len() > 0 {
        assert(!(blocks[0] is Heading));
        assert forall|i: int| 0 <= i < blocks.drop_first().len() implies !((
        #[trigger] blocks.drop_first()[i]) is Heading) by {
            assert(blocks.drop_first()[i] == blocks[i + 1]);
        }
        lemma_body_blocks_pass(p, blocks.drop_first());
    }
}

/// The nodes of a note without references: the title line, the nodes of the
/// body, and the headings of the three sections with their words.
pub open spec fn plain_note_blocks(heading: Seq<char>, body: Seq<BlockView>) -> Seq<BlockView> {
    seq![BlockView::Heading(1), BlockView::Text(heading)] + body + seq![
        BlockView::Heading(2),
        BlockView::Text("References"@),
        BlockView::Heading(3),
        BlockView::Text("Internal"@),
        BlockView::Heading(3),
        BlockView::Text("External"@),
    ]
}

/// A note without references comes back from its nodes and its markdown:
/// where the nodes are those of a title line, of a body without headings and
/// of the three sections, and the identifier, the title and the body are such
/// that the title line and the body read back, the draft has that identifier,
/// that title and that body, and no references.
pub proof fn law_plain_note_reads_back(
    id: Seq<char>,
    title: Seq<char>,
    body: Seq<Seq<char>>,
    body_blocks: Seq<BlockView>,
)
    requires
        id.len() == 6,
        forall|k: int| 0 <= k < 6 ==> word_char(#[trigger] id[k]),
        !has_line_feed(id),
        !has_line_feed(title),
        trimmed(title) == title,
        without(title, bracketed(id)) == title,
        forall|i: int| 0 <= i < body.len() ==> body_line(#[trigger] body[i]),
        no_heading(body_blocks),
    ensures
        parsed(
            plain_note_blocks(heading_text(id, title), body_blocks),
            rendered(
                NoteView { id, title, contents: joined(body) },
                Seq::<NoteView>::empty(),
                Seq::<SourceView>::empty(),
            ),
        ) == Some(
            NoteFromMdView {
                id: Some(id),
                title,
                contents: joined(body),
                references: ReferencesView { internal: Seq::empty(), external: Seq::empty() },
            },
        ),
{
    law_heading_reads_back(id, title);
    law_body_reads_back(id, title, body);
    let heading = heading_text(id, title);
    let first = seq![BlockView::Heading(1), BlockView::Text(heading)];
    let last = seq![
        BlockView::Heading(2),
        BlockView::Text("References"@),
        BlockView::Heading(3),
        BlockView::Text("Internal"@),
        BlockView::Heading(3),
        BlockView::Text("External"@),
    ];
    let start = initial_parser();
    let note = NoteFromMdView { id: Some(id), title, ..start.note };
    let at_title = titled_at(note, ParsingStage::Title);
    assert(after_blocks(start, first) == Some(at_title)) by {
        reveal_with_fuel(after_blocks, 3);
        let one = ParserView { stage: ParsingStage::Title, ..start };
        assert(first[0] == BlockView::Heading(1));
        assert(after_block(start, first[0]) == Some(one));
        assert(first.drop_first()[0] == BlockView::Text(heading));
        assert(first.drop_first().drop_first().len() == 0);
        assert(after_text(one, heading) == at_title);
        assert(after_block(one, first.drop_first()[0]) == Some(at_title));
    }
    lemma_body_blocks_pass(at_title, body_blocks);
    let end = titled_at(note, ParsingStage::ExternalReferenceItems);
    assert(after_blocks(at_title, last) == Some(end)) by {
        reveal_with_fuel(after_blocks, 8);
        let l1 = last.drop_first();
        let l2 = l1.drop_first();
        let l3 = l2.drop_first();
        let l4 = l3.drop_first();
        let l5 = l4.drop_first();
        let l6 = l5.drop_first();
        assert(l1[0] == BlockView::Text("References"@));
        assert(l2[0] == BlockView::Heading(3));
        assert(l3[0] == BlockView::Text("Internal"@));
        assert(l4[0] == BlockView::Heading(3));
        assert(l5[0] == BlockView::Text("External"@));
        assert(l6.len() == 0);
    }
    lemma_after_blocks_add(start, first, body_blocks);
    lemma_after_blocks_add(start, first + body_blocks, last);
}

} // verus!
