use vstd::prelude::*;

use crate::util::text::{chars_of, string_of};

pub mod error;
pub mod parse;
pub mod roundtrip;
pub mod text;

verus! {

/// A reference as a note's markdown gives it: by the identifier of its target,
/// or by the target's title.
#[derive(Debug)]
pub enum Reference {
    ById(String),
    ByTitle(String),
}

/// A reference as a value.
pub enum ReferenceView {
    ById(Seq<char>),
    ByTitle(Seq<char>),
}

impl View for Reference {
    type V = ReferenceView;

    open spec fn view(&self) -> ReferenceView {
        match self {
            Reference::ById(id) => ReferenceView::ById(id@),
            Reference::ByTitle(title) => ReferenceView::ByTitle(title@),
        }
    }
}

impl Clone for Reference {
    fn clone(&self) -> (copy: Self)
        ensures
            copy@ == self@,
    {
        match self {
            Reference::ById(id) => Reference::ById(id.clone()),
            Reference::ByTitle(title) => Reference::ByTitle(title.clone()),
        }
    }
}

/// The views of a sequence of references.
pub open spec fn reference_views(refs: Seq<Reference>) -> Seq<ReferenceView> {
    refs.map_values(|r: Reference| r@)
}

/// The references of a note: to other notes, and to sources.
#[derive(Debug)]
pub struct References {
    pub internal: Vec<Reference>,
    pub external: Vec<Reference>,
}

/// The references of a note as a value.
pub struct ReferencesView {
    pub internal: Seq<ReferenceView>,
    pub external: Seq<ReferenceView>,
}

impl View for References {
    type V = ReferencesView;

    open spec fn view(&self) -> ReferencesView {
        ReferencesView {
            internal: reference_views(self.internal@),
            external: reference_views(self.external@),
        }
    }
}

/// A copy of each of `refs`.
fn clone_references(refs: &Vec<Reference>) -> (copy: Vec<Reference>)
    ensures
        reference_views(copy@) == reference_views(refs@),
{
    let mut copy: Vec<Reference> = Vec::new();
    let mut i: usize = 0;
    while i < refs.len()
        invariant
            i <= refs.len(),
            copy.len() == i,
            forall|k: int| 0 <= k < i ==> copy@[k]@ == refs@[k]@,
        decreases refs.len() - i,
    {
        copy.push(refs[i].clone());
        i += 1;
    }
    assert(reference_views(copy@) =~= reference_views(refs@));
    copy
}

impl Clone for References {
    fn clone(&self) -> (copy: Self)
        ensures
            copy@ == self@,
    {
        References {
            internal: clone_references(&self.internal),
            external: clone_references(&self.external),
        }
    }
}

impl Default for References {
    fn default() -> (refs: Self)
        ensures
            refs@.internal.len() == 0,
            refs@.external.len() == 0,
    {
        References { internal: Vec::new(), external: Vec::new() }
    }
}

/// A note as read from markdown, before it is stored.
#[derive(Debug)]
pub struct NoteFromMd {
    pub id: Option<String>,
    pub title: String,
    pub contents: String,
    pub references: References,
}

/// A draft as a value.
pub struct NoteFromMdView {
    pub id: Option<Seq<char>>,
    pub title: Seq<char>,
    pub contents: Seq<char>,
    pub references: ReferencesView,
}

/// The view of an optional string.
pub open spec fn opt_view(s: Option<String>) -> Option<Seq<char>> {
    match s {
        Some(s) => Some(s@),
        None => None,
    }
}

impl View for NoteFromMd {
    type V = NoteFromMdView;

    open spec fn view(&self) -> NoteFromMdView {
        NoteFromMdView {
            id: opt_view(self.id),
            title: self.title@,
            contents: self.contents@,
            references: self.references@,
        }
    }
}

/// The draft that holds nothing: no identifier, an empty title and body, no
/// references.
pub open spec fn empty_note() -> NoteFromMdView {
    NoteFromMdView {
        id: None,
        title: Seq::empty(),
        contents: Seq::empty(),
        references: ReferencesView { internal: Seq::empty(), external: Seq::empty() },
    }
}

impl Clone for NoteFromMd {
    fn clone(&self) -> (copy: Self)
        ensures
            copy@ == self@,
    {
        NoteFromMd {
            id: match &self.id {
                Some(id) => Some(id.clone()),
                None => None,
            },
            title: self.title.clone(),
            contents: self.contents.clone(),
            references: self.references.clone(),
        }
    }
}

impl Default for NoteFromMd {
    fn default() -> (note: Self)
        ensures
            note@ == empty_note(),
    {
        let note = NoteFromMd {
            id: None,
            title: String::new(),
            contents: String::new(),
            references: References::default(),
        };
        assert(note@.references.internal =~= Seq::empty());
        assert(note@.references.external =~= Seq::empty());
        note
    }
}

/// The characters of `[0-9A-Za-z_]`.
pub open spec fn ascii_word(c: char) -> bool {
    48 <= c as u32 <= 57 || 65 <= c as u32 <= 90 || 97 <= c as u32 <= 122 || c == '_'
}

/// Whether a character beyond ASCII is a word character of the regex class `\w`.
pub uninterp spec fn wide_word_char(c: char) -> bool;

/// Whether `c` is a word character: one that the regex class `\w` matches.
pub open spec fn word_char(c: char) -> bool {
    if (c as u32) < 128 {
        ascii_word(c)
    } else {
        wide_word_char(c)
    }
}

/// Asks `regex::Regex` whether the pattern `\w` matches the one character `c`.
/// Among the ASCII characters `\w` matches the letters, the digits and the
/// underscore; beyond ASCII the answer is only given a name.
#[verifier::external_body]
fn is_word_char(c: char) -> (b: bool)
    ensures
        b == word_char(c),
        (c as u32) >= 128 ==> b == wide_word_char(c),
{
    let mut buf = [0u8; 4];
    match regex::Regex::new(r"\w") {
        Ok(re) => re.is_match(c.encode_utf8(&mut buf)),
        Err(_) => false,
    }
}

/// Whether an identifier token stands at position `i` of `s`: an opening
/// bracket, six word characters and a closing bracket.
pub open spec fn token_at(s: Seq<char>, i: int) -> bool {
    &&& 0 <= i
    &&& i + 8 <= s.len()
    &&& s[i] == '['
    &&& forall|k: int| i < k < i + 7 ==> word_char(#[trigger] s[k])
    &&& s[i + 7] == ']'
}

/// The position of the first identifier token of `s` at or after `from`.
pub open spec fn find_token(s: Seq<char>, from: int) -> Option<int>
    decreases s.len() - from,
{
    if from + 8 > s.len() {
        None
    } else if token_at(s, from) {
        Some(from)
    } else {
        find_token(s, from + 1)
    }
}

/// `find_token` gives the least position at or after `from` where a token
/// stands, and `None` exactly when no token stands there or later.
pub proof fn lemma_find_token(s: Seq<char>, from: int)
    requires
        0 <= from,
    ensures
        match find_token(s, from) {
            Some(i) => from <= i && token_at(s, i) && forall|j: int|
                from <= j < i ==> !token_at(s, j),
            None => forall|j: int| from <= j ==> !token_at(s, j),
        },
    decreases s.len() - from,
{
    if from + 8 <= s.len() && !token_at(s, from) {
        lemma_find_token(s, from + 1);
    }
}

/// The six characters inside the first identifier token of `s`.
pub open spec fn id_token(s: Seq<char>) -> Option<Seq<char>> {
    match find_token(s, 0) {
        Some(i) => Some(s.subrange(i + 1, i + 7)),
        None => None,
    }
}

/// Whether an identifier token stands at position `i` of `v`.
fn is_token_at(v: &Vec<char>, i: usize) -> (r: bool)
    requires
        i + 8 <= v.len(),
    ensures
        r == token_at(v@, i as int),
{
    if v[i] != '[' || v[i + 7] != ']' {
        return false;
    }
    let mut k: usize = i + 1;
    while k < i + 7
        invariant
            i < k <= i + 7,
            i + 8 <= v.len(),
            forall|j: int| i < j < k ==> word_char(#[trigger] v@[j]),
        decreases i + 7 - k,
    {
        if !is_word_char(v[k]) {
            return false;
        }
        k += 1;
    }
    true
}

/// The position of the first identifier token of `v`.
pub fn find_id(v: &Vec<char>) -> (r: Option<usize>)
    ensures
        match r {
            Some(i) => find_token(v@, 0) == Some(i as int) && i + 8 <= v.len(),
            None => find_token(v@, 0) is None,
        },
{
    if v.len() < 8 {
        return None;
    }
    let mut i: usize = 0;
    while i <= v.len() - 8
        invariant
            v.len() >= 8,
            find_token(v@, i as int) == find_token(v@, 0),
        decreases v.len() - i,
    {
        if is_token_at(v, i) {
            return Some(i);
        }
        i += 1;
    }
    None
}

/// The identifier inside the first bracketed token of `text`, if it has one.
pub fn extract_id(text: &str) -> (id: Option<String>)
    ensures
        opt_view(id) == id_token(text@),
{
    let v = chars_of(text);
    match find_id(&v) {
        Some(i) => Some(string_of(&v, i + 1, i + 7)),
        None => None,
    }
}

/// The characters of the base 32 alphabet: the capital letters and the digits
/// from 2 to 7.
pub open spec fn base32_char(c: char) -> bool {
    65 <= c as u32 <= 90 || 50 <= c as u32 <= 55
}

/// The base 32 text of the four bytes of `number`, lowest byte first.
pub uninterp spec fn base32_le(number: i32) -> Seq<char>;

/// `base32::encode` with the RFC 4648 alphabet and padding, on the four bytes
/// of `number`, lowest byte first. Four bytes give seven characters of the
/// alphabet and one `=` of padding.
#[verifier::external_body]
fn encode_number(number: i32) -> (text: String)
    ensures
        text@ == base32_le(number),
        text@.len() == 8,
        forall|i: int| 0 <= i < 7 ==> base32_char(#[trigger] text@[i]),
        text@[7] == '=',
{
    base32::encode(base32::Alphabet::RFC4648 { padding: true }, &number.to_le_bytes())
}

/// `rand::random` for an `i32`: any value may come back.
#[verifier::external_body]
fn random_number() -> i32 {
    rand::random()
}

/// Whether `s` has the shape of an identifier: six characters of the base 32
/// alphabet.
pub open spec fn is_identifier(s: Seq<char>) -> bool {
    s.len() == 6 && forall|i: int| 0 <= i < 6 ==> base32_char(#[trigger] s[i])
}

/// The identifier made from `number`: the first six characters of its base 32
/// text.
pub open spec fn identifier_of(number: i32) -> Seq<char> {
    base32_le(number).subrange(0, 6)
}

/// The identifier made from `number`.
pub fn id_from_number(number: i32) -> (id: String)
    ensures
        id@ == identifier_of(number),
        is_identifier(id@),
{
    let text = encode_number(number);
    let v = chars_of(text.as_str());
    string_of(&v, 0, 6)
}

/// A fresh identifier, made from a random number.
pub fn generate_id() -> (id: String)
    ensures
        is_identifier(id@),
{
    id_from_number(random_number())
}

} // verus!
