use vstd::prelude::*;

use crate::cli::ParseArgs;
use crate::cli::error::CliError;
use crate::util::NoteFromMd;

verus! {

/// A column of the listing of notes.
#[derive(Debug, Clone, Copy, PartialEq, Eq, Structural)]
pub enum NoteField {
    Id,
    Title,
}

/// The columns of the listing of notes, in the order in which they are shown.
#[derive(Debug)]
pub struct NoteFields {
    pub items: Vec<NoteField>,
}

impl Clone for NoteFields {
    fn clone(&self) -> (copy: Self)
        ensures
            copy.items@ == self.items@,
    {
        let mut items: Vec<NoteField> = Vec::new();
        let mut i: usize = 0;
        while i < self.items.len()
            invariant
                i <= self.items.len(),
                items@ == self.items@.take(i as int),
            decreases self.items.len() - i,
        {
            items.push(self.items[i]);
            assert(items@ =~= self.items@.take(i + 1));
            i += 1;
        }
        assert(self.items@.take(self.items.len() as int) =~= self.items@);
        NoteFields { items }
    }
}

impl Default for NoteFields {
    fn default() -> (fields: Self)
        ensures
            fields.items@ == seq![NoteField::Id, NoteField::Title],
    {
        let mut items: Vec<NoteField> = Vec::new();
        items.push(NoteField::Id);
        items.push(NoteField::Title);
        assert(items@ =~= seq![NoteField::Id, NoteField::Title]);
        Self { items }
    }
}

/// The columns that the two flags ask for: the identifier before the title,
/// and both where neither flag is set.
pub open spec fn note_columns(id: bool, title: bool) -> Seq<NoteField> {
    if id && !title {
        seq![NoteField::Id]
    } else if title && !id {
        seq![NoteField::Title]
    } else {
        seq![NoteField::Id, NoteField::Title]
    }
}

impl NoteFields {
    /// The columns that the flags `--id` and `--title` ask for.
    pub fn from_flags(id: bool, title: bool) -> (fields: Self)
        ensures
            fields.items@ == note_columns(id, title),
    {
        if !title && !id {
            NoteFields::default()
        } else {
            let mut items: Vec<NoteField> = Vec::new();
            if id {
                items.push(NoteField::Id)
            }
            if title {
                items.push(NoteField::Title)
            }
            assert(items@ =~= note_columns(id, title));
            NoteFields { items }
        }
    }
}

/// A column of the listing of sources.
#[derive(Debug, Clone, Copy, PartialEq, Eq, Structural)]
pub enum SourceField {
    Id,
    Title,
}

/// The columns of the listing of sources, in the order in which they are
/// shown.
#[derive(Debug)]
pub struct SourceFields {
    pub items: Vec<SourceField>,
}

impl Clone for SourceFields {
    fn clone(&self) -> (copy: Self)
        ensures
            copy.items@ == self.items@,
    {
        let mut items: Vec<SourceField> = Vec::new();
        let mut i: usize = 0;
        while i < self.items.len()
            invariant
                i <= self.items.len(),
                items@ == self.items@.take(i as int),
            decreases self.items.len() - i,
        {
            items.push(self.items[i]);
            assert(items@ =~= self.items@.take(i + 1));
            i += 1;
        }
        assert(self.items@.take(self.items.len() as int) =~= self.items@);
        SourceFields { items }
    }
}

impl Default for SourceFields {
    fn default() -> (fields: Self)
        ensures
            fields.items@ == seq![SourceField::Id, SourceField::Title],
    {
        let mut items: Vec<SourceField> = Vec::new();
        items.push(SourceField::Id);
        items.push(SourceField::Title);
        assert(items@ =~= seq![SourceField::Id, SourceField::Title]);
        Self { items }
    }
}

/// The columns that the two flags ask for: the identifier before the title,
/// and both where neither flag is set.
pub open spec fn source_columns(id: bool, title: bool) -> Seq<SourceField> {
    if id && !title {
        seq![SourceField::Id]
    } else if title && !id {
        seq![SourceField::Title]
    } else {
        seq![SourceField::Id, SourceField::Title]
    }
}

impl SourceFields {
    /// The columns that the flags `--id` and `--title` ask for.
    pub fn from_flags(id: bool, title: bool) -> (fields: Self)
        ensures
            fields.items@ == source_columns(id, title),
    {
        if !title && !id {
            SourceFields::default()
        } else {
            let mut items: Vec<SourceField> = Vec::new();
            if id {
                items.push(SourceField::Id)
            }
            if title {
                items.push(SourceField::Title)
            }
            assert(items@ =~= source_columns(id, title));
            SourceFields { items }
        }
    }
}

/// What the command that writes a note out is given: the identifier of the
/// note and the path of the file.
#[derive(Debug)]
pub struct GetNote {
    pub id: String,
    pub path: String,
}

impl Clone for GetNote {
    fn clone(&self) -> (copy: Self)
        ensures
            copy.id@ == self.id@,
            copy.path@ == self.path@,
    {
        GetNote { id: self.id.clone(), path: self.path.clone() }
    }
}

impl GetNote {
    /// The command from its two arguments, both of which must be there.
    pub fn from_args(id: Option<String>, path: Option<String>) -> (r: Result<Self, CliError>)
        ensures
            match r {
                Ok(command) => id == Some(command.id) && path == Some(command.path),
                Err(e) => (id is None || path is None) && e is InternalError,
            },
    {
        match (id, path) {
            (Some(id), Some(path)) => Ok(GetNote { id, path }),
            _ => Err(CliError::InternalError),
        }
    }
}

impl ParseArgs for NoteFromMd {

}

impl ParseArgs for NoteFields {

}

impl ParseArgs for SourceFields {

}

impl ParseArgs for GetNote {

}

} // verus!
