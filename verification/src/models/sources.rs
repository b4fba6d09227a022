use vstd::prelude::*;

use crate::models::error::DbError;
use crate::models::order::{arranged, order_by_title, title_keys, title_order};
use crate::models::store::{
    source_refusal, source_titled, source_titles, source_with_id, with_source, Change,
    ChangeView, Store,
};

verus! {

/// A stored source: what an external reference points at.
#[derive(Debug)]
pub struct Source {
    pub id: String,
    pub title: String,
}

/// A source as a value.
pub struct SourceView {
    pub id: Seq<char>,
    pub title: Seq<char>,
}

impl View for Source {
    type V = SourceView;

    open spec fn view(&self) -> SourceView {
        SourceView { id: self.id@, title: self.title@ }
    }
}

impl Clone for Source {
    fn clone(&self) -> (copy: Self)
        ensures
            copy@ == self@,
    {
        Source { id: self.id.clone(), title: self.title.clone() }
    }
}

/// The views of a sequence of sources.
pub open spec fn source_views(sources: Seq<Source>) -> Seq<SourceView> {
    sources.map_values(|s: Source| s@)
}

impl Source {
    /// A source with the given identifier and title.
    pub fn new(id: String, title: String) -> (source: Self)
        ensures
            source.id == id,
            source.title == title,
    {
        Self { id, title }
    }
}

/// The view of an optional source.
pub open spec fn opt_source(source: Option<Source>) -> Option<SourceView> {
    match source {
        Some(source) => Some(source@),
        None => None,
    }
}

impl Source {
    /// Makes a source and adds it to the store.
    pub fn create(id: String, title: String, conn: &mut Store) -> (r: Result<Self, DbError>)
        ensures
            match r {
                Ok(source) => source@ == (SourceView { id: id@, title: title@ }) && source_titled(
                    old(conn)@.sources,
                    title@,
                ) is None && final(conn)@ == with_source(old(conn)@, source@),
                Err(e) => e matches DbError::Generic(message) && message@ == source_refusal()
                    && source_titled(old(conn)@.sources, title@) is Some && final(conn)@
                    == old(conn)@,
            },
    {
        let source = Self { id, title };
        match source.add(conn) {
            Ok(_) => Ok(source),
            Err(e) => Err(e),
        }
    }

    /// Adds the source to the store. The store refuses a source whose title
    /// another source has.
    pub fn add(&self, conn: &mut Store) -> (r: Result<(), DbError>)
        ensures
            match r {
                Ok(_) => source_titled(old(conn)@.sources, self.title@) is None && final(conn)@
                    == with_source(old(conn)@, self@),
                Err(e) => e matches DbError::Generic(message) && message@ == source_refusal()
                    && source_titled(old(conn)@.sources, self.title@) is Some && final(conn)@
                    == old(conn)@,
            },
    {
        if conn.source_position_by_title(&self.title).is_some() {
            return Err(DbError::Generic("UNIQUE constraint failed: sources.title".to_owned()));
        }
        conn.sources.push(self.clone());
        conn.changes.push(Change::AddSource(self.clone()));
        assert(conn@.sources =~= old(conn)@.sources.push(self@));
        assert(conn@.changes =~= old(conn)@.changes.push(ChangeView::AddSource(self@)));
        Ok(())
    }

    /// The source with the given identifier.
    pub fn get_by_id(id: String, conn: &Store) -> (r: Result<Option<Source>, DbError>)
        ensures
            r matches Ok(found) && opt_source(found) == source_with_id(conn@.sources, id@),
    {
        match conn.source_position_by_id(&id) {
            Some(i) => Ok(Some(conn.sources[i].clone())),
            None => Ok(None),
        }
    }

    /// The source with the given title.
    pub fn get_by_title(title: String, conn: &Store) -> (r: Result<Option<Source>, DbError>)
        ensures
            r matches Ok(found) && opt_source(found) == source_titled(conn@.sources, title@),
    {
        match conn.source_position_by_title(&title) {
            Some(i) => Ok(Some(conn.sources[i].clone())),
            None => Ok(None),
        }
    }

    /// Every source of the store.
    pub fn list(conn: &Store) -> (r: Result<Vec<Source>, DbError>)
        ensures
            r matches Ok(sources) && source_views(sources@) == conn@.sources,
    {
        let mut sources: Vec<Source> = Vec::new();
        let mut i: usize = 0;
        while i < conn.sources.len()
            invariant
                i <= conn.sources.len(),
                sources.len() == i,
                forall|k: int| 0 <= k < i ==> sources@[k]@ == conn.sources@[k]@,
            decreases conn.sources.len() - i,
        {
            sources.push(conn.sources[i].clone());
            i += 1;
        }
        assert(source_views(sources@) =~= conn@.sources);
        Ok(sources)
    }
}

/// `sources` in the order of their titles; sources with the same title keep
/// their order.
pub open spec fn sources_by_title(sources: Seq<SourceView>) -> Seq<SourceView> {
    arranged(sources, title_order(source_titles(sources)))
}

/// The sources in the order of their titles.
pub fn sort_sources_by_title(sources: Vec<Source>) -> (sorted: Vec<Source>)
    ensures
        source_views(sorted@) == sources_by_title(source_views(sources@)),
{
    let mut titles: Vec<String> = Vec::new();
    let mut i: usize = 0;
    while i < sources.len()
        invariant
            i <= sources.len(),
            titles.len() == i,
            forall|j: int| 0 <= j < i ==> titles@[j]@ == sources@[j].title@,
        decreases sources.len() - i,
    {
        titles.push(sources[i].title.clone());
        i += 1;
    }
    let keys = title_keys(&titles);
    let order = order_by_title(&keys);
    assert(keys@.map_values(|k: Vec<char>| k@) =~= source_titles(source_views(sources@)));
    let mut sorted: Vec<Source> = Vec::new();
    let mut k: usize = 0;
    while k < order.len()
        invariant
            k <= order.len(),
            sorted.len() == k,
            order.len() == sources.len(),
            forall|j: int| 0 <= j < order.len() ==> (#[trigger] order@[j]) < sources.len(),
            forall|j: int| 0 <= j < k ==> sorted@[j]@ == sources@[order@[j] as int]@,
        decreases order.len() - k,
    {
        sorted.push(sources[order[k]].clone());
        k += 1;
    }
    assert(source_views(sorted@) =~= arranged(source_views(sources@), order@));
    sorted
}

} // verus!
