use vstd::prelude::*;

use crate::models::internal::LinkView;
use crate::models::note::NoteView;
use crate::models::sources::SourceView;
use crate::models::store::{
    lemma_first_at, linked, not_owned_by, note_titled, source_titled, source_titles,
    with_external, with_internal, with_source, StoreView,
};
use crate::util::{is_identifier, ReferencesView, ReferenceView};

verus! {

/// `s` with a link from the note `note` to the note `target`: a new link with
/// the identifier `id`, unless the store holds such a link already.
pub open spec fn linked_internal(
    s: StoreView,
    note: Seq<char>,
    target: Seq<char>,
    id: Seq<char>,
) -> StoreView {
    if linked(s.internal, note, target) {
        s
    } else {
        with_internal(s, LinkView { id, note_id: note, reference_id: target })
    }
}

/// `s` with a link from the note `note` to the source `target`: a new link
/// with the identifier `id`, unless the store holds such a link already.
pub open spec fn linked_external(
    s: StoreView,
    note: Seq<char>,
    target: Seq<char>,
    id: Seq<char>,
) -> StoreView {
    if linked(s.external, note, target) {
        s
    } else {
        with_external(s, LinkView { id, note_id: note, reference_id: target })
    }
}

/// The store after one reference of the note `note` to a note, where `id` is
/// the identifier for a new link. A reference by identifier is linked as it
/// stands, whether or not a note has that identifier. A reference by title is
/// linked to the note with that title; without such a note the title comes
/// back as the error.
pub open spec fn after_internal(
    s: StoreView,
    note: Seq<char>,
    reference: ReferenceView,
    id: Seq<char>,
) -> Result<StoreView, Seq<char>> {
    match reference {
        ReferenceView::ById(target) => Ok(linked_internal(s, note, target, id)),
        ReferenceView::ByTitle(title) => match note_titled(s.notes, title) {
            Some(found) => Ok(linked_internal(s, note, found.id, id)),
            None => Err(title),
        },
    }
}

/// The store after one reference of the note `note` to a source, where
/// `source_id` is the identifier for a new source and `id` the one for a new
/// link. A reference by title is linked to the source with that title; without
/// such a source one is made first.
pub open spec fn after_external(
    s: StoreView,
    note: Seq<char>,
    reference: ReferenceView,
    source_id: Seq<char>,
    id: Seq<char>,
) -> StoreView {
    match reference {
        ReferenceView::ById(target) => linked_external(s, note, target, id),
        ReferenceView::ByTitle(title) => match source_titled(s.sources, title) {
            Some(found) => linked_external(s, note, found.id, id),
            None => linked_external(
                with_source(s, SourceView { id: source_id, title }),
                note,
                source_id,
                id,
            ),
        },
    }
}

/// The store after the references `refs` of the note `note` to notes, taken
/// in order, the reference at each position with the identifier at that
/// position of `ids`. The first reference that fails gives the error.
pub open spec fn after_internals(
    s: StoreView,
    note: Seq<char>,
    refs: Seq<ReferenceView>,
    ids: Seq<Seq<char>>,
) -> Result<StoreView, Seq<char>>
    decreases refs.len(),
{
    if refs.len() == 0 {
        Ok(s)
    } else {
        match after_internals(s, note, refs.drop_last(), ids.drop_last()) {
            Ok(t) => after_internal(t, note, refs.last(), ids.last()),
            Err(title) => Err(title),
        }
    }
}

/// The store after the references `refs` of the note `note` to sources, taken
/// in order, the reference at each position with the two identifiers at that
/// position of `ids`: the first for a new source, the second for a new link.
pub open spec fn after_externals(
    s: StoreView,
    note: Seq<char>,
    refs: Seq<ReferenceView>,
    ids: Seq<(Seq<char>, Seq<char>)>,
) -> StoreView
    decreases refs.len(),
{
    if refs.len() == 0 {
        s
    } else {
        after_external(
            after_externals(s, note, refs.drop_last(), ids.drop_last()),
            note,
            refs.last(),
            ids.last().0,
            ids.last().1,
        )
    }
}

/// The store after the references of the note `note` were reconciled: those to
/// notes first, then those to sources.
pub open spec fn reconciled(
    s: StoreView,
    note: Seq<char>,
    refs: ReferencesView,
    internal_ids: Seq<Seq<char>>,
    external_ids: Seq<(Seq<char>, Seq<char>)>,
) -> Result<StoreView, Seq<char>> {
    match after_internals(s, note, refs.internal, internal_ids) {
        Ok(t) => Ok(after_externals(t, note, refs.external, external_ids)),
        Err(title) => Err(title),
    }
}

/// The title of the first reference in `refs` that names, by title, a note
/// that `notes` does not hold.
pub open spec fn first_missing(notes: Seq<NoteView>, refs: Seq<ReferenceView>) -> Option<
    Seq<char>,
>
    decreases refs.len(),
{
    if refs.len() == 0 {
        None
    } else {
        match first_missing(notes, refs.drop_last()) {
            Some(title) => Some(title),
            None => match refs.last() {
                ReferenceView::ByTitle(title) => if note_titled(notes, title) is None {
                    Some(title)
                } else {
                    None
                },
                ReferenceView::ById(_) => None,
            },
        }
    }
}

/// Whether each of `ids` has the shape of an identifier.
pub open spec fn all_identifiers(ids: Seq<Seq<char>>) -> bool {
    forall|i: int| 0 <= i < ids.len() ==> is_identifier(#[trigger] ids[i])
}

/// Whether each pair of `ids` is made of two identifiers.
pub open spec fn all_identifier_pairs(ids: Seq<(Seq<char>, Seq<char>)>) -> bool {
    forall|i: int|
        0 <= i < ids.len() ==> is_identifier((#[trigger] ids[i]).0) && is_identifier(ids[i].1)
}

/// Whether reconciling `refs` for the note `note` can turn `s` into `t`, with
/// fresh identifiers of some choice.
pub open spec fn reconciles_to(
    s: StoreView,
    note: Seq<char>,
    refs: ReferencesView,
    t: StoreView,
) -> bool {
    exists|internal_ids: Seq<Seq<char>>, external_ids: Seq<(Seq<char>, Seq<char>)>|
        {
            &&& internal_ids.len() == refs.internal.len()
            &&& external_ids.len() == refs.external.len()
            &&& all_identifiers(internal_ids)
            &&& all_identifier_pairs(external_ids)
            &&& #[trigger] reconciled(s, note, refs, internal_ids, external_ids) == Ok::<
                StoreView,
                Seq<char>,
            >(t)
        }
}

/// A missing title among the first references is the first missing title of
/// all.
pub proof fn lemma_first_missing_stays(
    notes: Seq<NoteView>,
    refs: Seq<ReferenceView>,
    n: int,
)
    requires
        0 <= n <= refs.len(),
        first_missing(notes, refs.take(n)) is Some,
    ensures
        first_missing(notes, refs) == first_missing(notes, refs.take(n)),
    decreases refs.len(),
{
    if n == refs.len() {
        assert(refs.take(n) =~= refs);
    } else {
        assert(refs.drop_last().take(n) =~= refs.take(n));
        lemma_first_missing_stays(notes, refs.drop_last(), n);
    }
}

/// Whether the store `t` holds the link that the reference `r` of the note
/// `note` to a note asks for.
pub open spec fn internal_settled(t: StoreView, note: Seq<char>, r: ReferenceView) -> bool {
    match r {
        ReferenceView::ById(target) => linked(t.internal, note, target),
        ReferenceView::ByTitle(title) => match note_titled(t.notes, title) {
            Some(found) => linked(t.internal, note, found.id),
            None => false,
        },
    }
}

/// Whether the store `t` holds the source and the link that the reference `r`
/// of the note `note` to a source asks for.
pub open spec fn external_settled(t: StoreView, note: Seq<char>, r: ReferenceView) -> bool {
    match r {
        ReferenceView::ById(target) => linked(t.external, note, target),
        ReferenceView::ByTitle(title) => match source_titled(t.sources, title) {
            Some(found) => linked(t.external, note, found.id),
            None => false,
        },
    }
}

/// A new link keeps every pair linked, and links its own pair.
proof fn lemma_linked_push(links: Seq<LinkView>, link: LinkView, note: Seq<char>, target: Seq<char>)
    ensures
        linked(links, note, target) ==> linked(links.push(link), note, target),
        linked(links.push(link), link.note_id, link.reference_id),
{
    if linked(links, note, target) {
        let i = choose|i: int|
            0 <= i < links.len() && (#[trigger] links[i]).note_id == note && links[i].reference_id
                == target;
        assert(links.push(link)[i] == links[i]);
    }
    assert(links.push(link)[links.len() as int] == link);
}

/// A new source leaves the sources that titles find, and is found by its own
/// title where none was.
proof fn lemma_source_titled_push(sources: Seq<SourceView>, source: SourceView, title: Seq<char>)
    ensures
        source_titled(sources, title) is Some ==> source_titled(sources.push(source), title)
            == source_titled(sources, title),
        source_titled(sources, title) is None && source.title == title ==> source_titled(
            sources.push(source),
            title,
        ) == Some(source),
{
    let longer = sources.push(source);
    assert(source_titles(longer).drop_last() =~= source_titles(sources));
    assert(source_titles(longer).last() == source.title);
    lemma_first_at(source_titles(sources), title);
}

/// One reference to a note settles itself and leaves settled what was.
proof fn lemma_internal_step_keeps(
    t: StoreView,
    note: Seq<char>,
    r: ReferenceView,
    id: Seq<char>,
    kept: ReferenceView,
)
    requires
        after_internal(t, note, r, id) is Ok,
    ensures
        internal_settled(after_internal(t, note, r, id)->Ok_0, note, r),
        internal_settled(t, note, kept) ==> internal_settled(
            after_internal(t, note, r, id)->Ok_0,
            note,
            kept,
        ),
        external_settled(t, note, kept) ==> external_settled(
            after_internal(t, note, r, id)->Ok_0,
            note,
            kept,
        ),
{
    let target = match r {
        ReferenceView::ById(target) => target,
        ReferenceView::ByTitle(title) => note_titled(t.notes, title)->Some_0.id,
    };
    let link = LinkView { id, note_id: note, reference_id: target };
    lemma_linked_push(t.internal, link, note, target);
    match kept {
        ReferenceView::ById(other) => {
            lemma_linked_push(t.internal, link, note, other);
        },
        ReferenceView::ByTitle(title) => {
            if note_titled(t.notes, title) is Some {
                lemma_linked_push(t.internal, link, note, note_titled(t.notes, title)->Some_0.id);
            }
        },
    }
}

/// A link to a source touches the links to sources only, links its pair, and
/// leaves settled what was.
proof fn lemma_external_link_keeps(
    t: StoreView,
    note: Seq<char>,
    target: Seq<char>,
    id: Seq<char>,
    kept: ReferenceView,
)
    ensures
        linked(linked_external(t, note, target, id).external, note, target),
        linked_external(t, note, target, id).sources == t.sources,
        linked_external(t, note, target, id).notes == t.notes,
        linked_external(t, note, target, id).internal == t.internal,
        external_settled(t, note, kept) ==> external_settled(
            linked_external(t, note, target, id),
            note,
            kept,
        ),
{
    let link = LinkView { id, note_id: note, reference_id: target };
    lemma_linked_push(t.external, link, note, target);
    match kept {
        ReferenceView::ById(other) => {
            lemma_linked_push(t.external, link, note, other);
        },
        ReferenceView::ByTitle(title) => {
            if source_titled(t.sources, title) is Some {
                lemma_linked_push(
                    t.external,
                    link,
                    note,
                    source_titled(t.sources, title)->Some_0.id,
                );
            }
        },
    }
}

/// One reference to a source settles itself and leaves settled what was.
proof fn lemma_external_step_keeps(
    t: StoreView,
    note: Seq<char>,
    r: ReferenceView,
    source_id: Seq<char>,
    id: Seq<char>,
    kept: ReferenceView,
)
    ensures
        external_settled(after_external(t, note, r, source_id, id), note, r),
        external_settled(t, note, kept) ==> external_settled(
            after_external(t, note, r, source_id, id),
            note,
            kept,
        ),
        internal_settled(t, note, kept) ==> internal_settled(
            after_external(t, note, r, source_id, id),
            note,
            kept,
        ),
{
    match r {
        ReferenceView::ById(target) => {
            lemma_external_link_keeps(t, note, target, id, kept);
            lemma_external_link_keeps(t, note, target, id, r);
        },
        ReferenceView::ByTitle(title) => {
            match source_titled(t.sources, title) {
                Some(found) => {
                    lemma_external_link_keeps(t, note, found.id, id, kept);
                    lemma_external_link_keeps(t, note, found.id, id, r);
                },
                None => {
                    let source = SourceView { id: source_id, title };
                    let u = with_source(t, source);
                    lemma_source_titled_push(t.sources, source, title);
                    match kept {
                        ReferenceView::ById(other) => {},
                        ReferenceView::ByTitle(other) => {
                            lemma_source_titled_push(t.sources, source, other);
                        },
                    }
                    lemma_external_link_keeps(u, note, source_id, id, kept);
                    lemma_external_link_keeps(u, note, source_id, id, r);
                },
            }
        },
    }
}

/// The references to notes settle each of themselves and leave settled what
/// was.
proof fn lemma_internals_settle(
    s: StoreView,
    note: Seq<char>,
    refs: Seq<ReferenceView>,
    ids: Seq<Seq<char>>,
    kept: ReferenceView,
)
    requires
        after_internals(s, note, refs, ids) is Ok,
    ensures
        forall|k: int|
            0 <= k < refs.len() ==> internal_settled(
                after_internals(s, note, refs, ids)->Ok_0,
                note,
                #[trigger] refs[k],
            ),
        internal_settled(s, note, kept) ==> internal_settled(
            after_internals(s, note, refs, ids)->Ok_0,
            note,
            kept,
        ),
        external_settled(s, note, kept) ==> external_settled(
            after_internals(s, note, refs, ids)->Ok_0,
            note,
            kept,
        ),
    decreases refs.len(),
{
    if refs.len() > 0 {
        let before = after_internals(s, note, refs.drop_last(), ids.drop_last())->Ok_0;
        let after = after_internals(s, note, refs, ids)->Ok_0;
        lemma_internals_settle(s, note, refs.drop_last(), ids.drop_last(), kept);
        lemma_internal_step_keeps(before, note, refs.last(), ids.last(), kept);
        assert forall|k: int| 0 <= k < refs.len() implies internal_settled(
            after,
            note,
            #[trigger] refs[k],
        ) by {
            if k < refs.len() - 1 {
                assert(refs.drop_last()[k] == refs[k]);
                lemma_internal_step_keeps(before, note, refs.last(), ids.last(), refs[k]);
            }
        }
    }
}

/// The references to sources settle each of themselves and leave settled
/// what was.
proof fn lemma_externals_settle(
    s: StoreView,
    note: Seq<char>,
    refs: Seq<ReferenceView>,
    ids: Seq<(Seq<char>, Seq<char>)>,
    kept: ReferenceView,
)
    ensures
        forall|k: int|
            0 <= k < refs.len() ==> external_settled(
                after_externals(s, note, refs, ids),
                note,
                #[trigger] refs[k],
            ),
        internal_settled(s, note, kept) ==> internal_settled(
            after_externals(s, note, refs, ids),
            note,
            kept,
        ),
        external_settled(s, note, kept) ==> external_settled(
            after_externals(s, note, refs, ids),
            note,
            kept,
        ),
    decreases refs.len(),
{
    if refs.len() > 0 {
        let before = after_externals(s, note, refs.drop_last(), ids.drop_last());
        let after = after_externals(s, note, refs, ids);
        lemma_externals_settle(s, note, refs.drop_last(), ids.drop_last(), kept);
        lemma_external_step_keeps(before, note, refs.last(), ids.last().0, ids.last().1, kept);
        assert forall|k: int| 0 <= k < refs.len() implies external_settled(
            after,
            note,
            #[trigger] refs[k],
        ) by {
            if k < refs.len() - 1 {
                assert(refs.drop_last()[k] == refs[k]);
                lemma_external_step_keeps(
                    before,
                    note,
                    refs.last(),
                    ids.last().0,
                    ids.last().1,
                    refs[k],
                );
            }
        }
    }
}

/// Where the store holds what every reference asks for, reconciling the
/// references to notes changes nothing.
pub proof fn lemma_settled_internals_stay(
    t: StoreView,
    note: Seq<char>,
    refs: Seq<ReferenceView>,
    ids: Seq<Seq<char>>,
)
    requires
        forall|k: int| 0 <= k < refs.len() ==> internal_settled(t, note, #[trigger] refs[k]),
    ensures
        after_internals(t, note, refs, ids) == Ok::<StoreView, Seq<char>>(t),
    decreases refs.len(),
{
    if refs.len() > 0 {
        assert forall|k: int| 0 <= k < refs.drop_last().len() implies internal_settled(
            t,
            note,
            #[trigger] refs.drop_last()[k],
        ) by {
            assert(refs.drop_last()[k] == refs[k]);
        }
        lemma_settled_internals_stay(t, note, refs.drop_last(), ids.drop_last());
        assert(internal_settled(t, note, refs[refs.len() - 1]));
    }
}

/// Where the store holds what every reference asks for, reconciling the
/// references to sources changes nothing.
pub proof fn lemma_settled_externals_stay(
    t: StoreView,
    note: Seq<char>,
    refs: Seq<ReferenceView>,
    ids: Seq<(Seq<char>, Seq<char>)>,
)
    requires
        forall|k: int| 0 <= k < refs.len() ==> external_settled(t, note, #[trigger] refs[k]),
    ensures
        after_externals(t, note, refs, ids) == t,
    decreases refs.len(),
{
    if refs.len() > 0 {
        assert forall|k: int| 0 <= k < refs.drop_last().len() implies external_settled(
            t,
            note,
            #[trigger] refs.drop_last()[k],
        ) by {
            assert(refs.drop_last()[k] == refs[k]);
        }
        lemma_settled_externals_stay(t, note, refs.drop_last(), ids.drop_last());
        assert(external_settled(t, note, refs[refs.len() - 1]));
    }
}

/// After the references of a note were reconciled, the store holds what each
/// of them asks for.
pub proof fn lemma_reconciled_settles(
    s: StoreView,
    note: Seq<char>,
    refs: ReferencesView,
    internal_ids: Seq<Seq<char>>,
    external_ids: Seq<(Seq<char>, Seq<char>)>,
)
    requires
        reconciled(s, note, refs, internal_ids, external_ids) is Ok,
    ensures
        forall|k: int|
            0 <= k < refs.internal.len() ==> internal_settled(
                reconciled(s, note, refs, internal_ids, external_ids)->Ok_0,
                note,
                #[trigger] refs.internal[k],
            ),
        forall|k: int|
            0 <= k < refs.external.len() ==> external_settled(
                reconciled(s, note, refs, internal_ids, external_ids)->Ok_0,
                note,
                #[trigger] refs.external[k],
            ),
{
    let middle = after_internals(s, note, refs.internal, internal_ids)->Ok_0;
    let end = after_externals(middle, note, refs.external, external_ids);
    lemma_internals_settle(s, note, refs.internal, internal_ids, ReferenceView::ById(Seq::empty()));
    lemma_externals_settle(
        middle,
        note,
        refs.external,
        external_ids,
        ReferenceView::ById(Seq::empty()),
    );
    assert forall|k: int| 0 <= k < refs.internal.len() implies internal_settled(
        end,
        note,
        #[trigger] refs.internal[k],
    ) by {
        lemma_externals_settle(middle, note, refs.external, external_ids, refs.internal[k]);
    }
}

/// Reconciling is idempotent: once the references of a note were reconciled,
/// reconciling the same references of the same note again succeeds and leaves
/// the store as it is, whatever fresh identifiers are at hand. No row is
/// added a second time.
pub proof fn law_reconcile_again(
    s: StoreView,
    note: Seq<char>,
    refs: ReferencesView,
    internal_ids: Seq<Seq<char>>,
    external_ids: Seq<(Seq<char>, Seq<char>)>,
    more_internal_ids: Seq<Seq<char>>,
    more_external_ids: Seq<(Seq<char>, Seq<char>)>,
)
    requires
        reconciled(s, note, refs, internal_ids, external_ids) is Ok,
    ensures
        reconciled(
            reconciled(s, note, refs, internal_ids, external_ids)->Ok_0,
            note,
            refs,
            more_internal_ids,
            more_external_ids,
        ) == reconciled(s, note, refs, internal_ids, external_ids),
{
    let t = reconciled(s, note, refs, internal_ids, external_ids)->Ok_0;
    lemma_reconciled_settles(s, note, refs, internal_ids, external_ids);
    lemma_settled_internals_stay(t, note, refs.internal, more_internal_ids);
    lemma_settled_externals_stay(t, note, refs.external, more_external_ids);
}

/// The same of two calls: if reconciling turns the store `s` into `t`, and
/// reconciling the same references again turns `t` into `u`, then `u` is `t`.
pub proof fn law_reconcile_twice(
    s: StoreView,
    note: Seq<char>,
    refs: ReferencesView,
    t: StoreView,
    u: StoreView,
)
    requires
        reconciles_to(s, note, refs, t),
        reconciles_to(t, note, refs, u),
    ensures
        u == t,
{
    let (i1, e1) = choose|i1: Seq<Seq<char>>, e1: Seq<(Seq<char>, Seq<char>)>|
        #[trigger] reconciled(s, note, refs, i1, e1) == Ok::<StoreView, Seq<char>>(t);
    let (i2, e2) = choose|i2: Seq<Seq<char>>, e2: Seq<(Seq<char>, Seq<char>)>|
        #[trigger] reconciled(t, note, refs, i2, e2) == Ok::<StoreView, Seq<char>>(u);
    law_reconcile_again(s, note, refs, i1, e1, i2, e2);
}

/// Whether no two of `links` join the same note to the same target.
pub open spec fn one_link_per_pair(links: Seq<LinkView>) -> bool {
    forall|i: int, j: int|
        0 <= i < j < links.len() ==> !((#[trigger] links[i]).note_id == (#[trigger] links[j]).note_id
            && links[i].reference_id == links[j].reference_id)
}

/// Whether no two of `sources` have the same title.
pub open spec fn one_source_per_title(sources: Seq<SourceView>) -> bool {
    forall|i: int, j: int|
        0 <= i < j < sources.len() ==> (#[trigger] sources[i]).title != (#[trigger] sources[j]).title
}

/// Whether the store keeps to its rules as far as reconciling can touch them:
/// at most one link for each pair of a note and a target, and at most one
/// source for each title.
pub open spec fn links_sound(s: StoreView) -> bool {
    &&& one_link_per_pair(s.internal)
    &&& one_link_per_pair(s.external)
    &&& one_source_per_title(s.sources)
}

/// A link for a pair that is not linked yet repeats no pair.
proof fn lemma_link_once(links: Seq<LinkView>, link: LinkView)
    requires
        one_link_per_pair(links),
        !linked(links, link.note_id, link.reference_id),
    ensures
        one_link_per_pair(links.push(link)),
{
    let longer = links.push(link);
    assert forall|i: int, j: int| 0 <= i < j < longer.len() implies !((
    #[trigger] longer[i]).note_id == (#[trigger] longer[j]).note_id && longer[i].reference_id
        == longer[j].reference_id) by {
        assert(longer[i] == links[i]);
        if j < links.len() {
            assert(longer[j] == links[j]);
        }
    }
}

/// A source with a title that no source has repeats no title.
proof fn lemma_source_once(sources: Seq<SourceView>, source: SourceView)
    requires
        one_source_per_title(sources),
        source_titled(sources, source.title) is None,
    ensures
        one_source_per_title(sources.push(source)),
{
    let longer = sources.push(source);
    lemma_first_at(source_titles(sources), source.title);
    assert forall|i: int, j: int| 0 <= i < j < longer.len() implies (#[trigger] longer[i]).title
        != (#[trigger] longer[j]).title by {
        assert(longer[i] == sources[i]);
        assert(source_titles(sources)[i] == sources[i].title);
        if j < sources.len() {
            assert(longer[j] == sources[j]);
        }
    }
}

/// The references to notes keep the store sound.
proof fn lemma_internals_sound(
    s: StoreView,
    note: Seq<char>,
    refs: Seq<ReferenceView>,
    ids: Seq<Seq<char>>,
)
    requires
        links_sound(s),
        after_internals(s, note, refs, ids) is Ok,
    ensures
        links_sound(after_internals(s, note, refs, ids)->Ok_0),
    decreases refs.len(),
{
    if refs.len() > 0 {
        lemma_internals_sound(s, note, refs.drop_last(), ids.drop_last());
        let before = after_internals(s, note, refs.drop_last(), ids.drop_last())->Ok_0;
        let target = match refs.last() {
            ReferenceView::ById(target) => target,
            ReferenceView::ByTitle(title) => note_titled(before.notes, title)->Some_0.id,
        };
        if !linked(before.internal, note, target) {
            lemma_link_once(
                before.internal,
                LinkView { id: ids.last(), note_id: note, reference_id: target },
            );
        }
    }
}

/// The references to sources keep the store sound.
proof fn lemma_externals_sound(
    s: StoreView,
    note: Seq<char>,
    refs: Seq<ReferenceView>,
    ids: Seq<(Seq<char>, Seq<char>)>,
)
    requires
        links_sound(s),
    ensures
        links_sound(after_externals(s, note, refs, ids)),
    decreases refs.len(),
{
    if refs.len() > 0 {
        lemma_externals_sound(s, note, refs.drop_last(), ids.drop_last());
        let before = after_externals(s, note, refs.drop_last(), ids.drop_last());
        let id = ids.last().1;
        match refs.last() {
            ReferenceView::ById(target) => {
                if !linked(before.external, note, target) {
                    lemma_link_once(
                        before.external,
                        LinkView { id, note_id: note, reference_id: target },
                    );
                }
            },
            ReferenceView::ByTitle(title) => {
                match source_titled(before.sources, title) {
                    Some(found) => {
                        if !linked(before.external, note, found.id) {
                            lemma_link_once(
                                before.external,
                                LinkView { id, note_id: note, reference_id: found.id },
                            );
                        }
                    },
                    None => {
                        let source = SourceView { id: ids.last().0, title };
                        lemma_source_once(before.sources, source);
                        if !linked(before.external, note, source.id) {
                            lemma_link_once(
                                before.external,
                                LinkView { id, note_id: note, reference_id: source.id },
                            );
                        }
                    },
                }
            },
        }
    }
}

/// Reconciling makes no duplicates: a store with at most one link for each
/// pair of a note and a target, and at most one source for each title, is
/// such a store afterwards.
pub proof fn law_reconcile_keeps_sound(
    s: StoreView,
    note: Seq<char>,
    refs: ReferencesView,
    internal_ids: Seq<Seq<char>>,
    external_ids: Seq<(Seq<char>, Seq<char>)>,
)
    requires
        links_sound(s),
        reconciled(s, note, refs, internal_ids, external_ids) is Ok,
    ensures
        links_sound(reconciled(s, note, refs, internal_ids, external_ids)->Ok_0),
{
    lemma_internals_sound(s, note, refs.internal, internal_ids);
    lemma_externals_sound(
        after_internals(s, note, refs.internal, internal_ids)->Ok_0,
        note,
        refs.external,
        external_ids,
    );
}

/// A source is made exactly where none has the title: a reference by title to
/// a source that the store does not hold adds one source with that title and
/// the fresh identifier, and one link to it, unless a link to that identifier
/// is there already.
pub proof fn law_source_made_once(
    s: StoreView,
    note: Seq<char>,
    title: Seq<char>,
    source_id: Seq<char>,
    id: Seq<char>,
)
    requires
        source_titled(s.sources, title) is None,
    ensures
        after_external(s, note, ReferenceView::ByTitle(title), source_id, id).sources
            == s.sources.push(SourceView { id: source_id, title }),
        !linked(s.external, note, source_id) ==> after_external(
            s,
            note,
            ReferenceView::ByTitle(title),
            source_id,
            id,
        ).external == s.external.push(LinkView { id, note_id: note, reference_id: source_id }),
        linked(s.external, note, source_id) ==> after_external(
            s,
            note,
            ReferenceView::ByTitle(title),
            source_id,
            id,
        ).external == s.external,
{
}

/// A missing title fails closed: the references to notes fail exactly where
/// one of them names, by title, a note that the store does not hold, and the
/// error is the first such title.
pub proof fn law_missing_title_fails(
    s: StoreView,
    note: Seq<char>,
    refs: Seq<ReferenceView>,
    ids: Seq<Seq<char>>,
)
    ensures
        match first_missing(s.notes, refs) {
            Some(title) => after_internals(s, note, refs, ids) == Err::<StoreView, Seq<char>>(title),
            None => after_internals(s, note, refs, ids) matches Ok(t) && t.notes == s.notes,
        },
    decreases refs.len(),
{
    if refs.len() > 0 {
        law_missing_title_fails(s, note, refs.drop_last(), ids.drop_last());
    }
}

/// Whether no two of `notes` have the same identifier, and no two the same
/// title.
pub open spec fn notes_sound(notes: Seq<NoteView>) -> bool {
    forall|i: int, j: int|
        0 <= i < j < notes.len() ==> (#[trigger] notes[i]).id != (#[trigger] notes[j]).id
            && notes[i].title != notes[j].title
}

/// Whether the store keeps to the rules of its tables: one note for each
/// identifier and for each title, one source for each title, and one link for
/// each pair of a note and a target.
pub open spec fn store_sound(s: StoreView) -> bool {
    notes_sound(s.notes) && links_sound(s)
}

/// Reconciling leaves the notes as they are.
pub proof fn lemma_reconciled_keeps_notes(
    s: StoreView,
    note: Seq<char>,
    refs: ReferencesView,
    internal_ids: Seq<Seq<char>>,
    external_ids: Seq<(Seq<char>, Seq<char>)>,
)
    requires
        reconciled(s, note, refs, internal_ids, external_ids) is Ok,
    ensures
        reconciled(s, note, refs, internal_ids, external_ids)->Ok_0.notes == s.notes,
{
    law_missing_title_fails(s, note, refs.internal, internal_ids);
    let middle = after_internals(s, note, refs.internal, internal_ids)->Ok_0;
    lemma_externals_keep_notes(middle, note, refs.external, external_ids);
}

/// The references to sources leave the notes as they are.
proof fn lemma_externals_keep_notes(
    s: StoreView,
    note: Seq<char>,
    refs: Seq<ReferenceView>,
    ids: Seq<(Seq<char>, Seq<char>)>,
)
    ensures
        after_externals(s, note, refs, ids).notes == s.notes,
    decreases refs.len(),
{
    if refs.len() > 0 {
        lemma_externals_keep_notes(s, note, refs.drop_last(), ids.drop_last());
    }
}

/// The links that are left when those of one note are dropped repeat no pair.
pub proof fn lemma_not_owned_sound(links: Seq<LinkView>, note: Seq<char>)
    requires
        one_link_per_pair(links),
    ensures
        one_link_per_pair(not_owned_by(links, note)),
        forall|k: int|
            0 <= k < not_owned_by(links, note).len() ==> exists|m: int|
                0 <= m < links.len() && links[m] == #[trigger] not_owned_by(links, note)[k],
    decreases links.len(),
{
    if links.len() > 0 {
        let shorter = links.drop_last();
        assert(one_link_per_pair(shorter)) by {
            assert forall|i: int, j: int| 0 <= i < j < shorter.len() implies !((
            #[trigger] shorter[i]).note_id == (#[trigger] shorter[j]).note_id
                && shorter[i].reference_id == shorter[j].reference_id) by {
                assert(shorter[i] == links[i] && shorter[j] == links[j]);
            }
        }
        lemma_not_owned_sound(shorter, note);
        let kept = not_owned_by(shorter, note);
        let out = not_owned_by(links, note);
        assert forall|k: int| 0 <= k < out.len() implies exists|m: int|
            0 <= m < links.len() && links[m] == #[trigger] out[k] by {
            if k < kept.len() {
                assert(out[k] == kept[k]);
                let m = choose|m: int| 0 <= m < shorter.len() && shorter[m] == kept[k];
                assert(links[m] == shorter[m]);
            } else {
                assert(links[links.len() - 1] == out[k]);
            }
        }
        if links.last().note_id != note {
            assert forall|i: int, j: int| 0 <= i < j < out.len() implies !((
            #[trigger] out[i]).note_id == (#[trigger] out[j]).note_id && out[i].reference_id
                == out[j].reference_id) by {
                assert(out[i] == kept[i]);
                if j < kept.len() {
                    assert(out[j] == kept[j]);
                } else {
                    let m = choose|m: int| 0 <= m < shorter.len() && shorter[m] == kept[i];
                    assert(links[m] == shorter[m]);
                    assert(links[links.len() - 1] == out[j]);
                }
            }
        }
    }
}

/// The note that a reference to a note points at: the identifier that the
/// reference gives, or that of the note with the title that it gives.
pub open spec fn internal_target(notes: Seq<NoteView>, r: ReferenceView) -> Option<Seq<char>> {
    match r {
        ReferenceView::ById(target) => Some(target),
        ReferenceView::ByTitle(title) => match note_titled(notes, title) {
            Some(found) => Some(found.id),
            None => None,
        },
    }
}

/// The source that a reference to a source points at: the identifier that the
/// reference gives, or that of the source with the title that it gives.
pub open spec fn external_target(sources: Seq<SourceView>, r: ReferenceView) -> Option<Seq<char>> {
    match r {
        ReferenceView::ById(target) => Some(target),
        ReferenceView::ByTitle(title) => match source_titled(sources, title) {
            Some(found) => Some(found.id),
            None => None,
        },
    }
}

/// Whether one of `refs` points at `target` among `notes`.
pub open spec fn among_internal_targets(
    notes: Seq<NoteView>,
    refs: Seq<ReferenceView>,
    target: Seq<char>,
) -> bool {
    exists|k: int| 0 <= k < refs.len() && internal_target(notes, #[trigger] refs[k]) == Some(target)
}

/// Whether one of `refs` points at `target` among `sources`.
pub open spec fn among_external_targets(
    sources: Seq<SourceView>,
    refs: Seq<ReferenceView>,
    target: Seq<char>,
) -> bool {
    exists|k: int|
        0 <= k < refs.len() && external_target(sources, #[trigger] refs[k]) == Some(target)
}

/// The pairs that `links` with one more link joins are those of `links` and
/// the pair of that link.
proof fn lemma_linked_push_exactly(
    links: Seq<LinkView>,
    link: LinkView,
    note: Seq<char>,
    target: Seq<char>,
)
    ensures
        linked(links.push(link), note, target) <==> linked(links, note, target) || (link.note_id
            == note && link.reference_id == target),
{
    lemma_linked_push(links, link, note, target);
    let longer = links.push(link);
    if linked(longer, note, target) {
        let i = choose|i: int|
            0 <= i < longer.len() && (#[trigger] longer[i]).note_id == note
                && longer[i].reference_id == target;
        if i < links.len() {
            assert(links[i] == longer[i]);
        }
    }
    if link.note_id == note && link.reference_id == target {
        assert(longer[links.len() as int] == link);
    }
}

/// Which notes are linked afterwards: once the references of the note `note`
/// to notes were reconciled, a note is linked to a target exactly if it was
/// linked to it before, or it is `note` and one of the references points at
/// the target. The order of the references plays no part in it.
pub proof fn law_internal_links_after(
    s: StoreView,
    note: Seq<char>,
    refs: Seq<ReferenceView>,
    ids: Seq<Seq<char>>,
    owner: Seq<char>,
    target: Seq<char>,
)
    requires
        after_internals(s, note, refs, ids) is Ok,
    ensures
        linked(after_internals(s, note, refs, ids)->Ok_0.internal, owner, target) <==> linked(
            s.internal,
            owner,
            target,
        ) || (owner == note && among_internal_targets(s.notes, refs, target)),
    decreases refs.len(),
{
    if refs.len() > 0 {
        let shorter = refs.drop_last();
        let before = after_internals(s, note, shorter, ids.drop_last())->Ok_0;
        let after = after_internals(s, note, refs, ids)->Ok_0;
        law_internal_links_after(s, note, shorter, ids.drop_last(), owner, target);
        law_missing_title_fails(s, note, shorter, ids.drop_last());
        let aim = internal_target(s.notes, refs.last())->Some_0;
        let link = LinkView { id: ids.last(), note_id: note, reference_id: aim };
        lemma_linked_push_exactly(before.internal, link, owner, target);
        if among_internal_targets(s.notes, shorter, target) {
            let k = choose|k: int|
                0 <= k < shorter.len() && internal_target(s.notes, #[trigger] shorter[k]) == Some(
                    target,
                );
            assert(refs[k] == shorter[k]);
        }
        if among_internal_targets(s.notes, refs, target) {
            let k = choose|k: int|
                0 <= k < refs.len() && internal_target(s.notes, #[trigger] refs[k]) == Some(target);
            if k < shorter.len() {
                assert(refs[k] == shorter[k]);
            }
        }
        if owner == note && aim == target {
            assert(internal_target(s.notes, refs[refs.len() - 1]) == Some(target));
        }
    }
}

/// A reference that the store has settled points at the same source after
/// one more reference was handled.
proof fn lemma_external_target_stays(
    t: StoreView,
    note: Seq<char>,
    r: ReferenceView,
    source_id: Seq<char>,
    id: Seq<char>,
    kept: ReferenceView,
)
    requires
        external_target(t.sources, kept) is Some,
    ensures
        external_target(after_external(t, note, r, source_id, id).sources, kept)
            == external_target(t.sources, kept),
{
    match r {
        ReferenceView::ById(_) => {},
        ReferenceView::ByTitle(title) => {
            if source_titled(t.sources, title) is None {
                match kept {
                    ReferenceView::ById(_) => {},
                    ReferenceView::ByTitle(other) => {
                        lemma_source_titled_push(
                            t.sources,
                            SourceView { id: source_id, title },
                            other,
                        );
                    },
                }
            }
        },
    }
}

/// Which sources are linked afterwards: once the references of the note
/// `note` to sources were reconciled, a note is linked to a target exactly if
/// it was linked to it before, or it is `note` and one of the references
/// points at the target among the sources that the store then holds. The
/// order of the references plays no part in it.
pub proof fn law_external_links_after(
    s: StoreView,
    note: Seq<char>,
    refs: Seq<ReferenceView>,
    ids: Seq<(Seq<char>, Seq<char>)>,
    owner: Seq<char>,
    target: Seq<char>,
)
    ensures
        linked(after_externals(s, note, refs, ids).external, owner, target) <==> linked(
            s.external,
            owner,
            target,
        ) || (owner == note && among_external_targets(
            after_externals(s, note, refs, ids).sources,
            refs,
            target,
        )),
    decreases refs.len(),
{
    if refs.len() > 0 {
        let shorter = refs.drop_last();
        let before = after_externals(s, note, shorter, ids.drop_last());
        let after = after_externals(s, note, refs, ids);
        let last = refs.last();
        law_external_links_after(s, note, shorter, ids.drop_last(), owner, target);
        lemma_externals_settle(s, note, shorter, ids.drop_last(), ReferenceView::ById(Seq::empty()));
        lemma_external_step_keeps(
            before,
            note,
            last,
            ids.last().0,
            ids.last().1,
            ReferenceView::ById(Seq::empty()),
        );
        let aim = external_target(after.sources, last)->Some_0;
        assert(external_settled(after, note, last));
        let link = LinkView { id: ids.last().1, note_id: note, reference_id: aim };
        let middle = match last {
            ReferenceView::ById(_) => before,
            ReferenceView::ByTitle(title) => match source_titled(before.sources, title) {
                Some(_) => before,
                None => with_source(before, SourceView { id: ids.last().0, title }),
            },
        };
        assert(middle.external == before.external);
        assert(after == linked_external(middle, note, aim, ids.last().1)) by {
            match last {
                ReferenceView::ById(_) => {},
                ReferenceView::ByTitle(title) => {
                    lemma_source_titled_push(
                        before.sources,
                        SourceView { id: ids.last().0, title },
                        title,
                    );
                },
            }
        }
        lemma_linked_push_exactly(before.external, link, owner, target);
        assert forall|k: int| 0 <= k < shorter.len() implies external_target(
            after.sources,
            #[trigger] shorter[k],
        ) == external_target(before.sources, shorter[k]) by {
            assert(external_settled(before, note, shorter[k]));
            lemma_external_target_stays(
                before,
                note,
                last,
                ids.last().0,
                ids.last().1,
                shorter[k],
            );
        }
        if among_external_targets(before.sources, shorter, target) {
            let k = choose|k: int|
                0 <= k < shorter.len() && external_target(before.sources, #[trigger] shorter[k])
                    == Some(target);
            assert(refs[k] == shorter[k]);
            assert(external_target(after.sources, refs[k]) == Some(target));
        }
        if among_external_targets(after.sources, refs, target) {
            let k = choose|k: int|
                0 <= k < refs.len() && external_target(after.sources, #[trigger] refs[k]) == Some(
                    target,
                );
            if k < shorter.len() {
                assert(refs[k] == shorter[k]);
                assert(external_target(before.sources, shorter[k]) == Some(target));
            }
        }
        if owner == note && aim == target {
            assert(external_target(after.sources, refs[refs.len() - 1]) == Some(target));
        }
    }
}

} // verus!
