use vstd::prelude::*;

verus! {

use crate::table::{LinkRow, LinkV};

/// One (document, genre) association row.
#[derive(Debug, Clone, PartialEq)]
pub struct DocumentGenre {
    pub document_: i32,
    pub genre_: i32,
}

impl View for DocumentGenre {
    type V = LinkV;

    open spec fn view(&self) -> LinkV {
        LinkV { document: self.document_ as int, other: self.genre_ as int }
    }
}

impl DeepView for DocumentGenre {
    type V = LinkV;

    open spec fn deep_view(&self) -> LinkV {
        self@
    }
}

impl LinkRow for DocumentGenre {
    fn document_id(&self) -> i32 {
        self.document_
    }

    fn other_id(&self) -> i32 {
        self.genre_
    }

    fn dup(&self) -> Self {
        DocumentGenre { document_: self.document_, genre_: self.genre_ }
    }
}

impl DocumentGenre {
    /// Build an association row from its parts.
    pub fn new(document_: i32, genre_: i32) -> (r: DocumentGenre)
        ensures
            r == (DocumentGenre { document_, genre_ }),
    {
        DocumentGenre { document_, genre_ }
    }
}

use crate::db_manager::{Catalog, CatalogV};
use crate::document::Document;
use crate::errors::CatalogError;
use crate::table::{
    contains_link, find_by_id, find_link, first_where, is_link, is_not_link,
    lemma_filter_keeps_links_wf, lemma_filter_noop, lemma_first_where_exists, lemma_links_push_wf,
    link_present, remove_link, remove_links,
};
use crate::genre::Genre;

/// The store after linking a genre to a document: the pair is appended to the
/// association table; nothing else changes.
pub open spec fn spec_link_genre(c: CatalogV, document: int, genre: int) -> CatalogV {
    CatalogV { document_genres: c.document_genres.push(LinkV { document, other: genre }), ..c }
}

/// The store after unlinking a genre from a document: every such pair is gone;
/// nothing else changes.
pub open spec fn spec_unlink_genre(c: CatalogV, document: int, genre: int) -> CatalogV {
    CatalogV { document_genres: remove_link(c.document_genres, document, genre), ..c }
}

/// Link a genre to a document: both rows must exist, the pair must not be
/// linked yet, and the stored pair is re-fetched as confirmation.
pub fn link_genre_to_document(store: &mut Catalog, document_id: &i32, genre_id: &i32) -> (r: Result<
    DocumentGenre,
    CatalogError,
>)
    requires
        old(store).wf(),
    ensures
        final(store).wf(),
        (find_by_id::<Document>(old(store)@.documents.rows, *document_id as int) is None
            || find_by_id::<Genre>(old(store)@.genres.rows, *genre_id as int) is None) ==> r
            == Err::<DocumentGenre, CatalogError>(CatalogError::DanglingReference) && final(store)@
            == old(store)@,
        find_by_id::<Document>(old(store)@.documents.rows, *document_id as int) is Some
            && find_by_id::<Genre>(old(store)@.genres.rows, *genre_id as int) is Some ==> {
            if contains_link(old(store)@.document_genres, *document_id as int, *genre_id as int) {
                r == Err::<DocumentGenre, CatalogError>(CatalogError::AlreadyLinked) && final(store)@
                    == old(store)@
            } else {
                final(store)@ == spec_link_genre(old(store)@, *document_id as int, *genre_id as int)
                    && (r matches Ok(l) && l@ == (LinkV {
                    document: *document_id as int,
                    other: *genre_id as int,
                }))
            }
        },
{
    if store.documents.get_by_id(*document_id).is_none() {
        return Err(CatalogError::DanglingReference);
    }
    if store.genres.get_by_id(*genre_id).is_none() {
        return Err(CatalogError::DanglingReference);
    }
    if link_present(&store.document_genres, *document_id, *genre_id) {
        return Err(CatalogError::AlreadyLinked);
    }
    let ghost pair = LinkV { document: *document_id as int, other: *genre_id as int };
    store.document_genres.push(DocumentGenre { document_: *document_id, genre_: *genre_id });
    proof {
        assert(store@.document_genres =~= old(store)@.document_genres.push(pair));
        lemma_links_push_wf(old(store)@.document_genres, pair);
        assert(store@ =~= spec_link_genre(old(store)@, *document_id as int, *genre_id as int));
    }
    let fetched = find_link(&store.document_genres, *document_id, *genre_id);
    proof {
        let ls2 = store@.document_genres;
        assert(is_link(*document_id as int, *genre_id as int)(ls2[ls2.len() - 1]));
        lemma_first_where_exists(ls2, is_link(*document_id as int, *genre_id as int));
        assert(first_where(ls2, is_link(*document_id as int, *genre_id as int))->0 =~= pair);
    }
    match fetched {
        Some(l) => Ok(l),
        None => Err(CatalogError::NotFoundAfterInsert),
    }
}

/// Unlink a genre from a document. Unlinking a pair that is not linked is a
/// deliberate idempotent success, not an error.
pub fn unlink_genre_to_document(store: &mut Catalog, document_id: &i32, genre_id: &i32) -> (r: Result<
    (),
    CatalogError,
>)
    requires
        old(store).wf(),
    ensures
        final(store).wf(),
        final(store)@ == spec_unlink_genre(old(store)@, *document_id as int, *genre_id as int),
        r == Ok::<(), CatalogError>(()),
        !contains_link(old(store)@.document_genres, *document_id as int, *genre_id as int)
            ==> final(store)@ == old(store)@,
{
    let found = remove_links(&mut store.document_genres, *document_id, *genre_id);
    proof {
        let ls = old(store)@.document_genres;
        let p = is_not_link(*document_id as int, *genre_id as int);
        lemma_filter_keeps_links_wf(ls, p);
        if !found {
            assert forall|i: int| 0 <= i < ls.len() implies p(#[trigger] ls[i]) by {
                if ls[i].document == *document_id as int && ls[i].other == *genre_id as int {
                    assert(contains_link(ls, *document_id as int, *genre_id as int));
                }
            }
            lemma_filter_noop(ls, p);
        }
    }
    Ok(())
}

/// The stored (document, genre) pair, if the two are linked.
pub fn get_document_genre(store: &Catalog, document_id: &i32, genre_id: &i32) -> (r: Option<
    DocumentGenre,
>)
    ensures
        r.deep_view() == first_where(
            store@.document_genres,
            is_link(*document_id as int, *genre_id as int),
        ),
{
    find_link(&store.document_genres, *document_id, *genre_id)
}

/// Linking the same (document, genre) pair twice is refused the second time as
/// already linked, and linking, then unlinking, then fetching the pair finds
/// nothing; the unlink restores the association table.
pub proof fn lemma_genre_link_unlink(c: CatalogV, document: int, genre: int)
    requires
        !contains_link(c.document_genres, document, genre),
    ensures
        contains_link(spec_link_genre(c, document, genre).document_genres, document, genre),
        spec_unlink_genre(spec_link_genre(c, document, genre), document, genre).document_genres
            == c.document_genres,
        first_where(
            spec_unlink_genre(spec_link_genre(c, document, genre), document, genre).document_genres,
            is_link(document, genre),
        ) is None,
{
    crate::table::lemma_relink_refused(c.document_genres, document, genre);
    crate::table::lemma_link_then_unlink_restores(c.document_genres, document, genre);
}

} // verus!
