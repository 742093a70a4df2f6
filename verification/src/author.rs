use vstd::prelude::*;

verus! {

use crate::db_manager::{Catalog, CatalogV};
use crate::errors::CatalogError;
use crate::table::{
    contains_id, find_by_id, find_by_key, has_key, lacks_id, lemma_filter_noop,
    lemma_first_where_exists, lemma_insert_refetch_round_trip, lemma_list_is_insertion_order,
    lemma_remove_then_absent, remove_id, table_insert, Row,
};

/// A writer of documents. The name is not enforced unique by the schema but
/// is treated as a natural key by the lookup-or-create flow.
#[derive(Debug, Clone, PartialEq)]
pub struct Author {
    pub id_: i32,
    pub name_: String,
}

/// Mathematical view of an author row.
#[verifier::ext_equal]
pub ghost struct AuthorV {
    pub id: int,
    pub name: Seq<char>,
}

impl View for Author {
    type V = AuthorV;

    open spec fn view(&self) -> AuthorV {
        AuthorV { id: self.id_ as int, name: self.name_@ }
    }
}

impl DeepView for Author {
    type V = AuthorV;

    open spec fn deep_view(&self) -> AuthorV {
        self@
    }
}

impl Row for Author {
    open spec fn vid(v: AuthorV) -> int {
        v.id
    }

    open spec fn vkey(v: AuthorV) -> Seq<char> {
        v.name
    }

    fn row_id(&self) -> i32 {
        self.id_
    }

    fn key_matches(&self, name: &String) -> bool {
        self.name_ == *name
    }

    fn dup(&self) -> Self {
        Author { id_: self.id_, name_: self.name_.clone() }
    }
}

impl Author {
    /// Build an author row from its parts.
    pub fn new(id_: i32, name_: String) -> (r: Author)
        ensures
            r == (Author { id_, name_ }),
    {
        Author { id_, name_ }
    }
}

/// The store after an author insert: the new row is appended with the next
/// id; nothing else changes.
pub open spec fn spec_add_author(c: CatalogV, name: Seq<char>) -> CatalogV {
    CatalogV { authors: table_insert(c.authors, AuthorV { id: c.authors.next, name }), ..c }
}

/// The store after an author delete: every author row with the given id is
/// gone; nothing else changes.
pub open spec fn spec_remove_author(c: CatalogV, id: int) -> CatalogV {
    CatalogV {
        authors: (crate::table::TableV { rows: remove_id::<Author>(c.authors.rows, id), next: c.authors.next }),
        ..c
    }
}

/// Add an author: insert a row named `author_name` under the next id, then
/// re-fetch it by name (the natural key) to obtain the stored row. When the
/// name is already taken the re-fetch returns the earliest row with that
/// name: duplicate names collide by design.
pub fn add_author(store: &mut Catalog, author_name: String) -> (r: Result<Author, CatalogError>)
    requires
        old(store).wf(),
    ensures
        final(store).wf(),
        old(store)@.authors.next == i32::MAX as int ==> r == Err::<Author, CatalogError>(
            CatalogError::DuplicateOrStoreError,
        ) && final(store)@ == old(store)@,
        old(store)@.authors.next < i32::MAX as int ==> {
            &&& final(store)@ == spec_add_author(old(store)@, author_name@)
            &&& r matches Ok(a) && Some(a@) == find_by_key::<Author>(
                final(store)@.authors.rows,
                author_name@,
            )
        },
{
    if store.authors.at_capacity() {
        return Err(CatalogError::DuplicateOrStoreError);
    }
    let id = store.authors.next_id();
    store.authors.insert(Author { id_: id, name_: author_name.clone() });
    let fetched = store.authors.get_by_key(&author_name);
    proof {
        let rows2 = store@.authors.rows;
        assert(has_key::<Author>(author_name@)(rows2[rows2.len() - 1]));
        lemma_first_where_exists(rows2, has_key::<Author>(author_name@));
    }
    match fetched {
        Some(a) => Ok(a),
        None => Err(CatalogError::NotFoundAfterInsert),
    }
}

/// Remove the author with the given id; absence is reported as `NotFound`
/// and leaves the store unchanged.
pub fn remove_author(store: &mut Catalog, author_id: &i32) -> (r: Result<(), CatalogError>)
    requires
        old(store).wf(),
    ensures
        final(store).wf(),
        final(store)@ == spec_remove_author(old(store)@, *author_id as int),
        r == (if contains_id::<Author>(old(store)@.authors.rows, *author_id as int) {
            Ok::<(), CatalogError>(())
        } else {
            Err::<(), CatalogError>(CatalogError::NotFound)
        }),
        !contains_id::<Author>(old(store)@.authors.rows, *author_id as int) ==> final(store)@
            == old(store)@,
{
    let found = store.authors.remove_by_id(*author_id);
    proof {
        if !found {
            let rows = old(store)@.authors.rows;
            let p = lacks_id::<Author>(*author_id as int);
            assert forall|i: int| 0 <= i < rows.len() implies p(#[trigger] rows[i]) by {
                assert(Author::vid(rows[i]) != *author_id as int);
            }
            lemma_filter_noop(rows, p);
        }
    }
    if found {
        Ok(())
    } else {
        Err(CatalogError::NotFound)
    }
}

/// All authors, in insertion (ascending-id) order.
pub fn get_authors(store: &Catalog) -> (r: Result<Vec<Author>, CatalogError>)
    ensures
        r matches Ok(v) && v.deep_view() == store@.authors.rows,
{
    Ok(store.authors.list())
}

/// The author with the given id, if any.
pub fn get_author_by_id(store: &Catalog, author_id: &i32) -> (r: Option<Author>)
    ensures
        r.deep_view() == find_by_id::<Author>(store@.authors.rows, *author_id as int),
{
    store.authors.get_by_id(*author_id)
}

/// The earliest author with the given name, if any.
pub fn get_author_by_name(store: &Catalog, author_name: &String) -> (r: Option<Author>)
    ensures
        r.deep_view() == find_by_key::<Author>(store@.authors.rows, author_name@),
{
    store.authors.get_by_key(author_name)
}


/// Round trip: the author returned by an add is found again under its id.
/// The add's result is the re-fetch by name; its id leads back to that very
/// row, also when the name was already taken.
pub proof fn lemma_author_add_then_get(c: CatalogV, name: Seq<char>)
    requires
        c.wf(),
        c.authors.next < i32::MAX as int,
    ensures
        ({
            let c2 = spec_add_author(c, name);
            let fetched = find_by_key::<Author>(c2.authors.rows, name);
            &&& fetched is Some
            &&& find_by_id::<Author>(c2.authors.rows, Author::vid(fetched->0)) == fetched
        }),
{
    lemma_insert_refetch_round_trip::<Author>(c.authors, AuthorV { id: c.authors.next, name });
}

/// After a remove, a fetch of the removed id is absent, and no row carries
/// the id any more, so a second remove of it reports `NotFound`.
pub proof fn lemma_author_remove_then_get(c: CatalogV, id: int)
    ensures
        find_by_id::<Author>(spec_remove_author(c, id).authors.rows, id) is None,
        !contains_id::<Author>(spec_remove_author(c, id).authors.rows, id),
{
    lemma_remove_then_absent::<Author>(c.authors.rows, id);
}

/// A listing after an add is the listing before with the new row appended,
/// and the listing of a well-formed store is in ascending-id (= insertion)
/// order.
pub proof fn lemma_author_list_insertion_order(c: CatalogV, name: Seq<char>)
    requires
        c.wf(),
        c.authors.next < i32::MAX as int,
    ensures
        spec_add_author(c, name).authors.rows == c.authors.rows.push(
            AuthorV { id: c.authors.next, name },
        ),
        forall|i: int, j: int|
            0 <= i < j < spec_add_author(c, name).authors.rows.len() ==> Author::vid(
                #[trigger] spec_add_author(c, name).authors.rows[i],
            ) < Author::vid(#[trigger] spec_add_author(c, name).authors.rows[j]),
{
    lemma_list_is_insertion_order::<Author>(c.authors, AuthorV { id: c.authors.next, name });
}

/// Deleting an author leaves every document untouched, and the deleted id
/// afterwards resolves to nothing, so hydrating a document that referred to
/// it yields no author.
pub proof fn lemma_remove_author_keeps_documents(c: CatalogV, author_id: int)
    ensures
        spec_remove_author(c, author_id).documents == c.documents,
        find_by_id::<Author>(spec_remove_author(c, author_id).authors.rows, author_id) is None,
{
    lemma_remove_then_absent::<Author>(c.authors.rows, author_id);
}

} // verus!
