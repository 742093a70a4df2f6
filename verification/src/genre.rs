use vstd::prelude::*;

verus! {

use crate::db_manager::{Catalog, CatalogV};
use crate::errors::CatalogError;
use crate::table::{
    contains_id, find_by_id, find_by_key, has_key, lacks_id, lemma_filter_noop,
    lemma_first_where_exists, remove_id, table_insert, Row, TableV,
};

/// A genre of documents.
#[derive(Debug, Clone, PartialEq)]
pub struct Genre {
    pub id_: i32,
    pub name_: String,
}

/// Mathematical view of a genre row.
#[verifier::ext_equal]
pub ghost struct GenreV {
    pub id: int,
    pub name: Seq<char>,
}

impl View for Genre {
    type V = GenreV;

    open spec fn view(&self) -> GenreV {
        GenreV { id: self.id_ as int, name: self.name_@ }
    }
}

impl DeepView for Genre {
    type V = GenreV;

    open spec fn deep_view(&self) -> GenreV {
        self@
    }
}

impl Row for Genre {
    open spec fn vid(v: GenreV) -> int {
        v.id
    }

    open spec fn vkey(v: GenreV) -> Seq<char> {
        v.name
    }

    fn row_id(&self) -> i32 {
        self.id_
    }

    fn key_matches(&self, name: &String) -> bool {
        self.name_ == *name
    }

    fn dup(&self) -> Self {
        Genre { id_: self.id_, name_: self.name_.clone() }
    }
}

impl Genre {
    /// Build a genre row from its parts.
    pub fn new(id_: i32, name_: String) -> (r: Genre)
        ensures
            r == (Genre { id_, name_ }),
    {
        Genre { id_, name_ }
    }
}

/// The store after a genre insert: the new row is appended with the next
/// id; nothing else changes.
pub open spec fn spec_add_genre(c: CatalogV, name: Seq<char>) -> CatalogV {
    CatalogV { genres: table_insert(c.genres, GenreV { id: c.genres.next, name }), ..c }
}

/// The store after a genre delete: every genre row with the given id is
/// gone; nothing else changes.
pub open spec fn spec_remove_genre(c: CatalogV, id: int) -> CatalogV {
    CatalogV {
        genres: (TableV { rows: remove_id::<Genre>(c.genres.rows, id), next: c.genres.next }),
        ..c
    }
}

/// Add a genre: insert a row named `genre_name` under the next id, then
/// re-fetch it by name (the natural key) to obtain the stored row.
pub fn add_genre(store: &mut Catalog, genre_name: &String) -> (r: Result<Genre, CatalogError>)
    requires
        old(store).wf(),
    ensures
        final(store).wf(),
        old(store)@.genres.next == i32::MAX as int ==> r == Err::<Genre, CatalogError>(
            CatalogError::DuplicateOrStoreError,
        ) && final(store)@ == old(store)@,
        old(store)@.genres.next < i32::MAX as int ==> {
            &&& final(store)@ == spec_add_genre(old(store)@, genre_name@)
            &&& r matches Ok(x) && Some(x@) == find_by_key::<Genre>(
                final(store)@.genres.rows,
                genre_name@,
            )
        },
{
    if store.genres.at_capacity() {
        return Err(CatalogError::DuplicateOrStoreError);
    }
    let id = store.genres.next_id();
    store.genres.insert(Genre { id_: id, name_: genre_name.clone() });
    let fetched = store.genres.get_by_key(genre_name);
    proof {
        let rows2 = store@.genres.rows;
        assert(has_key::<Genre>(genre_name@)(rows2[rows2.len() - 1]));
        lemma_first_where_exists(rows2, has_key::<Genre>(genre_name@));
    }
    match fetched {
        Some(x) => Ok(x),
        None => Err(CatalogError::NotFoundAfterInsert),
    }
}

/// Remove the genre with the given id; absence is reported as `NotFound`
/// and leaves the store unchanged.
pub fn remove_genre(store: &mut Catalog, genre_id: &i32) -> (r: Result<(), CatalogError>)
    requires
        old(store).wf(),
    ensures
        final(store).wf(),
        final(store)@ == spec_remove_genre(old(store)@, *genre_id as int),
        r == (if contains_id::<Genre>(old(store)@.genres.rows, *genre_id as int) {
            Ok::<(), CatalogError>(())
        } else {
            Err::<(), CatalogError>(CatalogError::NotFound)
        }),
        !contains_id::<Genre>(old(store)@.genres.rows, *genre_id as int) ==> final(store)@
            == old(store)@,
{
    let found = store.genres.remove_by_id(*genre_id);
    proof {
        if !found {
            let rows = old(store)@.genres.rows;
            let p = lacks_id::<Genre>(*genre_id as int);
            assert forall|i: int| 0 <= i < rows.len() implies p(#[trigger] rows[i]) by {
                assert(Genre::vid(rows[i]) != *genre_id as int);
            }
            lemma_filter_noop(rows, p);
        }
    }
    if found {
        Ok(())
    } else {
        Err(CatalogError::NotFound)
    }
}

/// All genres, in insertion (ascending-id) order.
pub fn get_genres(store: &Catalog) -> (r: Result<Vec<Genre>, CatalogError>)
    ensures
        r matches Ok(v) && v.deep_view() == store@.genres.rows,
{
    Ok(store.genres.list())
}

/// The genre with the given id, if any.
pub fn get_genre_by_id(store: &Catalog, genre_id: &i32) -> (r: Option<Genre>)
    ensures
        r.deep_view() == find_by_id::<Genre>(store@.genres.rows, *genre_id as int),
{
    store.genres.get_by_id(*genre_id)
}

/// The earliest genre with the given name, if any.
pub fn get_genre_by_name(store: &Catalog, genre_name: &String) -> (r: Option<Genre>)
    ensures
        r.deep_view() == find_by_key::<Genre>(store@.genres.rows, genre_name@),
{
    store.genres.get_by_key(genre_name)
}

} // verus!
