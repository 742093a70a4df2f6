use vstd::prelude::*;

verus! {

use crate::db_manager::{Catalog, CatalogV};
use crate::errors::CatalogError;
use crate::table::{
    contains_id, find_by_id, find_by_key, has_key, lacks_id, lemma_filter_noop,
    lemma_filter_push, lemma_first_where_exists, remove_id, table_insert, Row, TableV,
};

/// A series of documents, belonging to exactly one author.
#[derive(Debug, Clone, PartialEq)]
pub struct Series {
    pub id_: i32,
    pub author_: i32,
    pub name_: String,
}

/// Mathematical view of a series row.
#[verifier::ext_equal]
pub ghost struct SeriesV {
    pub id: int,
    pub author: int,
    pub name: Seq<char>,
}

impl View for Series {
    type V = SeriesV;

    open spec fn view(&self) -> SeriesV {
        SeriesV { id: self.id_ as int, author: self.author_ as int, name: self.name_@ }
    }
}

impl DeepView for Series {
    type V = SeriesV;

    open spec fn deep_view(&self) -> SeriesV {
        self@
    }
}

impl Row for Series {
    open spec fn vid(v: SeriesV) -> int {
        v.id
    }

    open spec fn vkey(v: SeriesV) -> Seq<char> {
        v.name
    }

    fn row_id(&self) -> i32 {
        self.id_
    }

    fn key_matches(&self, name: &String) -> bool {
        self.name_ == *name
    }

    fn dup(&self) -> Self {
        Series { id_: self.id_, author_: self.author_, name_: self.name_.clone() }
    }
}

impl Series {
    /// Build a series row from its parts.
    pub fn new(id_: i32, author_: i32, name_: String) -> (r: Series)
        ensures
            r == (Series { id_, author_, name_ }),
    {
        Series { id_, author_, name_ }
    }
}

/// The store after a series insert: the new row is appended with the next
/// id; nothing else changes.
pub open spec fn spec_add_series(c: CatalogV, name: Seq<char>, author: int) -> CatalogV {
    CatalogV {
        series: table_insert(c.series, SeriesV { id: c.series.next, author, name }),
        ..c
    }
}

/// The store after a series delete: every series row with the given id is
/// gone; nothing else changes.
pub open spec fn spec_remove_series(c: CatalogV, id: int) -> CatalogV {
    CatalogV {
        series: (TableV { rows: remove_id::<Series>(c.series.rows, id), next: c.series.next }),
        ..c
    }
}

/// The predicate "belongs to this author".
pub open spec fn series_by_author(author_id: int) -> spec_fn(SeriesV) -> bool {
    |s: SeriesV| s.author == author_id
}

/// Add a series: insert a row with the given name and author under the next
/// id, then re-fetch it by name (the natural key, regardless of the author)
/// to obtain the stored row.
pub fn add_series(store: &mut Catalog, series_name: &String, series_author: &i32) -> (r: Result<
    Series,
    CatalogError,
>)
    requires
        old(store).wf(),
    ensures
        final(store).wf(),
        old(store)@.series.next == i32::MAX as int ==> r == Err::<Series, CatalogError>(
            CatalogError::DuplicateOrStoreError,
        ) && final(store)@ == old(store)@,
        old(store)@.series.next < i32::MAX as int ==> {
            &&& final(store)@ == spec_add_series(old(store)@, series_name@, *series_author as int)
            &&& r matches Ok(x) && Some(x@) == find_by_key::<Series>(
                final(store)@.series.rows,
                series_name@,
            )
        },
{
    if store.series.at_capacity() {
        return Err(CatalogError::DuplicateOrStoreError);
    }
    let id = store.series.next_id();
    store.series.insert(Series { id_: id, author_: *series_author, name_: series_name.clone() });
    let fetched = store.series.get_by_key(series_name);
    proof {
        let rows2 = store@.series.rows;
        assert(has_key::<Series>(series_name@)(rows2[rows2.len() - 1]));
        lemma_first_where_exists(rows2, has_key::<Series>(series_name@));
    }
    match fetched {
        Some(x) => Ok(x),
        None => Err(CatalogError::NotFoundAfterInsert),
    }
}

/// Remove the series with the given id; absence is reported as `NotFound`
/// and leaves the store unchanged.
pub fn remove_series(store: &mut Catalog, series_id: &i32) -> (r: Result<(), CatalogError>)
    requires
        old(store).wf(),
    ensures
        final(store).wf(),
        final(store)@ == spec_remove_series(old(store)@, *series_id as int),
        r == (if contains_id::<Series>(old(store)@.series.rows, *series_id as int) {
            Ok::<(), CatalogError>(())
        } else {
            Err::<(), CatalogError>(CatalogError::NotFound)
        }),
        !contains_id::<Series>(old(store)@.series.rows, *series_id as int) ==> final(store)@
            == old(store)@,
{
    let found = store.series.remove_by_id(*series_id);
    proof {
        if !found {
            let rows = old(store)@.series.rows;
            let p = lacks_id::<Series>(*series_id as int);
            assert forall|i: int| 0 <= i < rows.len() implies p(#[trigger] rows[i]) by {
                assert(Series::vid(rows[i]) != *series_id as int);
            }
            lemma_filter_noop(rows, p);
        }
    }
    if found {
        Ok(())
    } else {
        Err(CatalogError::NotFound)
    }
}

/// All series, in insertion (ascending-id) order.
pub fn get_series(store: &Catalog) -> (r: Result<Vec<Series>, CatalogError>)
    ensures
        r matches Ok(v) && v.deep_view() == store@.series.rows,
{
    Ok(store.series.list())
}

/// The series with the given id, if any.
pub fn get_series_by_id(store: &Catalog, series_id: &i32) -> (r: Option<Series>)
    ensures
        r.deep_view() == find_by_id::<Series>(store@.series.rows, *series_id as int),
{
    store.series.get_by_id(*series_id)
}

/// The earliest series with the given name, if any.
pub fn get_series_by_name(store: &Catalog, series_name: &String) -> (r: Option<Series>)
    ensures
        r.deep_view() == find_by_key::<Series>(store@.series.rows, series_name@),
{
    store.series.get_by_key(series_name)
}

/// The series belonging to the given author, in insertion order; an author
/// with no series yields nothing rather than an empty list.
#[verifier::loop_isolation(false)]
pub fn get_series_from_author(store: &Catalog, author_id: &i32) -> (r: Option<Vec<Series>>)
    ensures
        ({
            let matching = store@.series.rows.filter(series_by_author(*author_id as int));
            if matching.len() == 0 {
                r is None
            } else {
                r matches Some(v) && v.deep_view() == matching
            }
        }),
{
    let ghost rows = store@.series.rows;
    let ghost p = series_by_author(*author_id as int);
    let mut out: Vec<Series> = Vec::new();
    let mut i: usize = 0;
    proof {
        reveal(Seq::filter);
        assert(out.deep_view() =~= rows.subrange(0, 0).filter(p));
    }
    while i < store.series.row_count()
        invariant
            0 <= i <= rows.len(),
            out.deep_view() == rows.subrange(0, i as int).filter(p),
        decreases rows.len() - i,
    {
        let ghost prefix = rows.subrange(0, i as int);
        let row = store.series.row_at(i);
        if row.author_ == *author_id {
            out.push(row.dup());
        }
        i += 1;
        proof {
            assert(rows.subrange(0, i as int) =~= prefix.push(rows[i - 1]));
            lemma_filter_push(prefix, rows[i - 1], p);
            assert(out.deep_view() =~= rows.subrange(0, i as int).filter(p));
        }
    }
    proof {
        assert(rows.subrange(0, rows.len() as int) =~= rows);
    }
    if out.len() == 0 {
        None
    } else {
        Some(out)
    }
}

} // verus!
