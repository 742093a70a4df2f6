use vstd::prelude::*;

verus! {

use crate::table::Row;

/// A cataloged document. The category is a required reference; author and
/// series are optional references; the path is relative to the category's
/// root; the date is a calendar date written as text, with no time component.
#[derive(Debug, Clone, PartialEq)]
pub struct Document {
    pub id_: i32,
    pub name_: String,
    pub category_: i32,
    pub author_: Option<i32>,
    pub series_: Option<i32>,
    pub date_: String,
    pub path_: String,
}

/// Mathematical view of a document row.
#[verifier::ext_equal]
pub ghost struct DocumentV {
    pub id: int,
    pub name: Seq<char>,
    pub category: int,
    pub author: Option<int>,
    pub series: Option<int>,
    pub date: Seq<char>,
    pub path: Seq<char>,
}

impl View for Document {
    type V = DocumentV;

    open spec fn view(&self) -> DocumentV {
        DocumentV {
            id: self.id_ as int,
            name: self.name_@,
            category: self.category_ as int,
            author: match self.author_ {
                Some(a) => Some(a as int),
                None => None,
            },
            series: match self.series_ {
                Some(s) => Some(s as int),
                None => None,
            },
            date: self.date_@,
            path: self.path_@,
        }
    }
}

impl DeepView for Document {
    type V = DocumentV;

    open spec fn deep_view(&self) -> DocumentV {
        self@
    }
}

impl Row for Document {
    open spec fn vid(v: DocumentV) -> int {
        v.id
    }

    open spec fn vkey(v: DocumentV) -> Seq<char> {
        v.name
    }

    fn row_id(&self) -> i32 {
        self.id_
    }

    fn key_matches(&self, name: &String) -> bool {
        self.name_ == *name
    }

    fn dup(&self) -> Self {
        Document {
            id_: self.id_,
            name_: self.name_.clone(),
            category_: self.category_,
            author_: match self.author_ {
                Some(a) => Some(a),
                None => None,
            },
            series_: match self.series_ {
                Some(s) => Some(s),
                None => None,
            },
            date_: self.date_.clone(),
            path_: self.path_.clone(),
        }
    }
}

impl Document {
    /// Build a document row from its parts.
    pub fn new(
        id_: i32,
        name_: String,
        category_: i32,
        author_: Option<i32>,
        series_: Option<i32>,
        date_: String,
        path_: String,
    ) -> (r: Document)
        ensures
            r == (Document { id_, name_, category_, author_, series_, date_, path_ }),
    {
        Document { id_, name_, category_, author_, series_, date_, path_ }
    }
}


use crate::author::Author;
use crate::category::Category;
use crate::db_manager::{Catalog, CatalogV};
use crate::errors::CatalogError;
use crate::series::Series;
use crate::table::{
    contains_id, contains_link, find_by_id, find_by_key, has_key, lacks_id,
    lemma_filter_membership, lemma_filter_noop, lemma_filter_push, lemma_first_where_exists,
    lemma_insert_refetch_round_trip, lemma_list_is_insertion_order, lemma_remove_then_absent,
    remove_id, table_insert, LinkV, TableV,
};

/// The view of an optional stored reference.
pub open spec fn opt_id(o: Option<i32>) -> Option<int> {
    match o {
        Some(x) => Some(x as int),
        None => None,
    }
}

/// The store after a document insert: the new row is appended with the next
/// id; nothing else changes.
pub open spec fn spec_add_document(
    c: CatalogV,
    name: Seq<char>,
    category: int,
    author: Option<int>,
    series: Option<int>,
    date: Seq<char>,
    path: Seq<char>,
) -> CatalogV {
    CatalogV {
        documents: table_insert(
            c.documents,
            DocumentV { id: c.documents.next, name, category, author, series, date, path },
        ),
        ..c
    }
}

/// The store after a document delete: every document row with the given id
/// is gone. Association rows that refer to it are kept: deletes do not
/// cascade.
pub open spec fn spec_remove_document(c: CatalogV, id: int) -> CatalogV {
    CatalogV {
        documents: (TableV {
            rows: remove_id::<Document>(c.documents.rows, id),
            next: c.documents.next,
        }),
        ..c
    }
}

/// The predicate "is by this author".
pub open spec fn doc_by_author(author_id: int) -> spec_fn(DocumentV) -> bool {
    |d: DocumentV| d.author == Some(author_id)
}

/// The predicate "belongs to this series".
pub open spec fn doc_by_series(series_id: int) -> spec_fn(DocumentV) -> bool {
    |d: DocumentV| d.series == Some(series_id)
}

/// The predicate "is stored under this category".
pub open spec fn doc_by_category(category_id: int) -> spec_fn(DocumentV) -> bool {
    |d: DocumentV| d.category == category_id
}

/// The predicate "is linked, through the given association table, to the row
/// with this id".
pub open spec fn doc_linked(links: Seq<LinkV>, other_id: int) -> spec_fn(DocumentV) -> bool {
    |d: DocumentV| contains_link(links, d.id, other_id)
}

/// Add a document: the category must exist; author and series are taken as
/// already-resolved optional ids and are not checked. The row is inserted
/// under the next id and re-fetched by name (the natural key).
pub fn add_document(
    store: &mut Catalog,
    document_name: &String,
    document_category: &i32,
    document_author: &Option<i32>,
    document_series: &Option<i32>,
    document_date: &String,
    document_path: &String,
) -> (r: Result<Document, CatalogError>)
    requires
        old(store).wf(),
    ensures
        final(store).wf(),
        find_by_id::<Category>(old(store)@.categories.rows, *document_category as int) is None
            ==> r == Err::<Document, CatalogError>(CatalogError::DanglingReference)
            && final(store)@ == old(store)@,
        find_by_id::<Category>(old(store)@.categories.rows, *document_category as int) is Some
            && old(store)@.documents.next == i32::MAX as int ==> r == Err::<Document, CatalogError>(
            CatalogError::DuplicateOrStoreError,
        ) && final(store)@ == old(store)@,
        find_by_id::<Category>(old(store)@.categories.rows, *document_category as int) is Some
            && old(store)@.documents.next < i32::MAX as int ==> {
            &&& final(store)@ == spec_add_document(
                old(store)@,
                document_name@,
                *document_category as int,
                opt_id(*document_author),
                opt_id(*document_series),
                document_date@,
                document_path@,
            )
            &&& r matches Ok(d) && Some(d@) == find_by_key::<Document>(
                final(store)@.documents.rows,
                document_name@,
            )
        },
{
    if store.categories.get_by_id(*document_category).is_none() {
        return Err(CatalogError::DanglingReference);
    }
    if store.documents.at_capacity() {
        return Err(CatalogError::DuplicateOrStoreError);
    }
    let id = store.documents.next_id();
    store.documents.insert(
        Document {
            id_: id,
            name_: document_name.clone(),
            category_: *document_category,
            author_: *document_author,
            series_: *document_series,
            date_: document_date.clone(),
            path_: document_path.clone(),
        },
    );
    let fetched = store.documents.get_by_key(document_name);
    proof {
        let rows2 = store@.documents.rows;
        assert(has_key::<Document>(document_name@)(rows2[rows2.len() - 1]));
        lemma_first_where_exists(rows2, has_key::<Document>(document_name@));
    }
    match fetched {
        Some(d) => Ok(d),
        None => Err(CatalogError::NotFoundAfterInsert),
    }
}

/// Remove the document with the given id; absence is reported as `NotFound`
/// and leaves the store unchanged. Association rows referring to the
/// document are not cascade-deleted.
pub fn remove_document(store: &mut Catalog, document_id: &i32) -> (r: Result<(), CatalogError>)
    requires
        old(store).wf(),
    ensures
        final(store).wf(),
        final(store)@ == spec_remove_document(old(store)@, *document_id as int),
        r == (if contains_id::<Document>(old(store)@.documents.rows, *document_id as int) {
            Ok::<(), CatalogError>(())
        } else {
            Err::<(), CatalogError>(CatalogError::NotFound)
        }),
        !contains_id::<Document>(old(store)@.documents.rows, *document_id as int)
            ==> final(store)@ == old(store)@,
{
    let found = store.documents.remove_by_id(*document_id);
    proof {
        if !found {
            let rows = old(store)@.documents.rows;
            let p = lacks_id::<Document>(*document_id as int);
            assert forall|i: int| 0 <= i < rows.len() implies p(#[trigger] rows[i]) by {
                assert(Document::vid(rows[i]) != *document_id as int);
            }
            lemma_filter_noop(rows, p);
        }
    }
    if found {
        Ok(())
    } else {
        Err(CatalogError::NotFound)
    }
}

/// All documents, in insertion (ascending-id) order.
pub fn get_documents(store: &Catalog) -> (r: Result<Vec<Document>, CatalogError>)
    ensures
        r matches Ok(v) && v.deep_view() == store@.documents.rows,
{
    Ok(store.documents.list())
}

/// The document with the given id, if any.
pub fn get_document_by_id(store: &Catalog, document_id: &i32) -> (r: Option<Document>)
    ensures
        r.deep_view() == find_by_id::<Document>(store@.documents.rows, *document_id as int),
{
    store.documents.get_by_id(*document_id)
}

/// The earliest document with the given name, if any.
pub fn get_document_by_name(store: &Catalog, document_name: &String) -> (r: Option<Document>)
    ensures
        r.deep_view() == find_by_key::<Document>(store@.documents.rows, document_name@),
{
    store.documents.get_by_key(document_name)
}

/// The documents whose author is the given one, in insertion order.
#[verifier::loop_isolation(false)]
pub fn get_documents_from_author(store: &Catalog, author_id: &i32) -> (r: Result<
    Vec<Document>,
    CatalogError,
>)
    ensures
        r matches Ok(v) && v.deep_view() == store@.documents.rows.filter(
            doc_by_author(*author_id as int),
        ),
{
    let ghost rows = store@.documents.rows;
    let ghost p = doc_by_author(*author_id as int);
    let mut out: Vec<Document> = Vec::new();
    let mut i: usize = 0;
    proof {
        reveal(Seq::filter);
        assert(out.deep_view() =~= rows.subrange(0, 0).filter(p));
    }
    while i < store.documents.row_count()
        invariant
            0 <= i <= rows.len(),
            out.deep_view() == rows.subrange(0, i as int).filter(p),
        decreases rows.len() - i,
    {
        let ghost prefix = rows.subrange(0, i as int);
        let row = store.documents.row_at(i);
        let keep = match row.author_ {
            Some(a) => a == *author_id,
            None => false,
        };
        if keep {
            out.push(row.dup());
        }
        i += 1;
        proof {
            assert(rows.subrange(0, i as int) =~= prefix.push(rows[i - 1]));
            lemma_filter_push(prefix, rows[i - 1], p);
            assert(out.deep_view() =~= rows.subrange(0, i as int).filter(p));
        }
    }
    proof {
        assert(rows.subrange(0, rows.len() as int) =~= rows);
    }
    Ok(out)
}

/// The documents belonging to the given series, in insertion order.
#[verifier::loop_isolation(false)]
pub fn get_documents_from_series(store: &Catalog, series_id: &i32) -> (r: Result<
    Vec<Document>,
    CatalogError,
>)
    ensures
        r matches Ok(v) && v.deep_view() == store@.documents.rows.filter(
            doc_by_series(*series_id as int),
        ),
{
    let ghost rows = store@.documents.rows;
    let ghost p = doc_by_series(*series_id as int);
    let mut out: Vec<Document> = Vec::new();
    let mut i: usize = 0;
    proof {
        reveal(Seq::filter);
        assert(out.deep_view() =~= rows.subrange(0, 0).filter(p));
    }
    while i < store.documents.row_count()
        invariant
            0 <= i <= rows.len(),
            out.deep_view() == rows.subrange(0, i as int).filter(p),
        decreases rows.len() - i,
    {
        let ghost prefix = rows.subrange(0, i as int);
        let row = store.documents.row_at(i);
        let keep = match row.series_ {
            Some(s) => s == *series_id,
            None => false,
        };
        if keep {
            out.push(row.dup());
        }
        i += 1;
        proof {
            assert(rows.subrange(0, i as int) =~= prefix.push(rows[i - 1]));
            lemma_filter_push(prefix, rows[i - 1], p);
            assert(out.deep_view() =~= rows.subrange(0, i as int).filter(p));
        }
    }
    proof {
        assert(rows.subrange(0, rows.len() as int) =~= rows);
    }
    Ok(out)
}

/// The documents stored under the given category, in insertion order.
#[verifier::loop_isolation(false)]
pub fn get_documents_from_category(store: &Catalog, category_id: &i32) -> (r: Result<
    Vec<Document>,
    CatalogError,
>)
    ensures
        r matches Ok(v) && v.deep_view() == store@.documents.rows.filter(
            doc_by_category(*category_id as int),
        ),
{
    let ghost rows = store@.documents.rows;
    let ghost p = doc_by_category(*category_id as int);
    let mut out: Vec<Document> = Vec::new();
    let mut i: usize = 0;
    proof {
        reveal(Seq::filter);
        assert(out.deep_view() =~= rows.subrange(0, 0).filter(p));
    }
    while i < store.documents.row_count()
        invariant
            0 <= i <= rows.len(),
            out.deep_view() == rows.subrange(0, i as int).filter(p),
        decreases rows.len() - i,
    {
        let ghost prefix = rows.subrange(0, i as int);
        let row = store.documents.row_at(i);
        if row.category_ == *category_id {
            out.push(row.dup());
        }
        i += 1;
        proof {
            assert(rows.subrange(0, i as int) =~= prefix.push(rows[i - 1]));
            lemma_filter_push(prefix, rows[i - 1], p);
            assert(out.deep_view() =~= rows.subrange(0, i as int).filter(p));
        }
    }
    proof {
        assert(rows.subrange(0, rows.len() as int) =~= rows);
    }
    Ok(out)
}

/// The documents linked to the given genre, in insertion order (a join
/// through the document-genre association table).
#[verifier::loop_isolation(false)]
pub fn get_documents_with_genre(store: &Catalog, genre_id: &i32) -> (r: Result<
    Vec<Document>,
    CatalogError,
>)
    ensures
        r matches Ok(v) && v.deep_view() == store@.documents.rows.filter(
            doc_linked(store@.document_genres, *genre_id as int),
        ),
{
    let ghost rows = store@.documents.rows;
    let ghost p = doc_linked(store@.document_genres, *genre_id as int);
    let mut out: Vec<Document> = Vec::new();
    let mut i: usize = 0;
    proof {
        reveal(Seq::filter);
        assert(out.deep_view() =~= rows.subrange(0, 0).filter(p));
    }
    while i < store.documents.row_count()
        invariant
            0 <= i <= rows.len(),
            out.deep_view() == rows.subrange(0, i as int).filter(p),
        decreases rows.len() - i,
    {
        let ghost prefix = rows.subrange(0, i as int);
        let row = store.documents.row_at(i);
        if crate::table::link_present(&store.document_genres, row.row_id(), *genre_id) {
            out.push(row.dup());
        }
        i += 1;
        proof {
            assert(rows.subrange(0, i as int) =~= prefix.push(rows[i - 1]));
            lemma_filter_push(prefix, rows[i - 1], p);
            assert(out.deep_view() =~= rows.subrange(0, i as int).filter(p));
        }
    }
    proof {
        assert(rows.subrange(0, rows.len() as int) =~= rows);
    }
    Ok(out)
}

/// The documents linked to the given tag, in insertion order (a join through
/// the document-tag association table).
#[verifier::loop_isolation(false)]
pub fn get_documents_with_tag(store: &Catalog, tag_id: &i32) -> (r: Result<
    Vec<Document>,
    CatalogError,
>)
    ensures
        r matches Ok(v) && v.deep_view() == store@.documents.rows.filter(
            doc_linked(store@.document_tags, *tag_id as int),
        ),
{
    let ghost rows = store@.documents.rows;
    let ghost p = doc_linked(store@.document_tags, *tag_id as int);
    let mut out: Vec<Document> = Vec::new();
    let mut i: usize = 0;
    proof {
        reveal(Seq::filter);
        assert(out.deep_view() =~= rows.subrange(0, 0).filter(p));
    }
    while i < store.documents.row_count()
        invariant
            0 <= i <= rows.len(),
            out.deep_view() == rows.subrange(0, i as int).filter(p),
        decreases rows.len() - i,
    {
        let ghost prefix = rows.subrange(0, i as int);
        let row = store.documents.row_at(i);
        if crate::table::link_present(&store.document_tags, row.row_id(), *tag_id) {
            out.push(row.dup());
        }
        i += 1;
        proof {
            assert(rows.subrange(0, i as int) =~= prefix.push(rows[i - 1]));
            lemma_filter_push(prefix, rows[i - 1], p);
            assert(out.deep_view() =~= rows.subrange(0, i as int).filter(p));
        }
    }
    proof {
        assert(rows.subrange(0, rows.len() as int) =~= rows);
    }
    Ok(out)
}

/// A document with its stored references resolved into full entity values at
/// read time.
#[derive(Debug, Clone, PartialEq)]
pub struct HydratedDocument {
    pub document: Document,
    pub category: Option<Category>,
    pub author: Option<Author>,
    pub series: Option<Series>,
}

/// Resolve a document's stored category, author and series ids into full
/// entity values. A reference whose row has since been deleted resolves to
/// nothing rather than failing the read: dangling references are tolerated,
/// consistent with deletes not cascading.
pub fn hydrate_document(store: &Catalog, document: &Document) -> (r: HydratedDocument)
    ensures
        r.document@ == document@,
        r.category.deep_view() == find_by_id::<Category>(
            store@.categories.rows,
            document@.category,
        ),
        (match document@.author {
            Some(aid) => r.author.deep_view() == find_by_id::<Author>(store@.authors.rows, aid),
            None => r.author is None,
        }),
        (match document@.series {
            Some(sid) => r.series.deep_view() == find_by_id::<Series>(store@.series.rows, sid),
            None => r.series is None,
        }),
{
    HydratedDocument {
        document: document.dup(),
        category: store.categories.get_by_id(document.category_),
        author: match document.author_ {
            Some(a) => store.authors.get_by_id(a),
            None => None,
        },
        series: match document.series_ {
            Some(s) => store.series.get_by_id(s),
            None => None,
        },
    }
}


/// Round trip: the document returned by an add is found again under its id.
pub proof fn lemma_document_add_then_get(
    c: CatalogV,
    name: Seq<char>,
    category: int,
    author: Option<int>,
    series: Option<int>,
    date: Seq<char>,
    path: Seq<char>,
)
    requires
        c.wf(),
        c.documents.next < i32::MAX as int,
    ensures
        ({
            let c2 = spec_add_document(c, name, category, author, series, date, path);
            let fetched = find_by_key::<Document>(c2.documents.rows, name);
            &&& fetched is Some
            &&& find_by_id::<Document>(c2.documents.rows, Document::vid(fetched->0)) == fetched
        }),
{
    lemma_insert_refetch_round_trip::<Document>(
        c.documents,
        DocumentV { id: c.documents.next, name, category, author, series, date, path },
    );
}

/// After a remove, a fetch of the removed id is absent, and no row carries
/// the id any more, so a second remove of it reports `NotFound`.
pub proof fn lemma_document_remove_then_get(c: CatalogV, id: int)
    ensures
        find_by_id::<Document>(spec_remove_document(c, id).documents.rows, id) is None,
        !contains_id::<Document>(spec_remove_document(c, id).documents.rows, id),
{
    lemma_remove_then_absent::<Document>(c.documents.rows, id);
}

/// A listing after an add is the listing before with the new row appended,
/// and the listing of a well-formed store is in ascending-id (= insertion)
/// order.
pub proof fn lemma_document_list_insertion_order(
    c: CatalogV,
    name: Seq<char>,
    category: int,
    author: Option<int>,
    series: Option<int>,
    date: Seq<char>,
    path: Seq<char>,
)
    requires
        c.wf(),
        c.documents.next < i32::MAX as int,
    ensures
        ({
            let row = DocumentV { id: c.documents.next, name, category, author, series, date, path };
            let listed = spec_add_document(c, name, category, author, series, date, path).documents.rows;
            &&& listed == c.documents.rows.push(row)
            &&& forall|i: int, j: int|
                0 <= i < j < listed.len() ==> Document::vid(#[trigger] listed[i]) < Document::vid(
                    #[trigger] listed[j],
                )
        }),
{
    lemma_list_is_insertion_order::<Document>(
        c.documents,
        DocumentV { id: c.documents.next, name, category, author, series, date, path },
    );
}

/// A document is listed for an author exactly when it is a document of the
/// store whose author is that one; the listing keeps the store's order, so
/// documents of other authors are excluded.
pub proof fn lemma_list_by_author_exact(docs: Seq<DocumentV>, author_id: int, d: DocumentV)
    ensures
        docs.filter(doc_by_author(author_id)).contains(d) <==> (docs.contains(d) && d.author
            == Some(author_id)),
{
    lemma_filter_membership(docs, doc_by_author(author_id), d);
}

/// A document is listed for a tag or genre exactly when it is a document of
/// the store linked to that tag or genre through the association table.
pub proof fn lemma_list_by_link_exact(
    docs: Seq<DocumentV>,
    links: Seq<LinkV>,
    other_id: int,
    d: DocumentV,
)
    ensures
        docs.filter(doc_linked(links, other_id)).contains(d) <==> (docs.contains(d)
            && contains_link(links, d.id, other_id)),
{
    lemma_filter_membership(docs, doc_linked(links, other_id), d);
}


/// End to end: add a document under a name that no document carries yet, by
/// some author; delete that author. The document is still found under its
/// id, unchanged, while the author id now resolves to nothing, so hydrating
/// the document yields no author. A taken name is left out: the add would
/// then hand back the earlier row, and the claim would concern a different
/// document.
pub proof fn lemma_document_survives_author_removal(
    c: CatalogV,
    name: Seq<char>,
    category: int,
    author_id: int,
    series: Option<int>,
    date: Seq<char>,
    path: Seq<char>,
)
    requires
        c.wf(),
        c.documents.next < i32::MAX as int,
        find_by_key::<Document>(c.documents.rows, name) is None,
    ensures
        ({
            let row = DocumentV {
                id: c.documents.next,
                name,
                category,
                author: Some(author_id),
                series,
                date,
                path,
            };
            let c2 = spec_add_document(c, name, category, Some(author_id), series, date, path);
            let c3 = crate::author::spec_remove_author(c2, author_id);
            &&& find_by_key::<Document>(c2.documents.rows, name) == Some(row)
            &&& c3.documents == c2.documents
            &&& find_by_id::<Document>(c3.documents.rows, row.id) == Some(row)
            &&& find_by_id::<Author>(c3.authors.rows, author_id) is None
        }),
{
    let row = DocumentV {
        id: c.documents.next,
        name,
        category,
        author: Some(author_id),
        series,
        date,
        path,
    };
    let rows2 = c.documents.rows.push(row);
    let pk = has_key::<Document>(name);
    crate::table::lemma_first_where_none_inv(c.documents.rows, pk);
    assert forall|j: int| 0 <= j < rows2.len() - 1 implies !pk(#[trigger] rows2[j]) by {
        assert(rows2[j] == c.documents.rows[j]);
    }
    assert(pk(rows2[rows2.len() - 1]));
    crate::table::lemma_first_where_at(rows2, pk, rows2.len() - 1);
    let pid = crate::table::has_id::<Document>(row.id);
    assert(pid(rows2[rows2.len() - 1]));
    assert forall|j: int| 0 <= j < rows2.len() - 1 implies !pid(#[trigger] rows2[j]) by {
        assert(rows2[j] == c.documents.rows[j]);
        assert(Document::vid(c.documents.rows[j]) < c.documents.next);
    }
    crate::table::lemma_first_where_at(rows2, pid, rows2.len() - 1);
    lemma_remove_then_absent::<Author>(c.authors.rows, author_id);
}

} // verus!
