use vstd::prelude::*;

verus! {

use crate::author::{Author, AuthorV};
use crate::category::{Category, CategoryV};
use crate::document::{Document, DocumentV};
use crate::document_tag::DocumentTag;
use crate::genre::{Genre, GenreV};
use crate::genre_document::DocumentGenre;
use crate::series::{Series, SeriesV};
use crate::table::{links_wf, table_wf, LinkV, Table, TableV};
use crate::tag::{Tag, TagV};
use crate::user::{User, UserV};

/// The catalog store: one value holding every table, passed explicitly to
/// every operation. Each entity table assigns ascending integer ids; the two
/// association tables hold unique (document, tag) and (document, genre)
/// pairs.
pub struct Catalog {
    pub(crate) authors: Table<Author>,
    pub(crate) series: Table<Series>,
    pub(crate) categories: Table<Category>,
    pub(crate) genres: Table<Genre>,
    pub(crate) tags: Table<Tag>,
    pub(crate) documents: Table<Document>,
    pub(crate) users: Table<User>,
    pub(crate) document_tags: Vec<DocumentTag>,
    pub(crate) document_genres: Vec<DocumentGenre>,
}

/// Mathematical model of the whole store.
#[verifier::ext_equal]
pub ghost struct CatalogV {
    pub authors: TableV<AuthorV>,
    pub series: TableV<SeriesV>,
    pub categories: TableV<CategoryV>,
    pub genres: TableV<GenreV>,
    pub tags: TableV<TagV>,
    pub documents: TableV<DocumentV>,
    pub users: TableV<UserV>,
    pub document_tags: Seq<LinkV>,
    pub document_genres: Seq<LinkV>,
}

impl View for Catalog {
    type V = CatalogV;

    open(crate) spec fn view(&self) -> CatalogV {
        CatalogV {
            authors: self.authors@,
            series: self.series@,
            categories: self.categories@,
            genres: self.genres@,
            tags: self.tags@,
            documents: self.documents@,
            users: self.users@,
            document_tags: self.document_tags.deep_view(),
            document_genres: self.document_genres.deep_view(),
        }
    }
}

impl CatalogV {
    /// Well-formedness of the whole store: every entity table is well formed
    /// and no association pair occurs twice.
    pub open spec fn wf(self) -> bool {
        &&& table_wf::<Author>(self.authors)
        &&& table_wf::<Series>(self.series)
        &&& table_wf::<Category>(self.categories)
        &&& table_wf::<Genre>(self.genres)
        &&& table_wf::<Tag>(self.tags)
        &&& table_wf::<Document>(self.documents)
        &&& table_wf::<User>(self.users)
        &&& links_wf(self.document_tags)
        &&& links_wf(self.document_genres)
    }
}

/// The model of a freshly created store: every table empty, every id counter
/// at 1.
pub open spec fn empty_catalog() -> CatalogV {
    CatalogV {
        authors: TableV { rows: Seq::empty(), next: 1 },
        series: TableV { rows: Seq::empty(), next: 1 },
        categories: TableV { rows: Seq::empty(), next: 1 },
        genres: TableV { rows: Seq::empty(), next: 1 },
        tags: TableV { rows: Seq::empty(), next: 1 },
        documents: TableV { rows: Seq::empty(), next: 1 },
        users: TableV { rows: Seq::empty(), next: 1 },
        document_tags: Seq::empty(),
        document_genres: Seq::empty(),
    }
}

impl Catalog {
    /// Well-formedness of the store.
    pub open spec fn wf(&self) -> bool {
        self@.wf()
    }
}

/// Create the catalog schema: a store with every table present and empty.
pub fn create_database() -> (r: Catalog)
    ensures
        r.wf(),
        r@ == empty_catalog(),
{
    let r = Catalog {
        authors: Table::empty(),
        series: Table::empty(),
        categories: Table::empty(),
        genres: Table::empty(),
        tags: Table::empty(),
        documents: Table::empty(),
        users: Table::empty(),
        document_tags: Vec::new(),
        document_genres: Vec::new(),
    };
    proof {
        assert(r.document_tags.deep_view() =~= Seq::<LinkV>::empty());
        assert(r.document_genres.deep_view() =~= Seq::<LinkV>::empty());
    }
    r
}

} // verus!
