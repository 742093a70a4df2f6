use vstd::prelude::*;

verus! {

use crate::db_manager::{Catalog, CatalogV};
use crate::errors::CatalogError;
use crate::table::{
    contains_id, find_by_id, find_by_key, has_key, lacks_id, lemma_filter_noop,
    lemma_first_where_exists, remove_id, table_insert, Row, TableV,
};

/// A named filesystem root under which the documents of one storage area
/// live; the scanner walks its path.
#[derive(Debug, Clone, PartialEq)]
pub struct Category {
    pub id_: i32,
    pub name_: String,
    pub path_: String,
}

/// Mathematical view of a category row.
#[verifier::ext_equal]
pub ghost struct CategoryV {
    pub id: int,
    pub name: Seq<char>,
    pub path: Seq<char>,
}

impl View for Category {
    type V = CategoryV;

    open spec fn view(&self) -> CategoryV {
        CategoryV { id: self.id_ as int, name: self.name_@, path: self.path_@ }
    }
}

impl DeepView for Category {
    type V = CategoryV;

    open spec fn deep_view(&self) -> CategoryV {
        self@
    }
}

impl Row for Category {
    open spec fn vid(v: CategoryV) -> int {
        v.id
    }

    open spec fn vkey(v: CategoryV) -> Seq<char> {
        v.name
    }

    fn row_id(&self) -> i32 {
        self.id_
    }

    fn key_matches(&self, name: &String) -> bool {
        self.name_ == *name
    }

    fn dup(&self) -> Self {
        Category { id_: self.id_, name_: self.name_.clone(), path_: self.path_.clone() }
    }
}

impl Category {
    /// Build a category row from its parts.
    pub fn new(id_: i32, name_: String, path_: String) -> (r: Category)
        ensures
            r == (Category { id_, name_, path_ }),
    {
        Category { id_, name_, path_ }
    }
}

/// The store after a category insert: the new row is appended with the next
/// id; nothing else changes.
pub open spec fn spec_add_category(c: CatalogV, name: Seq<char>, path: Seq<char>) -> CatalogV {
    CatalogV {
        categories: table_insert(c.categories, CategoryV { id: c.categories.next, name, path }),
        ..c
    }
}

/// The store after a category delete: every category row with the given id
/// is gone; nothing else changes.
pub open spec fn spec_remove_category(c: CatalogV, id: int) -> CatalogV {
    CatalogV {
        categories: (TableV {
            rows: remove_id::<Category>(c.categories.rows, id),
            next: c.categories.next,
        }),
        ..c
    }
}

/// Add a category: insert a row with the given name and root path under the
/// next id, then re-fetch it by name (the natural key) to obtain the stored
/// row.
pub fn add_category(store: &mut Catalog, category_name: &String, category_path: &String) -> (r:
    Result<Category, CatalogError>)
    requires
        old(store).wf(),
    ensures
        final(store).wf(),
        old(store)@.categories.next == i32::MAX as int ==> r == Err::<Category, CatalogError>(
            CatalogError::DuplicateOrStoreError,
        ) && final(store)@ == old(store)@,
        old(store)@.categories.next < i32::MAX as int ==> {
            &&& final(store)@ == spec_add_category(old(store)@, category_name@, category_path@)
            &&& r matches Ok(x) && Some(x@) == find_by_key::<Category>(
                final(store)@.categories.rows,
                category_name@,
            )
        },
{
    if store.categories.at_capacity() {
        return Err(CatalogError::DuplicateOrStoreError);
    }
    let id = store.categories.next_id();
    store.categories.insert(
        Category { id_: id, name_: category_name.clone(), path_: category_path.clone() },
    );
    let fetched = store.categories.get_by_key(category_name);
    proof {
        let rows2 = store@.categories.rows;
        assert(has_key::<Category>(category_name@)(rows2[rows2.len() - 1]));
        lemma_first_where_exists(rows2, has_key::<Category>(category_name@));
    }
    match fetched {
        Some(x) => Ok(x),
        None => Err(CatalogError::NotFoundAfterInsert),
    }
}

/// Remove the category with the given id; absence is reported as `NotFound`
/// and leaves the store unchanged.
pub fn remove_category(store: &mut Catalog, category_id: &i32) -> (r: Result<(), CatalogError>)
    requires
        old(store).wf(),
    ensures
        final(store).wf(),
        final(store)@ == spec_remove_category(old(store)@, *category_id as int),
        r == (if contains_id::<Category>(old(store)@.categories.rows, *category_id as int) {
            Ok::<(), CatalogError>(())
        } else {
            Err::<(), CatalogError>(CatalogError::NotFound)
        }),
        !contains_id::<Category>(old(store)@.categories.rows, *category_id as int)
            ==> final(store)@ == old(store)@,
{
    let found = store.categories.remove_by_id(*category_id);
    proof {
        if !found {
            let rows = old(store)@.categories.rows;
            let p = lacks_id::<Category>(*category_id as int);
            assert forall|i: int| 0 <= i < rows.len() implies p(#[trigger] rows[i]) by {
                assert(Category::vid(rows[i]) != *category_id as int);
            }
            lemma_filter_noop(rows, p);
        }
    }
    if found {
        Ok(())
    } else {
        Err(CatalogError::NotFound)
    }
}

/// All categories, in insertion (ascending-id) order.
pub fn get_categories(store: &Catalog) -> (r: Result<Vec<Category>, CatalogError>)
    ensures
        r matches Ok(v) && v.deep_view() == store@.categories.rows,
{
    Ok(store.categories.list())
}

/// The earliest category with the given name, if any.
pub fn get_category_by_name(store: &Catalog, category_name: &String) -> (r: Option<Category>)
    ensures
        r.deep_view() == find_by_key::<Category>(store@.categories.rows, category_name@),
{
    store.categories.get_by_key(category_name)
}

/// The category with the given id, if any.
pub fn get_category_by_id(store: &Catalog, category_id: &i32) -> (r: Option<Category>)
    ensures
        r.deep_view() == find_by_id::<Category>(store@.categories.rows, *category_id as int),
{
    store.categories.get_by_id(*category_id)
}

} // verus!
