use vstd::prelude::*;

verus! {

use crate::db_manager::{Catalog, CatalogV};
use crate::errors::CatalogError;
use crate::table::{
    contains_id, find_by_id, find_by_key, has_key, lacks_id, lemma_filter_noop,
    lemma_first_where_exists, remove_id, table_insert, Row, TableV,
};

/// A free-form label attached to documents.
#[derive(Debug, Clone, PartialEq)]
pub struct Tag {
    pub id_: i32,
    pub name_: String,
}

/// Mathematical view of a tag row.
#[verifier::ext_equal]
pub ghost struct TagV {
    pub id: int,
    pub name: Seq<char>,
}

impl View for Tag {
    type V = TagV;

    open spec fn view(&self) -> TagV {
        TagV { id: self.id_ as int, name: self.name_@ }
    }
}

impl DeepView for Tag {
    type V = TagV;

    open spec fn deep_view(&self) -> TagV {
        self@
    }
}

impl Row for Tag {
    open spec fn vid(v: TagV) -> int {
        v.id
    }

    open spec fn vkey(v: TagV) -> Seq<char> {
        v.name
    }

    fn row_id(&self) -> i32 {
        self.id_
    }

    fn key_matches(&self, name: &String) -> bool {
        self.name_ == *name
    }

    fn dup(&self) -> Self {
        Tag { id_: self.id_, name_: self.name_.clone() }
    }
}

impl Tag {
    /// Build a tag row from its parts.
    pub fn new(id_: i32, name_: String) -> (r: Tag)
        ensures
            r == (Tag { id_, name_ }),
    {
        Tag { id_, name_ }
    }
}

/// The store after a tag insert: the new row is appended with the next
/// id; nothing else changes.
pub open spec fn spec_add_tag(c: CatalogV, name: Seq<char>) -> CatalogV {
    CatalogV { tags: table_insert(c.tags, TagV { id: c.tags.next, name }), ..c }
}

/// The store after a tag delete: every tag row with the given id is
/// gone; nothing else changes.
pub open spec fn spec_remove_tag(c: CatalogV, id: int) -> CatalogV {
    CatalogV {
        tags: (TableV { rows: remove_id::<Tag>(c.tags.rows, id), next: c.tags.next }),
        ..c
    }
}

/// Add a tag: insert a row named `tag_name` under the next id, then
/// re-fetch it by name (the natural key) to obtain the stored row.
pub fn add_tag(store: &mut Catalog, tag_name: &String) -> (r: Result<Tag, CatalogError>)
    requires
        old(store).wf(),
    ensures
        final(store).wf(),
        old(store)@.tags.next == i32::MAX as int ==> r == Err::<Tag, CatalogError>(
            CatalogError::DuplicateOrStoreError,
        ) && final(store)@ == old(store)@,
        old(store)@.tags.next < i32::MAX as int ==> {
            &&& final(store)@ == spec_add_tag(old(store)@, tag_name@)
            &&& r matches Ok(x) && Some(x@) == find_by_key::<Tag>(
                final(store)@.tags.rows,
                tag_name@,
            )
        },
{
    if store.tags.at_capacity() {
        return Err(CatalogError::DuplicateOrStoreError);
    }
    let id = store.tags.next_id();
    store.tags.insert(Tag { id_: id, name_: tag_name.clone() });
    let fetched = store.tags.get_by_key(tag_name);
    proof {
        let rows2 = store@.tags.rows;
        assert(has_key::<Tag>(tag_name@)(rows2[rows2.len() - 1]));
        lemma_first_where_exists(rows2, has_key::<Tag>(tag_name@));
    }
    match fetched {
        Some(x) => Ok(x),
        None => Err(CatalogError::NotFoundAfterInsert),
    }
}

/// Remove the tag with the given id; absence is reported as `NotFound`
/// and leaves the store unchanged.
pub fn remove_tag(store: &mut Catalog, tag_id: &i32) -> (r: Result<(), CatalogError>)
    requires
        old(store).wf(),
    ensures
        final(store).wf(),
        final(store)@ == spec_remove_tag(old(store)@, *tag_id as int),
        r == (if contains_id::<Tag>(old(store)@.tags.rows, *tag_id as int) {
            Ok::<(), CatalogError>(())
        } else {
            Err::<(), CatalogError>(CatalogError::NotFound)
        }),
        !contains_id::<Tag>(old(store)@.tags.rows, *tag_id as int) ==> final(store)@
            == old(store)@,
{
    let found = store.tags.remove_by_id(*tag_id);
    proof {
        if !found {
            let rows = old(store)@.tags.rows;
            let p = lacks_id::<Tag>(*tag_id as int);
            assert forall|i: int| 0 <= i < rows.len() implies p(#[trigger] rows[i]) by {
                assert(Tag::vid(rows[i]) != *tag_id as int);
            }
            lemma_filter_noop(rows, p);
        }
    }
    if found {
        Ok(())
    } else {
        Err(CatalogError::NotFound)
    }
}

/// All tags, in insertion (ascending-id) order.
pub fn get_tags(store: &Catalog) -> (r: Result<Vec<Tag>, CatalogError>)
    ensures
        r matches Ok(v) && v.deep_view() == store@.tags.rows,
{
    Ok(store.tags.list())
}

/// The tag with the given id, if any.
pub fn get_tag_by_id(store: &Catalog, tag_id: &i32) -> (r: Option<Tag>)
    ensures
        r.deep_view() == find_by_id::<Tag>(store@.tags.rows, *tag_id as int),
{
    store.tags.get_by_id(*tag_id)
}

/// The earliest tag with the given name, if any.
pub fn get_tag_by_name(store: &Catalog, tag_name: &String) -> (r: Option<Tag>)
    ensures
        r.deep_view() == find_by_key::<Tag>(store@.tags.rows, tag_name@),
{
    store.tags.get_by_key(tag_name)
}

} // verus!
