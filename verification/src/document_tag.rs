use vstd::prelude::*;

verus! {

use crate::table::{LinkRow, LinkV};

/// One (document, tag) association row.
#[derive(Debug, Clone, PartialEq)]
pub struct DocumentTag {
    pub document_: i32,
    pub tag_: i32,
}

impl View for DocumentTag {
    type V = LinkV;

    open spec fn view(&self) -> LinkV {
        LinkV { document: self.document_ as int, other: self.tag_ as int }
    }
}

impl DeepView for DocumentTag {
    type V = LinkV;

    open spec fn deep_view(&self) -> LinkV {
        self@
    }
}

impl LinkRow for DocumentTag {
    fn document_id(&self) -> i32 {
        self.document_
    }

    fn other_id(&self) -> i32 {
        self.tag_
    }

    fn dup(&self) -> Self {
        DocumentTag { document_: self.document_, tag_: self.tag_ }
    }
}

impl DocumentTag {
    /// Build an association row from its parts.
    pub fn new(document_: i32, tag_: i32) -> (r: DocumentTag)
        ensures
            r == (DocumentTag { document_, tag_ }),
    {
        DocumentTag { document_, tag_ }
    }
}

use crate::db_manager::{Catalog, CatalogV};
use crate::document::Document;
use crate::errors::CatalogError;
use crate::table::{
    contains_link, find_by_id, find_link, first_where, is_link, is_not_link,
    lemma_filter_keeps_links_wf, lemma_filter_noop, lemma_first_where_exists, lemma_links_push_wf,
    link_present, remove_link, remove_links,
};
use crate::tag::Tag;

/// The store after linking a tag to a document: the pair is appended to the
/// association table; nothing else changes.
pub open spec fn spec_link_tag(c: CatalogV, document: int, tag: int) -> CatalogV {
    CatalogV { document_tags: c.document_tags.push(LinkV { document, other: tag }), ..c }
}

/// The store after unlinking a tag from a document: every such pair is gone;
/// nothing else changes.
pub open spec fn spec_unlink_tag(c: CatalogV, document: int, tag: int) -> CatalogV {
    CatalogV { document_tags: remove_link(c.document_tags, document, tag), ..c }
}

/// Link a tag to a document: both rows must exist, the pair must not be
/// linked yet, and the stored pair is re-fetched as confirmation.
pub fn link_tag_to_document(store: &mut Catalog, document_id: &i32, tag_id: &i32) -> (r: Result<
    DocumentTag,
    CatalogError,
>)
    requires
        old(store).wf(),
    ensures
        final(store).wf(),
        (find_by_id::<Document>(old(store)@.documents.rows, *document_id as int) is None
            || find_by_id::<Tag>(old(store)@.tags.rows, *tag_id as int) is None) ==> r
            == Err::<DocumentTag, CatalogError>(CatalogError::DanglingReference) && final(store)@
            == old(store)@,
        find_by_id::<Document>(old(store)@.documents.rows, *document_id as int) is Some
            && find_by_id::<Tag>(old(store)@.tags.rows, *tag_id as int) is Some ==> {
            if contains_link(old(store)@.document_tags, *document_id as int, *tag_id as int) {
                r == Err::<DocumentTag, CatalogError>(CatalogError::AlreadyLinked) && final(store)@
                    == old(store)@
            } else {
                final(store)@ == spec_link_tag(old(store)@, *document_id as int, *tag_id as int)
                    && (r matches Ok(l) && l@ == (LinkV {
                    document: *document_id as int,
                    other: *tag_id as int,
                }))
            }
        },
{
    if store.documents.get_by_id(*document_id).is_none() {
        return Err(CatalogError::DanglingReference);
    }
    if store.tags.get_by_id(*tag_id).is_none() {
        return Err(CatalogError::DanglingReference);
    }
    if link_present(&store.document_tags, *document_id, *tag_id) {
        return Err(CatalogError::AlreadyLinked);
    }
    let ghost pair = LinkV { document: *document_id as int, other: *tag_id as int };
    store.document_tags.push(DocumentTag { document_: *document_id, tag_: *tag_id });
    proof {
        assert(store@.document_tags =~= old(store)@.document_tags.push(pair));
        lemma_links_push_wf(old(store)@.document_tags, pair);
        assert(store@ =~= spec_link_tag(old(store)@, *document_id as int, *tag_id as int));
    }
    let fetched = find_link(&store.document_tags, *document_id, *tag_id);
    proof {
        let ls2 = store@.document_tags;
        assert(is_link(*document_id as int, *tag_id as int)(ls2[ls2.len() - 1]));
        lemma_first_where_exists(ls2, is_link(*document_id as int, *tag_id as int));
        assert(first_where(ls2, is_link(*document_id as int, *tag_id as int))->0 =~= pair);
    }
    match fetched {
        Some(l) => Ok(l),
        None => Err(CatalogError::NotFoundAfterInsert),
    }
}

/// Unlink a tag from a document. Unlinking a pair that is not linked is a
/// deliberate idempotent success, not an error.
pub fn unlink_tag_to_document(store: &mut Catalog, document_id: &i32, tag_id: &i32) -> (r: Result<
    (),
    CatalogError,
>)
    requires
        old(store).wf(),
    ensures
        final(store).wf(),
        final(store)@ == spec_unlink_tag(old(store)@, *document_id as int, *tag_id as int),
        r == Ok::<(), CatalogError>(()),
        !contains_link(old(store)@.document_tags, *document_id as int, *tag_id as int)
            ==> final(store)@ == old(store)@,
{
    let found = remove_links(&mut store.document_tags, *document_id, *tag_id);
    proof {
        let ls = old(store)@.document_tags;
        let p = is_not_link(*document_id as int, *tag_id as int);
        lemma_filter_keeps_links_wf(ls, p);
        if !found {
            assert forall|i: int| 0 <= i < ls.len() implies p(#[trigger] ls[i]) by {
                if ls[i].document == *document_id as int && ls[i].other == *tag_id as int {
                    assert(contains_link(ls, *document_id as int, *tag_id as int));
                }
            }
            lemma_filter_noop(ls, p);
        }
    }
    Ok(())
}

/// The stored (document, tag) pair, if the two are linked.
pub fn get_document_tag(store: &Catalog, document_id: &i32, tag_id: &i32) -> (r: Option<
    DocumentTag,
>)
    ensures
        r.deep_view() == first_where(
            store@.document_tags,
            is_link(*document_id as int, *tag_id as int),
        ),
{
    find_link(&store.document_tags, *document_id, *tag_id)
}

/// Linking the same (document, tag) pair twice is refused the second time as
/// already linked, and linking, then unlinking, then fetching the pair finds
/// nothing; the unlink restores the association table.
pub proof fn lemma_tag_link_unlink(c: CatalogV, document: int, tag: int)
    requires
        !contains_link(c.document_tags, document, tag),
    ensures
        contains_link(spec_link_tag(c, document, tag).document_tags, document, tag),
        spec_unlink_tag(spec_link_tag(c, document, tag), document, tag).document_tags
            == c.document_tags,
        first_where(
            spec_unlink_tag(spec_link_tag(c, document, tag), document, tag).document_tags,
            is_link(document, tag),
        ) is None,
{
    crate::table::lemma_relink_refused(c.document_tags, document, tag);
    crate::table::lemma_link_then_unlink_restores(c.document_tags, document, tag);
}

} // verus!
