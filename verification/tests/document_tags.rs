use chrono::NaiveDate;
use document_catalog::category::add_category;
use document_catalog::db_manager::create_database;
use document_catalog::document::add_document;
use document_catalog::document_tag::{
    get_document_tag, link_tag_to_document, unlink_tag_to_document, DocumentTag,
};
use document_catalog::errors::CatalogError;
use document_catalog::tag::add_tag;

#[test]
fn adding_document_tag_should_give_newly_created_document_tag() {
    let mut connection = create_database();
    let mangas = add_category(
        &mut connection,
        &"Mangas".to_string(),
        &"~/Documents/Mangas".to_string(),
    )
    .unwrap();
    let one_piece_ch_1001 = add_document(
        &mut connection,
        &"Chapter 1001".to_string(),
        &mangas.id_,
        &None,
        &None,
        &NaiveDate::from_ymd_opt(2021, 1, 18).unwrap().to_string(),
        &"Oda/One piece/chapter-1001.cbz".to_string(),
    )
    .unwrap();
    let chapters = add_tag(&mut connection, &"manga chapters".to_string()).unwrap();
    let maybe_added_document_tag =
        link_tag_to_document(&mut connection, &one_piece_ch_1001.id_, &chapters.id_).unwrap();
    assert_eq!(
        DocumentTag::new(one_piece_ch_1001.id_, chapters.id_),
        maybe_added_document_tag
    );
}

#[test]
fn remove_document_tag_should_delete_it() {
    let mut connection = create_database();
    let mangas = add_category(
        &mut connection,
        &"Mangas".to_string(),
        &"~/Documents/Mangas".to_string(),
    )
    .unwrap();
    let one_piece_ch_1001 = add_document(
        &mut connection,
        &"Chapter 1001".to_string(),
        &mangas.id_,
        &None,
        &None,
        &NaiveDate::from_ymd_opt(2021, 1, 18).unwrap().to_string(),
        &"Oda/One piece/chapter-1001.cbz".to_string(),
    )
    .unwrap();
    let chapters = add_tag(&mut connection, &"manga chapters".to_string()).unwrap();
    link_tag_to_document(&mut connection, &one_piece_ch_1001.id_, &chapters.id_).unwrap();
    unlink_tag_to_document(&mut connection, &one_piece_ch_1001.id_, &chapters.id_).unwrap();
    assert!(get_document_tag(&connection, &one_piece_ch_1001.id_, &chapters.id_).is_none());
}

#[test]
fn linking_the_same_pair_twice_fails_with_already_linked() {
    let mut connection = create_database();
    let mangas = add_category(
        &mut connection,
        &"Mangas".to_string(),
        &"~/Documents/Mangas".to_string(),
    )
    .unwrap();
    let chapter = add_document(
        &mut connection,
        &"Chapter 1001".to_string(),
        &mangas.id_,
        &None,
        &None,
        &NaiveDate::from_ymd_opt(2021, 1, 18).unwrap().to_string(),
        &"Oda/One piece/chapter-1001.cbz".to_string(),
    )
    .unwrap();
    let chapters = add_tag(&mut connection, &"manga chapters".to_string()).unwrap();
    assert!(link_tag_to_document(&mut connection, &chapter.id_, &chapters.id_).is_ok());
    assert_eq!(
        link_tag_to_document(&mut connection, &chapter.id_, &chapters.id_),
        Err(CatalogError::AlreadyLinked)
    );
}

#[test]
fn linking_a_missing_row_is_a_dangling_reference() {
    let mut connection = create_database();
    let mangas = add_category(
        &mut connection,
        &"Mangas".to_string(),
        &"~/Documents/Mangas".to_string(),
    )
    .unwrap();
    let chapter = add_document(
        &mut connection,
        &"Chapter 1001".to_string(),
        &mangas.id_,
        &None,
        &None,
        &NaiveDate::from_ymd_opt(2021, 1, 18).unwrap().to_string(),
        &"Oda/One piece/chapter-1001.cbz".to_string(),
    )
    .unwrap();
    let chapters = add_tag(&mut connection, &"manga chapters".to_string()).unwrap();
    assert_eq!(
        link_tag_to_document(&mut connection, &99, &chapters.id_),
        Err(CatalogError::DanglingReference)
    );
    assert_eq!(
        link_tag_to_document(&mut connection, &chapter.id_, &99),
        Err(CatalogError::DanglingReference)
    );
}

#[test]
fn unlinking_a_pair_that_was_never_linked_is_an_idempotent_success() {
    // The deliberate design choice: an unlink of an absent pair reports
    // success rather than an error, so unlink can be retried freely.
    let mut connection = create_database();
    let mangas = add_category(
        &mut connection,
        &"Mangas".to_string(),
        &"~/Documents/Mangas".to_string(),
    )
    .unwrap();
    let chapter = add_document(
        &mut connection,
        &"Chapter 1001".to_string(),
        &mangas.id_,
        &None,
        &None,
        &NaiveDate::from_ymd_opt(2021, 1, 18).unwrap().to_string(),
        &"Oda/One piece/chapter-1001.cbz".to_string(),
    )
    .unwrap();
    let chapters = add_tag(&mut connection, &"manga chapters".to_string()).unwrap();
    assert_eq!(
        unlink_tag_to_document(&mut connection, &chapter.id_, &chapters.id_),
        Ok(())
    );
    assert_eq!(
        unlink_tag_to_document(&mut connection, &chapter.id_, &chapters.id_),
        Ok(())
    );
}
