use chrono::NaiveDate;
use document_catalog::category::add_category;
use document_catalog::db_manager::create_database;
use document_catalog::document::add_document;
use document_catalog::errors::CatalogError;
use document_catalog::genre::add_genre;
use document_catalog::genre_document::{
    get_document_genre, link_genre_to_document, unlink_genre_to_document, DocumentGenre,
};

#[test]
fn adding_genre_document_should_give_newly_created_document_tag() {
    let mut connection = create_database();
    let books = add_category(
        &mut connection,
        &"Books".to_string(),
        &"~/Documents/Books".to_string(),
    )
    .unwrap();
    let the_fellowship_of_the_ring = add_document(
        &mut connection,
        &"The Fellowship Of The Ring".to_string(),
        &books.id_,
        &None,
        &None,
        &NaiveDate::from_ymd_opt(1954, 6, 29).unwrap().to_string(),
        &"Tolkien/the_fellowship_of_the_ring.epub".to_string(),
    )
    .unwrap();
    let heroic_fantasy = add_genre(&mut connection, &"Heroic Fantasy".to_string()).unwrap();
    let maybe_added_document_genre = link_genre_to_document(
        &mut connection,
        &the_fellowship_of_the_ring.id_,
        &heroic_fantasy.id_,
    )
    .unwrap();
    assert_eq!(
        DocumentGenre::new(the_fellowship_of_the_ring.id_, heroic_fantasy.id_),
        maybe_added_document_genre
    );
}

#[test]
fn remove_genre_document_should_delete_it() {
    let mut connection = create_database();
    let books = add_category(
        &mut connection,
        &"Books".to_string(),
        &"~/Documents/Books".to_string(),
    )
    .unwrap();
    let the_fellowship_of_the_ring = add_document(
        &mut connection,
        &"The Fellowship Of The Ring".to_string(),
        &books.id_,
        &None,
        &None,
        &NaiveDate::from_ymd_opt(1954, 6, 29).unwrap().to_string(),
        &"Tolkien/the_fellowship_of_the_ring.epub".to_string(),
    )
    .unwrap();
    let heroic_fantasy = add_genre(&mut connection, &"Heroic Fantasy".to_string()).unwrap();
    link_genre_to_document(
        &mut connection,
        &the_fellowship_of_the_ring.id_,
        &heroic_fantasy.id_,
    )
    .unwrap();
    unlink_genre_to_document(
        &mut connection,
        &the_fellowship_of_the_ring.id_,
        &heroic_fantasy.id_,
    )
    .unwrap();
    assert!(get_document_genre(
        &connection,
        &the_fellowship_of_the_ring.id_,
        &heroic_fantasy.id_
    )
    .is_none());
}

#[test]
fn linking_the_same_genre_twice_fails_with_already_linked() {
    let mut connection = create_database();
    let books = add_category(
        &mut connection,
        &"Books".to_string(),
        &"~/Documents/Books".to_string(),
    )
    .unwrap();
    let doc = add_document(
        &mut connection,
        &"The Fellowship Of The Ring".to_string(),
        &books.id_,
        &None,
        &None,
        &NaiveDate::from_ymd_opt(1954, 6, 29).unwrap().to_string(),
        &"Tolkien/the_fellowship_of_the_ring.epub".to_string(),
    )
    .unwrap();
    let heroic_fantasy = add_genre(&mut connection, &"Heroic Fantasy".to_string()).unwrap();
    assert!(link_genre_to_document(&mut connection, &doc.id_, &heroic_fantasy.id_).is_ok());
    assert_eq!(
        link_genre_to_document(&mut connection, &doc.id_, &heroic_fantasy.id_),
        Err(CatalogError::AlreadyLinked)
    );
}
