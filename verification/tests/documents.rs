use chrono::NaiveDate;
use document_catalog::author::add_author;
use document_catalog::category::add_category;
use document_catalog::db_manager::create_database;
use document_catalog::document::{
    add_document, get_document_by_id, get_document_by_name, get_documents,
    get_documents_from_author, get_documents_from_category, get_documents_from_series,
    get_documents_with_genre, get_documents_with_tag, Document,
};
use document_catalog::document_tag::link_tag_to_document;
use document_catalog::errors::CatalogError;
use document_catalog::genre::add_genre;
use document_catalog::genre_document::link_genre_to_document;
use document_catalog::series::add_series;
use document_catalog::tag::add_tag;

#[test]
fn adding_document_should_give_newly_created_document() {
    let mut connection = create_database();
    let books = add_category(
        &mut connection,
        &"Books".to_string(),
        &"~/Documents/Books".to_string(),
    )
    .unwrap();
    let jrr_tolkien = add_author(&mut connection, "J.R.R Tolkien".to_string()).unwrap();
    let the_lord_of_the_rings = add_series(
        &mut connection,
        &"The Lord Of The Rings".to_string(),
        &jrr_tolkien.id_,
    )
    .unwrap();
    let maybe_the_fellowship_of_the_ring = add_document(
        &mut connection,
        &"The fellowship of the ring".to_string(),
        &books.id_,
        &Some(jrr_tolkien.id_),
        &Some(the_lord_of_the_rings.id_),
        &NaiveDate::from_ymd_opt(1954, 6, 29).unwrap().to_string(),
        &"Tolkien/the_fellowship_of_the_ring.epub".to_string(),
    )
    .unwrap();
    assert_eq!(
        Document::new(
            1,
            "The fellowship of the ring".to_string(),
            books.id_,
            Some(jrr_tolkien.id_),
            Some(the_lord_of_the_rings.id_),
            NaiveDate::from_ymd_opt(1954, 6, 29).unwrap().to_string(),
            "Tolkien/the_fellowship_of_the_ring.epub".to_string()
        ),
        maybe_the_fellowship_of_the_ring
    );
}

#[test]
fn getting_all_documents_should_give_all_documents() {
    let mut connection = create_database();
    let books = add_category(
        &mut connection,
        &"Books".to_string(),
        &"~/Documents/Books".to_string(),
    )
    .unwrap();
    let the_fellowship_of_the_ring = add_document(
        &mut connection,
        &"The Fellowship Of The Ring".to_string(),
        &books.id_,
        &None,
        &None,
        &NaiveDate::from_ymd_opt(1954, 6, 29).unwrap().to_string(),
        &"Tolkien/the_fellowship_of_the_ring.epub".to_string(),
    )
    .unwrap();
    let the_two_towers = add_document(
        &mut connection,
        &"The Two Towers".to_string(),
        &books.id_,
        &None,
        &None,
        &NaiveDate::from_ymd_opt(1954, 11, 11).unwrap().to_string(),
        &"Tolkien/the_two_towers.epub".to_string(),
    )
    .unwrap();
    let the_return_of_the_king = add_document(
        &mut connection,
        &"The Return of The King".to_string(),
        &books.id_,
        &None,
        &None,
        &NaiveDate::from_ymd_opt(1955, 10, 20).unwrap().to_string(),
        &"Tolkien/the_return_of_the_king".to_string(),
    )
    .unwrap();
    let documents = [
        the_fellowship_of_the_ring,
        the_two_towers,
        the_return_of_the_king,
    ]
    .to_vec();
    let queried_documents = get_documents(&connection).unwrap();
    assert_eq!(documents, queried_documents);
}

#[test]
fn getting_document_by_id_should_give_document() {
    let mut connection = create_database();
    let books = add_category(
        &mut connection,
        &"Books".to_string(),
        &"~/Documents/Books".to_string(),
    )
    .unwrap();
    let the_fellowship_of_the_ring = add_document(
        &mut connection,
        &"The Fellowship Of The Ring".to_string(),
        &books.id_,
        &None,
        &None,
        &NaiveDate::from_ymd_opt(1954, 6, 29).unwrap().to_string(),
        &"Tolkien/the_fellowship_of_the_ring.epub".to_string(),
    )
    .unwrap();
    let maybe_the_fellowship_of_the_ring =
        get_document_by_id(&connection, &the_fellowship_of_the_ring.id_).unwrap();
    assert_eq!(the_fellowship_of_the_ring, maybe_the_fellowship_of_the_ring);
}

#[test]
fn remove_document_should_delete_it() {
    let mut connection = create_database();
    let books = add_category(
        &mut connection,
        &"Books".to_string(),
        &"~/Documents/Books".to_string(),
    )
    .unwrap();
    let the_fellowship_of_the_ring = add_document(
        &mut connection,
        &"The Fellowship Of The Ring".to_string(),
        &books.id_,
        &None,
        &None,
        &NaiveDate::from_ymd_opt(1954, 6, 29).unwrap().to_string(),
        &"Tolkien/the_fellowship_of_the_ring.epub".to_string(),
    )
    .unwrap();
    document_catalog::document::remove_document(&mut connection, &the_fellowship_of_the_ring.id_)
        .unwrap();
    assert!(get_document_by_id(&connection, &the_fellowship_of_the_ring.id_).is_none());
}

#[test]
fn getting_documents_from_author_should_only_return_documents_from_author() {
    let mut connection = create_database();
    let books = add_category(
        &mut connection,
        &"Books".to_string(),
        &"~/Documents/Books".to_string(),
    )
    .unwrap();
    let jrr_tolkien = add_author(&mut connection, "J.R.R Tolkien".to_string()).unwrap();
    let the_fellowship_of_the_ring = add_document(
        &mut connection,
        &"The Fellowship Of The Ring".to_string(),
        &books.id_,
        &Some(jrr_tolkien.id_),
        &None,
        &NaiveDate::from_ymd_opt(1954, 6, 29).unwrap().to_string(),
        &"Tolkien/the_fellowship_of_the_ring.epub".to_string(),
    )
    .unwrap();
    let the_two_towers = add_document(
        &mut connection,
        &"The Two Towers".to_string(),
        &books.id_,
        &Some(jrr_tolkien.id_),
        &None,
        &NaiveDate::from_ymd_opt(1954, 11, 11).unwrap().to_string(),
        &"Tolkien/the_two_towers.epub".to_string(),
    )
    .unwrap();
    let the_return_of_the_king = add_document(
        &mut connection,
        &"The Return of The King".to_string(),
        &books.id_,
        &Some(jrr_tolkien.id_),
        &None,
        &NaiveDate::from_ymd_opt(1955, 10, 20).unwrap().to_string(),
        &"Tolkien/the_return_of_the_king".to_string(),
    )
    .unwrap();
    let from_tolkien = [
        the_fellowship_of_the_ring,
        the_two_towers,
        the_return_of_the_king,
    ]
    .to_vec();
    let rr_martin = add_author(&mut connection, "R.R Martin".to_string()).unwrap();
    let a_game_of_throne = add_document(
        &mut connection,
        &"A Game Of Thrones".to_string(),
        &books.id_,
        &Some(rr_martin.id_),
        &None,
        &NaiveDate::from_ymd_opt(1996, 8, 6).unwrap().to_string(),
        &"Martin/A_game_of_thrones.epub".to_string(),
    )
    .unwrap();
    assert_eq!(a_game_of_throne.author_, Some(rr_martin.id_));
    let queried_documents = get_documents_from_author(&connection, &jrr_tolkien.id_).unwrap();
    assert_eq!(from_tolkien, queried_documents);
}

#[test]
fn getting_documents_from_series_should_only_return_documents_from_series() {
    let mut connection = create_database();
    let books = add_category(
        &mut connection,
        &"Books".to_string(),
        &"~/Documents/Books".to_string(),
    )
    .unwrap();
    let jrr_tolkien = add_author(&mut connection, "J.R.R Tolkien".to_string()).unwrap();
    let the_lord_of_the_ring = add_series(
        &mut connection,
        &"The Lord Of The Rings".to_string(),
        &jrr_tolkien.id_,
    )
    .unwrap();
    let the_fellowship_of_the_ring = add_document(
        &mut connection,
        &"The Fellowship Of The Ring".to_string(),
        &books.id_,
        &Some(jrr_tolkien.id_),
        &Some(the_lord_of_the_ring.id_),
        &NaiveDate::from_ymd_opt(1954, 6, 29).unwrap().to_string(),
        &"Tolkien/the_fellowship_of_the_ring.epub".to_string(),
    )
    .unwrap();
    let the_two_towers = add_document(
        &mut connection,
        &"The Two Towers".to_string(),
        &books.id_,
        &Some(jrr_tolkien.id_),
        &Some(the_lord_of_the_ring.id_),
        &NaiveDate::from_ymd_opt(1954, 11, 11).unwrap().to_string(),
        &"Tolkien/the_two_towers.epub".to_string(),
    )
    .unwrap();
    let the_return_of_the_king = add_document(
        &mut connection,
        &"The Return of The King".to_string(),
        &books.id_,
        &Some(jrr_tolkien.id_),
        &Some(the_lord_of_the_ring.id_),
        &NaiveDate::from_ymd_opt(1955, 10, 20).unwrap().to_string(),
        &"Tolkien/the_return_of_the_king".to_string(),
    )
    .unwrap();
    let from_the_lord_of_the_ring = [
        the_fellowship_of_the_ring,
        the_two_towers,
        the_return_of_the_king,
    ]
    .to_vec();
    let rr_martin = add_author(&mut connection, "R.R Martin".to_string()).unwrap();
    let a_song_of_ice_and_fire = add_series(
        &mut connection,
        &"A Song Of Ice And Fire".to_string(),
        &rr_martin.id_,
    )
    .unwrap();
    let a_game_of_throne = add_document(
        &mut connection,
        &"A Game Of Thrones".to_string(),
        &books.id_,
        &Some(rr_martin.id_),
        &Some(a_song_of_ice_and_fire.id_),
        &NaiveDate::from_ymd_opt(1996, 8, 6).unwrap().to_string(),
        &"Martin/A_game_of_thrones.epub".to_string(),
    )
    .unwrap();
    assert_eq!(a_game_of_throne.series_, Some(a_song_of_ice_and_fire.id_));
    let queried_documents = get_documents_from_series(&connection, &the_lord_of_the_ring.id_).unwrap();
    assert_eq!(from_the_lord_of_the_ring, queried_documents);
}

#[test]
fn getting_tagged_documents_should_only_return_documents_with_tag() {
    let mut connection = create_database();
    let books = add_category(
        &mut connection,
        &"Books".to_string(),
        &"~/Documents/Books".to_string(),
    )
    .unwrap();
    let the_fellowship_of_the_ring = add_document(
        &mut connection,
        &"The Fellowship Of The Ring".to_string(),
        &books.id_,
        &None,
        &None,
        &NaiveDate::from_ymd_opt(1954, 6, 29).unwrap().to_string(),
        &"Tolkien/the_fellowship_of_the_ring.epub".to_string(),
    )
    .unwrap();
    let the_two_towers = add_document(
        &mut connection,
        &"The Two Towers".to_string(),
        &books.id_,
        &None,
        &None,
        &NaiveDate::from_ymd_opt(1954, 11, 11).unwrap().to_string(),
        &"Tolkien/the_two_towers.epub".to_string(),
    )
    .unwrap();
    let the_return_of_the_king = add_document(
        &mut connection,
        &"The Return of The King".to_string(),
        &books.id_,
        &None,
        &None,
        &NaiveDate::from_ymd_opt(1955, 10, 20).unwrap().to_string(),
        &"Tolkien/the_return_of_the_king".to_string(),
    )
    .unwrap();
    let bangers = [
        the_fellowship_of_the_ring.clone(),
        the_two_towers.clone(),
        the_return_of_the_king.clone(),
    ]
    .to_vec();
    let a_game_of_throne = add_document(
        &mut connection,
        &"A Game Of Thrones".to_string(),
        &books.id_,
        &None,
        &None,
        &NaiveDate::from_ymd_opt(1996, 8, 6).unwrap().to_string(),
        &"Martin/A_game_of_thrones.epub".to_string(),
    )
    .unwrap();
    assert_eq!(a_game_of_throne.id_, 4);
    let banger = add_tag(&mut connection, &"banger".to_string()).unwrap();
    link_tag_to_document(&mut connection, &the_fellowship_of_the_ring.id_, &banger.id_).unwrap();
    link_tag_to_document(&mut connection, &the_two_towers.id_, &banger.id_).unwrap();
    link_tag_to_document(&mut connection, &the_return_of_the_king.id_, &banger.id_).unwrap();
    let queried_documents = get_documents_with_tag(&connection, &banger.id_).unwrap();
    assert_eq!(bangers, queried_documents);
}

#[test]
fn getting_documents_with_genre_should_only_return_documents_with_genre() {
    let mut connection = create_database();
    let books = add_category(
        &mut connection,
        &"Books".to_string(),
        &"~/Documents/Books".to_string(),
    )
    .unwrap();
    let the_fellowship_of_the_ring = add_document(
        &mut connection,
        &"The Fellowship Of The Ring".to_string(),
        &books.id_,
        &None,
        &None,
        &NaiveDate::from_ymd_opt(1954, 6, 29).unwrap().to_string(),
        &"Tolkien/the_fellowship_of_the_ring.epub".to_string(),
    )
    .unwrap();
    let the_two_towers = add_document(
        &mut connection,
        &"The Two Towers".to_string(),
        &books.id_,
        &None,
        &None,
        &NaiveDate::from_ymd_opt(1954, 11, 11).unwrap().to_string(),
        &"Tolkien/the_two_towers.epub".to_string(),
    )
    .unwrap();
    let the_return_of_the_king = add_document(
        &mut connection,
        &"The Return of The King".to_string(),
        &books.id_,
        &None,
        &None,
        &NaiveDate::from_ymd_opt(1955, 10, 20).unwrap().to_string(),
        &"Tolkien/the_return_of_the_king".to_string(),
    )
    .unwrap();
    let hf = [
        the_fellowship_of_the_ring.clone(),
        the_two_towers.clone(),
        the_return_of_the_king.clone(),
    ]
    .to_vec();
    let a_game_of_throne = add_document(
        &mut connection,
        &"A Game Of Thrones".to_string(),
        &books.id_,
        &None,
        &None,
        &NaiveDate::from_ymd_opt(1996, 8, 6).unwrap().to_string(),
        &"Martin/A_game_of_thrones.epub".to_string(),
    )
    .unwrap();
    assert_eq!(a_game_of_throne.id_, 4);
    let heroic_fantasy = add_genre(&mut connection, &"Heroic Fantasy".to_string()).unwrap();
    link_genre_to_document(
        &mut connection,
        &the_fellowship_of_the_ring.id_,
        &heroic_fantasy.id_,
    )
    .unwrap();
    link_genre_to_document(&mut connection, &the_two_towers.id_, &heroic_fantasy.id_).unwrap();
    link_genre_to_document(
        &mut connection,
        &the_return_of_the_king.id_,
        &heroic_fantasy.id_,
    )
    .unwrap();
    let queried_documents = get_documents_with_genre(&connection, &heroic_fantasy.id_).unwrap();
    assert_eq!(hf, queried_documents);
}

#[test]
fn adding_a_document_under_a_missing_category_is_a_dangling_reference() {
    let mut connection = create_database();
    let result = add_document(
        &mut connection,
        &"The Fellowship Of The Ring".to_string(),
        &1,
        &None,
        &None,
        &NaiveDate::from_ymd_opt(1954, 6, 29).unwrap().to_string(),
        &"Tolkien/the_fellowship_of_the_ring.epub".to_string(),
    );
    assert_eq!(result, Err(CatalogError::DanglingReference));
    assert!(get_documents(&connection).unwrap().is_empty());
}

#[test]
fn getting_document_by_name_should_give_the_earliest_match() {
    let mut connection = create_database();
    let books = add_category(
        &mut connection,
        &"Books".to_string(),
        &"~/Documents/Books".to_string(),
    )
    .unwrap();
    let doc = add_document(
        &mut connection,
        &"The Two Towers".to_string(),
        &books.id_,
        &None,
        &None,
        &NaiveDate::from_ymd_opt(1954, 11, 11).unwrap().to_string(),
        &"Tolkien/the_two_towers.epub".to_string(),
    )
    .unwrap();
    assert_eq!(
        get_document_by_name(&connection, &"The Two Towers".to_string()),
        Some(doc)
    );
    assert_eq!(get_document_by_name(&connection, &"Missing".to_string()), None);
}

#[test]
fn listing_by_category_returns_only_its_documents() {
    let mut connection = create_database();
    let books = add_category(
        &mut connection,
        &"Books".to_string(),
        &"~/Documents/Books".to_string(),
    )
    .unwrap();
    let mangas = add_category(
        &mut connection,
        &"Mangas".to_string(),
        &"~/Documents/Mangas".to_string(),
    )
    .unwrap();
    let book = add_document(
        &mut connection,
        &"The Two Towers".to_string(),
        &books.id_,
        &None,
        &None,
        &NaiveDate::from_ymd_opt(1954, 11, 11).unwrap().to_string(),
        &"Tolkien/the_two_towers.epub".to_string(),
    )
    .unwrap();
    let chapter = add_document(
        &mut connection,
        &"Chapter 1001".to_string(),
        &mangas.id_,
        &None,
        &None,
        &NaiveDate::from_ymd_opt(2021, 1, 18).unwrap().to_string(),
        &"Oda/One piece/chapter-1001.cbz".to_string(),
    )
    .unwrap();
    assert_eq!(
        get_documents_from_category(&connection, &books.id_).unwrap(),
        vec![book]
    );
    assert_eq!(
        get_documents_from_category(&connection, &mangas.id_).unwrap(),
        vec![chapter]
    );
}
