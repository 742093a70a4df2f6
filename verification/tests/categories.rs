use document_catalog::category::{
    add_category, get_categories, get_category_by_id, get_category_by_name, remove_category,
    Category,
};
use document_catalog::db_manager::create_database;
use document_catalog::errors::CatalogError;

#[test]
fn adding_category_should_give_newly_created_category() {
    let mut connection = create_database();
    let maybe_added_category = add_category(
        &mut connection,
        &"Books".to_string(),
        &"~/Documents/Books".to_string(),
    )
    .unwrap();
    assert_eq!(
        Category::new(1, "Books".to_string(), "~/Documents/Books".to_string()),
        maybe_added_category
    );
}

#[test]
fn getting_all_categories_should_give_all_categories() {
    let mut connection = create_database();
    let books = add_category(
        &mut connection,
        &"Books".to_string(),
        &"~/Documents/Books".to_string(),
    )
    .unwrap();
    let mangas = add_category(
        &mut connection,
        &"Mangas".to_string(),
        &"~/Documents/Mangas".to_string(),
    )
    .unwrap();
    let comics = add_category(
        &mut connection,
        &"Comics".to_string(),
        &"~/Documents/Comics".to_string(),
    )
    .unwrap();
    let categories = [books, mangas, comics].to_vec();
    let queried_categories = get_categories(&connection).unwrap();
    assert_eq!(categories, queried_categories);
}

#[test]
fn getting_category_by_id_should_give_category() {
    let mut connection = create_database();
    let books = add_category(
        &mut connection,
        &"Books".to_string(),
        &"~/Documents/Books".to_string(),
    )
    .unwrap();
    let maybe_books = get_category_by_id(&connection, &books.id_).unwrap();
    assert_eq!(books, maybe_books);
}

#[test]
fn remove_category_should_delete_it() {
    let mut connection = create_database();
    let books = add_category(
        &mut connection,
        &"Books".to_string(),
        &"~/Documents/Books".to_string(),
    )
    .unwrap();
    remove_category(&mut connection, &books.id_).unwrap();
    assert!(get_category_by_id(&connection, &books.id_).is_none());
}

#[test]
fn category_round_trip_by_name() {
    let mut connection = create_database();
    let books = add_category(
        &mut connection,
        &"Books".to_string(),
        &"~/Documents/Books".to_string(),
    )
    .unwrap();
    assert_eq!(
        get_category_by_name(&connection, &"Books".to_string()),
        Some(books)
    );
    assert_eq!(get_category_by_name(&connection, &"Missing".to_string()), None);
}

#[test]
fn removing_a_category_twice_fails_with_not_found() {
    let mut connection = create_database();
    let books = add_category(
        &mut connection,
        &"Books".to_string(),
        &"~/Documents/Books".to_string(),
    )
    .unwrap();
    assert_eq!(remove_category(&mut connection, &books.id_), Ok(()));
    assert_eq!(
        remove_category(&mut connection, &books.id_),
        Err(CatalogError::NotFound)
    );
}
