use document_catalog::author::{
    add_author, get_author_by_id, get_author_by_name, get_authors, remove_author, Author,
};
use document_catalog::db_manager::create_database;
use document_catalog::errors::CatalogError;

#[test]
fn adding_author_should_give_newly_created_author() {
    let mut connection = create_database();
    let maybe_added_author = add_author(&mut connection, "George R.R Martin".to_string()).unwrap();
    assert_eq!(Author::new(1, "George R.R Martin".to_string()), maybe_added_author);
}

#[test]
fn getting_all_authors_should_give_all_authors() {
    let mut connection = create_database();
    let rr_martin = add_author(&mut connection, "George R.R Martin".to_string()).unwrap();
    let jk_rowling = add_author(&mut connection, "J.K Rowling".to_string()).unwrap();
    let jrr_tolkien = add_author(&mut connection, "J.R.R Tolkien".to_string()).unwrap();
    let authors = [rr_martin, jk_rowling, jrr_tolkien].to_vec();
    let queried_authors = get_authors(&connection).unwrap();
    assert_eq!(authors, queried_authors);
}

#[test]
fn getting_author_by_id_should_give_author() {
    let mut connection = create_database();
    let rr_martin = add_author(&mut connection, "George R.R Martin".to_string()).unwrap();
    let maybe_rr_martin = get_author_by_id(&connection, &rr_martin.id_).unwrap();
    assert_eq!(rr_martin, maybe_rr_martin);
}

#[test]
fn remove_author_should_delete_it() {
    let mut connection = create_database();
    let rr_martin = add_author(&mut connection, "George R.R Martin".to_string()).unwrap();
    remove_author(&mut connection, &rr_martin.id_).unwrap();
    assert!(get_author_by_id(&connection, &rr_martin.id_).is_none());
}

#[test]
fn removing_an_author_twice_fails_with_not_found() {
    let mut connection = create_database();
    let rr_martin = add_author(&mut connection, "George R.R Martin".to_string()).unwrap();
    assert_eq!(remove_author(&mut connection, &rr_martin.id_), Ok(()));
    assert_eq!(
        remove_author(&mut connection, &rr_martin.id_),
        Err(CatalogError::NotFound)
    );
}

#[test]
fn removing_a_missing_author_fails_with_not_found() {
    let mut connection = create_database();
    assert_eq!(remove_author(&mut connection, &42), Err(CatalogError::NotFound));
}

#[test]
fn adding_a_duplicate_name_returns_the_earliest_row() {
    // The name is a natural key only by convention: a second insert under the
    // same name succeeds, but the re-fetch by name collides with the earlier
    // row and returns it.
    let mut connection = create_database();
    let first = add_author(&mut connection, "George R.R Martin".to_string()).unwrap();
    let second = add_author(&mut connection, "George R.R Martin".to_string()).unwrap();
    assert_eq!(first, second);
    assert_eq!(get_authors(&connection).unwrap().len(), 2);
}

#[test]
fn author_ids_ascend_in_insertion_order() {
    let mut connection = create_database();
    add_author(&mut connection, "George R.R Martin".to_string()).unwrap();
    add_author(&mut connection, "J.K Rowling".to_string()).unwrap();
    add_author(&mut connection, "J.R.R Tolkien".to_string()).unwrap();
    let listed = get_authors(&connection).unwrap();
    let ids: Vec<i32> = listed.iter().map(|a| a.id_).collect();
    assert_eq!(ids, vec![1, 2, 3]);
}

#[test]
fn getting_author_by_name_should_give_the_earliest_match() {
    let mut connection = create_database();
    let rr_martin = add_author(&mut connection, "George R.R Martin".to_string()).unwrap();
    add_author(&mut connection, "J.K Rowling".to_string()).unwrap();
    let found = get_author_by_name(&connection, &"George R.R Martin".to_string()).unwrap();
    assert_eq!(found, rr_martin);
    assert!(get_author_by_name(&connection, &"Nobody".to_string()).is_none());
}
