use document_catalog::author::add_author;
use document_catalog::db_manager::create_database;
use document_catalog::series::{
    add_series, get_series, get_series_by_id, get_series_by_name, get_series_from_author,
    remove_series, Series,
};

#[test]
fn adding_series_should_give_newly_created_series() {
    let mut connection = create_database();
    let jk_rowling = add_author(&mut connection, "J.K Rowling".to_string()).unwrap();
    let maybe_added_series =
        add_series(&mut connection, &"Harry Potter".to_string(), &jk_rowling.id_).unwrap();
    assert_eq!(
        Series::new(1, jk_rowling.id_, "Harry Potter".to_string()),
        maybe_added_series
    );
}

#[test]
fn getting_all_series_should_give_all_series() {
    let mut connection = create_database();
    let rr_martin = add_author(&mut connection, "George R.R Martin".to_string()).unwrap();
    let jk_rowling = add_author(&mut connection, "J.K Rowling".to_string()).unwrap();
    let jrr_tolkien = add_author(&mut connection, "J.R.R Tolkien".to_string()).unwrap();
    let harry_potter =
        add_series(&mut connection, &"Harry Potter".to_string(), &rr_martin.id_).unwrap();
    let a_song_of_ice_and_fire = add_series(
        &mut connection,
        &"A song of ice and fire".to_string(),
        &jk_rowling.id_,
    )
    .unwrap();
    let the_lord_of_the_ring = add_series(
        &mut connection,
        &"The lord of the rings".to_string(),
        &jrr_tolkien.id_,
    )
    .unwrap();
    let series = [harry_potter, a_song_of_ice_and_fire, the_lord_of_the_ring].to_vec();
    let queried_series = get_series(&connection).unwrap();
    assert_eq!(series, queried_series);
}

#[test]
fn getting_series_by_id_should_give_series() {
    let mut connection = create_database();
    let jk_rowling = add_author(&mut connection, "J.K Rowling".to_string()).unwrap();
    let harry_potter =
        add_series(&mut connection, &"Harry Potter".to_string(), &jk_rowling.id_).unwrap();
    let maybe_harry_potter = get_series_by_id(&connection, &harry_potter.id_).unwrap();
    assert_eq!(harry_potter, maybe_harry_potter);
}

#[test]
fn remove_series_should_delete_it() {
    let mut connection = create_database();
    let jk_rowling = add_author(&mut connection, "J.K Rowling".to_string()).unwrap();
    let harry_potter =
        add_series(&mut connection, &"Harry Potter".to_string(), &jk_rowling.id_).unwrap();
    remove_series(&mut connection, &harry_potter.id_).unwrap();
    assert!(get_series_by_id(&connection, &harry_potter.id_).is_none());
}

#[test]
fn get_series_from_author_should_only_give_series_from_author() {
    let mut connection = create_database();
    let rr_martin = add_author(&mut connection, "George R.R Martin".to_string()).unwrap();
    let jk_rowling = add_author(&mut connection, "J.K Rowling".to_string()).unwrap();
    let jrr_tolkien = add_author(&mut connection, "J.R.R Tolkien".to_string()).unwrap();
    let harry_potter =
        add_series(&mut connection, &"Harry Potter".to_string(), &rr_martin.id_).unwrap();
    let a_song_of_ice_and_fire = add_series(
        &mut connection,
        &"A song of ice and fire".to_string(),
        &jk_rowling.id_,
    )
    .unwrap();
    let the_lord_of_the_ring = add_series(
        &mut connection,
        &"The lord of the rings".to_string(),
        &jrr_tolkien.id_,
    )
    .unwrap();
    let the_hobbit =
        add_series(&mut connection, &"The Hobbit".to_string(), &jrr_tolkien.id_).unwrap();
    assert_eq!(harry_potter.id_, 1);
    assert_eq!(a_song_of_ice_and_fire.id_, 2);
    let from_tolkien = vec![the_lord_of_the_ring, the_hobbit];
    assert_eq!(
        from_tolkien,
        get_series_from_author(&mut connection, &jrr_tolkien.id_).unwrap()
    );
}

#[test]
fn get_series_from_author_without_series_gives_nothing() {
    let mut connection = create_database();
    let jk_rowling = add_author(&mut connection, "J.K Rowling".to_string()).unwrap();
    assert!(get_series_from_author(&connection, &jk_rowling.id_).is_none());
}

#[test]
fn series_round_trip_by_name() {
    let mut connection = create_database();
    let jk_rowling = add_author(&mut connection, "J.K Rowling".to_string()).unwrap();
    let harry_potter =
        add_series(&mut connection, &"Harry Potter".to_string(), &jk_rowling.id_).unwrap();
    assert_eq!(
        get_series_by_name(&connection, &"Harry Potter".to_string()),
        Some(harry_potter)
    );
}
