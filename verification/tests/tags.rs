use document_catalog::db_manager::create_database;
use document_catalog::errors::CatalogError;
use document_catalog::tag::{add_tag, get_tag_by_id, get_tag_by_name, get_tags, remove_tag, Tag};

#[test]
fn adding_tag_should_give_newly_created_tag() {
    let mut connection = create_database();
    let maybe_added_tag = add_tag(&mut connection, &"favorites".to_string()).unwrap();
    assert_eq!(Tag::new(1, "favorites".to_string()), maybe_added_tag);
}

#[test]
fn getting_all_tags_should_give_all_tags() {
    let mut connection = create_database();
    let favorites = add_tag(&mut connection, &"favorites".to_string()).unwrap();
    let didnt_like = add_tag(&mut connection, &"didn't like".to_string()).unwrap();
    let chapter = add_tag(&mut connection, &"chapter".to_string()).unwrap();
    let tags = [favorites, didnt_like, chapter].to_vec();
    let queried_tags = get_tags(&connection).unwrap();
    assert_eq!(tags, queried_tags);
}

#[test]
fn getting_tag_by_id_should_give_tag() {
    let mut connection = create_database();
    let favorites = add_tag(&mut connection, &"favorites".to_string()).unwrap();
    let maybe_favorites = get_tag_by_id(&connection, &favorites.id_).unwrap();
    assert_eq!(favorites, maybe_favorites);
}

#[test]
fn remove_tag_should_delete_it() {
    let mut connection = create_database();
    let favorites = add_tag(&mut connection, &"favorites".to_string()).unwrap();
    remove_tag(&mut connection, &favorites.id_).unwrap();
    assert!(get_tag_by_id(&connection, &favorites.id_).is_none());
}

#[test]
fn tag_round_trip_by_name() {
    let mut connection = create_database();
    let favorites = add_tag(&mut connection, &"favorites".to_string()).unwrap();
    assert_eq!(
        get_tag_by_name(&connection, &"favorites".to_string()),
        Some(favorites)
    );
    assert_eq!(remove_tag(&mut connection, &7), Err(CatalogError::NotFound));
}
