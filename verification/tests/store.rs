use document_catalog::author::get_authors;
use document_catalog::category::get_categories;
use document_catalog::db_manager::create_database;
use document_catalog::document::get_documents;
use document_catalog::genre::get_genres;
use document_catalog::series::get_series;
use document_catalog::tag::get_tags;
use document_catalog::user::get_users;

#[test]
fn database_is_successfully_created() {
    let created_db = create_database();
    assert!(get_authors(&created_db).unwrap().is_empty());
    assert!(get_series(&created_db).unwrap().is_empty());
    assert!(get_categories(&created_db).unwrap().is_empty());
    assert!(get_genres(&created_db).unwrap().is_empty());
    assert!(get_tags(&created_db).unwrap().is_empty());
    assert!(get_documents(&created_db).unwrap().is_empty());
    assert!(get_users(&created_db).unwrap().is_empty());
}
