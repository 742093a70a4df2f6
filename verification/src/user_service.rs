use vstd::prelude::*;

verus! {

use crate::db_manager::Catalog;
use crate::errors::CatalogError;
use crate::user::{
    add_user, get_user_by_username, get_users, spec_add_user, user_by_name, User, UserV,
};

/// All users, in insertion (ascending-id) order.
pub fn get_all_users(store: &Catalog) -> (r: Result<Vec<User>, CatalogError>)
    ensures
        r matches Ok(v) && v.deep_view() == store@.users.rows,
{
    get_users(store)
}

/// Every user carrying the given username, in insertion order.
pub fn get_by_username(store: &Catalog, username: String) -> (r: Result<Vec<User>, CatalogError>)
    ensures
        r matches Ok(v) && v.deep_view() == store@.users.rows.filter(user_by_name(username@)),
{
    get_user_by_username(store, username.as_str())
}

/// Create a user: store the username, email and password hash under a fresh
/// id and return the stored row.
pub fn create_user(store: &mut Catalog, new_user: User) -> (r: Result<User, CatalogError>)
    requires
        old(store).wf(),
    ensures
        final(store).wf(),
        old(store)@.users.next == i32::MAX as int ==> r == Err::<User, CatalogError>(
            CatalogError::DuplicateOrStoreError,
        ) && final(store)@ == old(store)@,
        old(store)@.users.next < i32::MAX as int ==> {
            &&& final(store)@ == spec_add_user(
                old(store)@,
                new_user@.username,
                new_user@.email,
                new_user@.password,
            )
            &&& r matches Ok(u) && u@ == (UserV {
                id: old(store)@.users.next,
                username: new_user@.username,
                email: new_user@.email,
                password: new_user@.password,
            })
        },
{
    add_user(store, new_user)
}

} // verus!
