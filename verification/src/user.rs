use vstd::prelude::*;

verus! {

use crate::table::Row;

/// An account of the surrounding application; independent of the catalog
/// graph. The password hash is stored and returned verbatim: hashing happens
/// entirely outside the store.
#[derive(Debug, Clone, PartialEq)]
pub struct User {
    pub id_: i32,
    pub username_: String,
    pub email_: String,
    pub password_: String,
}

/// Mathematical view of a user row.
#[verifier::ext_equal]
pub ghost struct UserV {
    pub id: int,
    pub username: Seq<char>,
    pub email: Seq<char>,
    pub password: Seq<char>,
}

impl View for User {
    type V = UserV;

    open spec fn view(&self) -> UserV {
        UserV {
            id: self.id_ as int,
            username: self.username_@,
            email: self.email_@,
            password: self.password_@,
        }
    }
}

impl DeepView for User {
    type V = UserV;

    open spec fn deep_view(&self) -> UserV {
        self@
    }
}

impl Row for User {
    open spec fn vid(v: UserV) -> int {
        v.id
    }

    open spec fn vkey(v: UserV) -> Seq<char> {
        v.username
    }

    fn row_id(&self) -> i32 {
        self.id_
    }

    fn key_matches(&self, name: &String) -> bool {
        self.username_ == *name
    }

    fn dup(&self) -> Self {
        User {
            id_: self.id_,
            username_: self.username_.clone(),
            email_: self.email_.clone(),
            password_: self.password_.clone(),
        }
    }
}

impl User {
    /// Build a user row from its parts.
    pub fn new(id_: i32, username_: String, email_: String, password_: String) -> (r: User)
        ensures
            r == (User { id_, username_, email_, password_ }),
    {
        User { id_, username_, email_, password_ }
    }
}

use crate::db_manager::{Catalog, CatalogV};
use crate::errors::CatalogError;
use crate::table::{
    contains_id, lacks_id, lemma_filter_none, lemma_filter_noop, lemma_filter_push, remove_id,
    table_insert, TableV,
};

/// The predicate "has this id".
pub open spec fn user_by_id(id: int) -> spec_fn(UserV) -> bool {
    |u: UserV| u.id == id
}

/// The predicate "has this username".
pub open spec fn user_by_name(name: Seq<char>) -> spec_fn(UserV) -> bool {
    |u: UserV| u.username == name
}

/// The store after a user insert: the new row is appended with the next id;
/// nothing else changes. The id carried by the given value is ignored.
pub open spec fn spec_add_user(
    c: CatalogV,
    username: Seq<char>,
    email: Seq<char>,
    password: Seq<char>,
) -> CatalogV {
    CatalogV {
        users: table_insert(c.users, UserV { id: c.users.next, username, email, password }),
        ..c
    }
}

/// The store after a user delete: every user row with the given id is gone;
/// nothing else changes.
pub open spec fn spec_remove_user(c: CatalogV, id: int) -> CatalogV {
    CatalogV {
        users: (TableV { rows: remove_id::<User>(c.users.rows, id), next: c.users.next }),
        ..c
    }
}

/// All users, in insertion (ascending-id) order.
pub fn get_users(store: &Catalog) -> (r: Result<Vec<User>, CatalogError>)
    ensures
        r matches Ok(v) && v.deep_view() == store@.users.rows,
{
    Ok(store.users.list())
}

/// Every user row carrying the given id (at most one, since ids are unique).
#[verifier::loop_isolation(false)]
pub fn get_user_by_id(store: &Catalog, user_id: i32) -> (r: Result<Vec<User>, CatalogError>)
    ensures
        r matches Ok(v) && v.deep_view() == store@.users.rows.filter(user_by_id(user_id as int)),
{
    let ghost rows = store@.users.rows;
    let ghost p = user_by_id(user_id as int);
    let mut out: Vec<User> = Vec::new();
    let mut i: usize = 0;
    proof {
        reveal(Seq::filter);
        assert(out.deep_view() =~= rows.subrange(0, 0).filter(p));
    }
    while i < store.users.row_count()
        invariant
            0 <= i <= rows.len(),
            out.deep_view() == rows.subrange(0, i as int).filter(p),
        decreases rows.len() - i,
    {
        let ghost prefix = rows.subrange(0, i as int);
        let row = store.users.row_at(i);
        if row.id_ == user_id {
            out.push(row.dup());
        }
        i += 1;
        proof {
            assert(rows.subrange(0, i as int) =~= prefix.push(rows[i - 1]));
            lemma_filter_push(prefix, rows[i - 1], p);
            assert(out.deep_view() =~= rows.subrange(0, i as int).filter(p));
        }
    }
    proof {
        assert(rows.subrange(0, rows.len() as int) =~= rows);
    }
    Ok(out)
}

/// Every user row carrying the given username, in insertion order.
pub fn get_user_by_username(store: &Catalog, filter_username: &str) -> (r: Result<
    Vec<User>,
    CatalogError,
>)
    ensures
        r matches Ok(v) && v.deep_view() == store@.users.rows.filter(
            user_by_name(filter_username@),
        ),
{
    let owned = filter_username.to_owned();
    Ok(users_matching(store, &owned))
}

/// The rows whose username is exactly the given one, in insertion order.
#[verifier::loop_isolation(false)]
fn users_matching(store: &Catalog, username: &String) -> (r: Vec<User>)
    ensures
        r.deep_view() == store@.users.rows.filter(user_by_name(username@)),
{
    let ghost rows = store@.users.rows;
    let ghost p = user_by_name(username@);
    let mut out: Vec<User> = Vec::new();
    let mut i: usize = 0;
    proof {
        reveal(Seq::filter);
        assert(out.deep_view() =~= rows.subrange(0, 0).filter(p));
    }
    while i < store.users.row_count()
        invariant
            0 <= i <= rows.len(),
            out.deep_view() == rows.subrange(0, i as int).filter(p),
        decreases rows.len() - i,
    {
        let ghost prefix = rows.subrange(0, i as int);
        let row = store.users.row_at(i);
        if row.key_matches(username) {
            out.push(row.dup());
        }
        i += 1;
        proof {
            assert(rows.subrange(0, i as int) =~= prefix.push(rows[i - 1]));
            lemma_filter_push(prefix, rows[i - 1], p);
            assert(out.deep_view() =~= rows.subrange(0, i as int).filter(p));
        }
    }
    proof {
        assert(rows.subrange(0, rows.len() as int) =~= rows);
    }
    out
}

/// Add a user: insert the username, email and password hash under the next
/// id (the id carried by the argument is ignored), then re-fetch the rows
/// with that username and take the last: the newly inserted one.
pub fn add_user(store: &mut Catalog, user: User) -> (r: Result<User, CatalogError>)
    requires
        old(store).wf(),
    ensures
        final(store).wf(),
        old(store)@.users.next == i32::MAX as int ==> r == Err::<User, CatalogError>(
            CatalogError::DuplicateOrStoreError,
        ) && final(store)@ == old(store)@,
        old(store)@.users.next < i32::MAX as int ==> {
            &&& final(store)@ == spec_add_user(
                old(store)@,
                user@.username,
                user@.email,
                user@.password,
            )
            &&& r matches Ok(u) && u@ == (UserV {
                id: old(store)@.users.next,
                username: user@.username,
                email: user@.email,
                password: user@.password,
            })
        },
{
    if store.users.at_capacity() {
        return Err(CatalogError::DuplicateOrStoreError);
    }
    let id = store.users.next_id();
    let username = user.username_.clone();
    store.users.insert(
        User { id_: id, username_: user.username_, email_: user.email_, password_: user.password_ },
    );
    let mut found = users_matching(store, &username);
    proof {
        let rows = old(store)@.users.rows;
        let rows2 = store@.users.rows;
        let p = user_by_name(username@);
        assert(rows2 =~= rows.push(rows2.last()));
        lemma_filter_push(rows, rows2.last(), p);
    }
    let ghost fseq = found.deep_view();
    let popped = found.pop();
    proof {
        assert(fseq.len() > 0);
        assert(popped is Some);
        assert(popped->0.deep_view() == fseq[fseq.len() - 1]);
        assert(fseq[fseq.len() - 1] == store@.users.rows.last());
    }
    match popped {
        Some(u) => Ok(u),
        None => Err(CatalogError::NotFoundAfterInsert),
    }
}

/// Remove the user with the given id; absence is reported as `NotFound` and
/// leaves the store unchanged.
pub fn remove_users(store: &mut Catalog, user_id: i32) -> (r: Result<(), CatalogError>)
    requires
        old(store).wf(),
    ensures
        final(store).wf(),
        final(store)@ == spec_remove_user(old(store)@, user_id as int),
        r == (if contains_id::<User>(old(store)@.users.rows, user_id as int) {
            Ok::<(), CatalogError>(())
        } else {
            Err::<(), CatalogError>(CatalogError::NotFound)
        }),
        !contains_id::<User>(old(store)@.users.rows, user_id as int) ==> final(store)@ == old(
            store,
        )@,
{
    let found = store.users.remove_by_id(user_id);
    proof {
        if !found {
            let rows = old(store)@.users.rows;
            let p = lacks_id::<User>(user_id as int);
            assert forall|i: int| 0 <= i < rows.len() implies p(#[trigger] rows[i]) by {
                assert(User::vid(rows[i]) != user_id as int);
            }
            lemma_filter_noop(rows, p);
        }
    }
    if found {
        Ok(())
    } else {
        Err(CatalogError::NotFound)
    }
}

/// Round trip: the user returned by an add carries the fresh id, and a
/// fetch of that id finds exactly that row.
pub proof fn lemma_user_add_then_get(
    c: CatalogV,
    username: Seq<char>,
    email: Seq<char>,
    password: Seq<char>,
)
    requires
        c.wf(),
        c.users.next < i32::MAX as int,
    ensures
        ({
            let row = UserV { id: c.users.next, username, email, password };
            let c2 = spec_add_user(c, username, email, password);
            c2.users.rows.filter(user_by_id(c.users.next)) == seq![row]
        }),
{
    let row = UserV { id: c.users.next, username, email, password };
    let c2 = spec_add_user(c, username, email, password);
    let p = user_by_id(c.users.next);
    lemma_filter_push(c.users.rows, row, p);
    assert forall|i: int| 0 <= i < c.users.rows.len() implies !p(
        #[trigger] c.users.rows[i],
    ) by {
        assert(User::vid(c.users.rows[i]) < c.users.next);
    }
    lemma_filter_none(c.users.rows, p);
    assert(c2.users.rows.filter(p) =~= seq![row]);
}

/// After a remove, a fetch of the removed id is empty, and no row carries
/// the id any more, so a second remove of it reports `NotFound`.
pub proof fn lemma_user_remove_then_get(c: CatalogV, id: int)
    ensures
        spec_remove_user(c, id).users.rows.filter(user_by_id(id)) == Seq::<UserV>::empty(),
        !contains_id::<User>(spec_remove_user(c, id).users.rows, id),
{
    broadcast use vstd::seq_lib::group_filter_ensures;

    let rest = spec_remove_user(c, id).users.rows;
    let p = user_by_id(id);
    assert forall|j: int| 0 <= j < rest.len() implies !p(#[trigger] rest[j]) by {
        assert(crate::table::lacks_id::<User>(id)(rest[j]));
    }
    lemma_filter_none(rest, p);
    assert forall|j: int| 0 <= j < rest.len() implies User::vid(#[trigger] rest[j]) != id by {
        assert(crate::table::lacks_id::<User>(id)(rest[j]));
    }
}

} // verus!
