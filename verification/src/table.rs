use vstd::prelude::*;

verus! {

/// Mathematical model of one table of the catalog store: the rows in
/// insertion order, and the next id the store will assign.
#[verifier::ext_equal]
pub ghost struct TableV<V> {
    pub rows: Seq<V>,
    pub next: int,
}

/// A row of the catalog store: a value with a store-assigned integer id and a
/// natural key (its name).
pub trait Row: Sized + DeepView {
    /// The id of a row, read off its mathematical view.
    spec fn vid(v: Self::V) -> int;

    /// The natural key of a row, read off its mathematical view.
    spec fn vkey(v: Self::V) -> Seq<char>;

    /// The row's store-assigned id.
    fn row_id(&self) -> (r: i32)
        ensures
            r as int == Self::vid(self.deep_view()),
    ;

    /// Whether the row's natural key is exactly the given name.
    fn key_matches(&self, name: &String) -> (r: bool)
        ensures
            r == (Self::vkey(self.deep_view()) == name@),
    ;

    /// An exact copy of the row.
    fn dup(&self) -> (r: Self)
        ensures
            r.deep_view() == self.deep_view(),
    ;
}

/// Well-formedness of a table: ids are at least 1, below the next id to be
/// assigned, and strictly ascending in row order (so ids are unique and
/// insertion order equals ascending-id order).
pub open spec fn table_wf<T: Row>(t: TableV<T::V>) -> bool {
    &&& 1 <= t.next <= i32::MAX as int
    &&& forall|i: int| 0 <= i < t.rows.len() ==> 1 <= T::vid(#[trigger] t.rows[i]) < t.next
    &&& forall|i: int, j: int|
        0 <= i < j < t.rows.len() ==> T::vid(#[trigger] t.rows[i]) < T::vid(
            #[trigger] t.rows[j],
        )
}

/// The table after one insert: the row is appended and the next id advances.
pub open spec fn table_insert<V>(t: TableV<V>, row: V) -> TableV<V> {
    TableV { rows: t.rows.push(row), next: t.next + 1 }
}

/// The first row of `s`, in row order, that satisfies `p`.
pub open spec fn first_where<V>(s: Seq<V>, p: spec_fn(V) -> bool) -> Option<V>
    decreases s.len(),
{
    if s.len() == 0 {
        None
    } else if p(s[0]) {
        Some(s[0])
    } else {
        first_where(s.drop_first(), p)
    }
}

/// The predicate "has this id".
pub open spec fn has_id<T: Row>(id: int) -> spec_fn(T::V) -> bool {
    |v: T::V| T::vid(v) == id
}

/// The predicate "has this natural key".
pub open spec fn has_key<T: Row>(name: Seq<char>) -> spec_fn(T::V) -> bool {
    |v: T::V| T::vkey(v) == name
}

/// The predicate "has an id other than this one".
pub open spec fn lacks_id<T: Row>(id: int) -> spec_fn(T::V) -> bool {
    |v: T::V| T::vid(v) != id
}

/// What a select by id returns: the first row with that id (the only one, in
/// a well-formed table).
pub open spec fn find_by_id<T: Row>(rows: Seq<T::V>, id: int) -> Option<T::V> {
    first_where(rows, has_id::<T>(id))
}

/// What a select by natural key returns: the first row with that name.
pub open spec fn find_by_key<T: Row>(rows: Seq<T::V>, name: Seq<char>) -> Option<T::V> {
    first_where(rows, has_key::<T>(name))
}

/// Whether some row has the given id.
pub open spec fn contains_id<T: Row>(rows: Seq<T::V>, id: int) -> bool {
    exists|i: int| 0 <= i < rows.len() && T::vid(#[trigger] rows[i]) == id
}

/// The rows left after a delete by id, in their original order.
pub open spec fn remove_id<T: Row>(rows: Seq<T::V>, id: int) -> Seq<T::V> {
    rows.filter(lacks_id::<T>(id))
}

/// If `s[i]` is the first match of `p`, then `first_where` returns it.
pub proof fn lemma_first_where_at<V>(s: Seq<V>, p: spec_fn(V) -> bool, i: int)
    requires
        0 <= i < s.len(),
        p(s[i]),
        forall|j: int| 0 <= j < i ==> !p(#[trigger] s[j]),
    ensures
        first_where(s, p) == Some(s[i]),
    decreases i,
{
    if i > 0 {
        lemma_first_where_at(s.drop_first(), p, i - 1);
    }
}

/// If nothing in `s` matches `p`, then `first_where` returns nothing.
pub proof fn lemma_first_where_none<V>(s: Seq<V>, p: spec_fn(V) -> bool)
    requires
        forall|j: int| 0 <= j < s.len() ==> !p(#[trigger] s[j]),
    ensures
        first_where(s, p) is None,
    decreases s.len(),
{
    if s.len() > 0 {
        lemma_first_where_none(s.drop_first(), p);
    }
}

/// A match found by `first_where` sits in `s`, satisfies `p`, and nothing
/// before it satisfies `p`.
pub proof fn lemma_first_where_some<V>(s: Seq<V>, p: spec_fn(V) -> bool)
    requires
        first_where(s, p) is Some,
    ensures
        exists|i: int|
            0 <= i < s.len() && #[trigger] s[i] == first_where(s, p)->0 && p(s[i]) && (forall|
                j: int,
            |
                0 <= j < i ==> !p(#[trigger] s[j])),
    decreases s.len(),
{
    if s.len() > 0 {
        if p(s[0]) {
            assert(s[0] == first_where(s, p)->0);
        } else {
            lemma_first_where_some(s.drop_first(), p);
            let i0 = choose|i: int|
                0 <= i < s.drop_first().len() && #[trigger] s.drop_first()[i] == first_where(
                    s.drop_first(),
                    p,
                )->0 && p(s.drop_first()[i]) && (forall|j: int|
                    0 <= j < i ==> !p(#[trigger] s.drop_first()[j]));
            assert forall|j: int| 0 <= j < i0 + 1 implies !p(#[trigger] s[j]) by {
                if j > 0 {
                    assert(s[j] == s.drop_first()[j - 1]);
                }
            }
            assert(s[i0 + 1] == s.drop_first()[i0]);
        }
    }
}

/// If some row matches `p`, `first_where` finds a match.
pub proof fn lemma_first_where_exists<V>(s: Seq<V>, p: spec_fn(V) -> bool)
    requires
        exists|i: int| 0 <= i < s.len() && p(#[trigger] s[i]),
    ensures
        first_where(s, p) is Some,
        p(first_where(s, p)->0),
    decreases s.len(),
{
    if !p(s[0]) {
        let i0 = choose|i: int| 0 <= i < s.len() && p(#[trigger] s[i]);
        assert(s.drop_first()[i0 - 1] == s[i0]);
        lemma_first_where_exists(s.drop_first(), p);
    }
}

/// Filtering distributes over a push.
pub proof fn lemma_filter_push<V>(s: Seq<V>, x: V, p: spec_fn(V) -> bool)
    ensures
        s.push(x).filter(p) == (if p(x) {
            s.filter(p).push(x)
        } else {
            s.filter(p)
        }),
{
    reveal(Seq::filter);
    assert(s.push(x).drop_last() =~= s);
}

/// Every row of a filtered sequence sits somewhere in the original.
pub proof fn lemma_filter_subset<V>(s: Seq<V>, p: spec_fn(V) -> bool)
    ensures
        forall|i: int|
            0 <= i < s.filter(p).len() ==> exists|j: int|
                0 <= j < s.len() && #[trigger] s.filter(p)[i] == s[j],
    decreases s.len(),
{
    reveal(Seq::filter);
    if s.len() > 0 {
        lemma_filter_subset(s.drop_last(), p);
        let f = s.filter(p);
        let fd = s.drop_last().filter(p);
        assert forall|i: int| 0 <= i < f.len() implies exists|j: int|
            0 <= j < s.len() && #[trigger] f[i] == s[j] by {
            if i < fd.len() {
                let j0 = choose|j: int| 0 <= j < s.drop_last().len() && fd[i] == #[trigger] s[j];
                assert(f[i] == s[j0]);
            } else {
                assert(f[i] == s[s.len() - 1]);
            }
        }
    }
}

/// Filtering a sequence in which nothing satisfies the predicate leaves
/// nothing.
pub proof fn lemma_filter_none<V>(s: Seq<V>, p: spec_fn(V) -> bool)
    requires
        forall|i: int| 0 <= i < s.len() ==> !p(#[trigger] s[i]),
    ensures
        s.filter(p) == Seq::<V>::empty(),
    decreases s.len(),
{
    reveal(Seq::filter);
    if s.len() > 0 {
        lemma_filter_none(s.drop_last(), p);
    }
}

/// Filtering a sequence whose rows all satisfy the predicate changes nothing.
pub proof fn lemma_filter_noop<V>(s: Seq<V>, p: spec_fn(V) -> bool)
    requires
        forall|i: int| 0 <= i < s.len() ==> p(#[trigger] s[i]),
    ensures
        s.filter(p) == s,
    decreases s.len(),
{
    reveal(Seq::filter);
    if s.len() > 0 {
        lemma_filter_noop(s.drop_last(), p);
        assert(s.filter(p) =~= s);
    }
}

/// Filtering keeps ids strictly ascending and inside their bounds.
pub proof fn lemma_filter_keeps_ascending<T: Row>(
    rows: Seq<T::V>,
    p: spec_fn(T::V) -> bool,
    lo: int,
    hi: int,
)
    requires
        forall|i: int| 0 <= i < rows.len() ==> lo <= T::vid(#[trigger] rows[i]) < hi,
        forall|i: int, j: int|
            0 <= i < j < rows.len() ==> T::vid(#[trigger] rows[i]) < T::vid(#[trigger] rows[j]),
    ensures
        forall|i: int|
            0 <= i < rows.filter(p).len() ==> lo <= T::vid(#[trigger] rows.filter(p)[i]) < hi,
        forall|i: int, j: int|
            0 <= i < j < rows.filter(p).len() ==> T::vid(#[trigger] rows.filter(p)[i]) < T::vid(
                #[trigger] rows.filter(p)[j],
            ),
    decreases rows.len(),
{
    reveal(Seq::filter);
    if rows.len() > 0 {
        let last = rows.last();
        let front = rows.drop_last();
        let bound = if T::vid(last) < hi {
            T::vid(last)
        } else {
            hi
        };
        lemma_filter_keeps_ascending::<T>(front, p, lo, bound);
        let f = rows.filter(p);
        let fd = front.filter(p);
        assert forall|i: int| 0 <= i < f.len() implies lo <= T::vid(#[trigger] f[i]) < hi by {
            if i < fd.len() {
                assert(f[i] == fd[i]);
            } else {
                assert(f[i] == last);
            }
        }
        assert forall|i: int, j: int| 0 <= i < j < f.len() implies T::vid(#[trigger] f[i])
            < T::vid(#[trigger] f[j]) by {
            if j < fd.len() {
                assert(f[i] == fd[i] && f[j] == fd[j]);
            } else {
                assert(f[j] == last && f[i] == fd[i]);
            }
        }
    }
}

/// A delete by id keeps the table well formed: the surviving rows keep their
/// order and their bounds.
pub proof fn lemma_remove_id_wf<T: Row>(t: TableV<T::V>, id: int)
    requires
        table_wf::<T>(t),
    ensures
        table_wf::<T>(TableV { rows: remove_id::<T>(t.rows, id), next: t.next }),
{
    lemma_filter_keeps_ascending::<T>(t.rows, lacks_id::<T>(id), 1, t.next);
}

/// One table of the catalog store: rows in insertion order plus the next id
/// to assign, mirroring an autoincrement primary key.
pub struct Table<T> {
    rows: Vec<T>,
    next_id: i32,
}

impl<T: DeepView> View for Table<T> {
    type V = TableV<T::V>;

    closed spec fn view(&self) -> TableV<T::V> {
        TableV { rows: self.rows.deep_view(), next: self.next_id as int }
    }
}

impl<T: Row> Table<T> {
    /// Well-formedness of the table's model.
    pub open spec fn wf(&self) -> bool {
        table_wf::<T>(self@)
    }

    /// A freshly created, empty table; the first assigned id will be 1.
    pub fn empty() -> (r: Self)
        ensures
            r.wf(),
            r@.rows == Seq::<T::V>::empty(),
            r@.next == 1,
    {
        let r = Table { rows: Vec::new(), next_id: 1 };
        proof {
            assert(r@.rows =~= Seq::<T::V>::empty());
        }
        r
    }

    /// Whether the id space is exhausted, so that no row can be inserted.
    pub fn at_capacity(&self) -> (r: bool)
        ensures
            r == (self@.next == i32::MAX as int),
    {
        self.next_id == i32::MAX
    }

    /// The number of rows in the table.
    pub fn row_count(&self) -> (r: usize)
        ensures
            r == self@.rows.len(),
    {
        self.rows.len()
    }

    /// A borrow of the row at the given position.
    pub fn row_at(&self, i: usize) -> (r: &T)
        requires
            i < self@.rows.len(),
        ensures
            r.deep_view() == self@.rows[i as int],
    {
        &self.rows[i]
    }

    /// The id the next inserted row will receive.
    pub fn next_id(&self) -> (r: i32)
        ensures
            r as int == self@.next,
    {
        self.next_id
    }

    /// Insert one row carrying the next id; the row is appended and the next
    /// id advances.
    pub fn insert(&mut self, row: T)
        requires
            old(self).wf(),
            old(self)@.next < i32::MAX as int,
            T::vid(row.deep_view()) == old(self)@.next,
        ensures
            final(self).wf(),
            final(self)@ == table_insert(old(self)@, row.deep_view()),
    {
        let ghost pre = self@;
        let ghost rv = row.deep_view();
        self.rows.push(row);
        self.next_id = self.next_id + 1;
        proof {
            assert(self@.rows =~= pre.rows.push(rv));
        }
    }

    /// Select by id: the first (and, in a well-formed table, only) row with
    /// the given id, or nothing.
    #[verifier::loop_isolation(false)]
    pub fn get_by_id(&self, id: i32) -> (r: Option<T>)
        ensures
            r.deep_view() == find_by_id::<T>(self@.rows, id as int),
    {
        let ghost rows = self@.rows;
        let ghost p = has_id::<T>(id as int);
        let mut i: usize = 0;
        while i < self.rows.len()
            invariant
                0 <= i <= self.rows.len(),
                rows == self@.rows,
                forall|j: int| 0 <= j < i ==> T::vid(#[trigger] rows[j]) != id as int,
            decreases self.rows.len() - i,
        {
            if self.rows[i].row_id() == id {
                let found = self.rows[i].dup();
                proof {
                    lemma_first_where_at(rows, p, i as int);
                }
                return Some(found);
            }
            i += 1;
        }
        proof {
            lemma_first_where_none(rows, p);
        }
        None
    }

    /// Select by natural key: the first row whose name is exactly the given
    /// one, or nothing.
    #[verifier::loop_isolation(false)]
    pub fn get_by_key(&self, name: &String) -> (r: Option<T>)
        ensures
            r.deep_view() == find_by_key::<T>(self@.rows, name@),
    {
        let ghost rows = self@.rows;
        let ghost p = has_key::<T>(name@);
        let mut i: usize = 0;
        while i < self.rows.len()
            invariant
                0 <= i <= self.rows.len(),
                rows == self@.rows,
                forall|j: int| 0 <= j < i ==> T::vkey(#[trigger] rows[j]) != name@,
            decreases self.rows.len() - i,
        {
            if self.rows[i].key_matches(name) {
                let found = self.rows[i].dup();
                proof {
                    lemma_first_where_at(rows, p, i as int);
                }
                return Some(found);
            }
            i += 1;
        }
        proof {
            lemma_first_where_none(rows, p);
        }
        None
    }

    /// Select all rows, in insertion order.
    #[verifier::loop_isolation(false)]
    pub fn list(&self) -> (r: Vec<T>)
        ensures
            r.deep_view() == self@.rows,
    {
        let ghost rows = self@.rows;
        let mut out: Vec<T> = Vec::new();
        let mut i: usize = 0;
        while i < self.rows.len()
            invariant
                0 <= i <= self.rows.len(),
                rows == self@.rows,
                out.deep_view() =~= rows.subrange(0, i as int),
            decreases self.rows.len() - i,
        {
            out.push(self.rows[i].dup());
            i += 1;
            proof {
                assert(out.deep_view() =~= rows.subrange(0, i as int));
            }
        }
        proof {
            assert(rows.subrange(0, rows.len() as int) =~= rows);
        }
        out
    }

    /// Delete by id: every row with the given id is removed (at most one, in
    /// a well-formed table); reports whether any row matched.
    #[verifier::loop_isolation(false)]
    pub fn remove_by_id(&mut self, id: i32) -> (found: bool)
        requires
            old(self).wf(),
        ensures
            final(self).wf(),
            final(self)@.rows == remove_id::<T>(old(self)@.rows, id as int),
            final(self)@.next == old(self)@.next,
            found == contains_id::<T>(old(self)@.rows, id as int),
    {
        let ghost rows = self@.rows;
        let ghost p = lacks_id::<T>(id as int);
        let mut kept: Vec<T> = Vec::new();
        let mut found = false;
        let mut i: usize = 0;
        proof {
            assert(kept.deep_view() =~= rows.subrange(0, 0).filter(p));
            reveal(Seq::filter);
        }
        while i < self.rows.len()
            invariant
                0 <= i <= self.rows.len(),
                rows == self@.rows,
                kept.deep_view() == rows.subrange(0, i as int).filter(p),
                found == contains_id::<T>(rows.subrange(0, i as int), id as int),
            decreases self.rows.len() - i,
        {
            let ghost prefix = rows.subrange(0, i as int);
            if self.rows[i].row_id() == id {
                found = true;
            } else {
                kept.push(self.rows[i].dup());
            }
            i += 1;
            proof {
                assert(rows.subrange(0, i as int) =~= prefix.push(rows[i - 1]));
                lemma_filter_push(prefix, rows[i - 1], p);
                assert(kept.deep_view() =~= rows.subrange(0, i as int).filter(p));
                if T::vid(rows[i - 1]) == id as int {
                    assert(contains_id::<T>(rows.subrange(0, i as int), id as int));
                } else {
                    if contains_id::<T>(rows.subrange(0, i as int), id as int) {
                        let j0 = choose|j: int|
                            0 <= j < i && T::vid(#[trigger] rows.subrange(0, i as int)[j])
                                == id as int;
                        assert(rows.subrange(0, i as int)[j0] == prefix[j0] || j0 == i - 1);
                    }
                }
            }
        }
        proof {
            assert(rows.subrange(0, rows.len() as int) =~= rows);
            lemma_remove_id_wf::<T>(old(self)@, id as int);
        }
        self.rows = kept;
        found
    }
}


/// In a well-formed table a delete by id can match at most one row: two
/// matching positions are the same position, so an ambiguous delete is
/// structurally impossible.
pub proof fn lemma_id_matches_at_most_one<T: Row>(t: TableV<T::V>, id: int, i: int, j: int)
    requires
        table_wf::<T>(t),
        0 <= i < t.rows.len(),
        0 <= j < t.rows.len(),
        T::vid(t.rows[i]) == id,
        T::vid(t.rows[j]) == id,
    ensures
        i == j,
{
    if i < j {
        assert(T::vid(t.rows[i]) < T::vid(t.rows[j]));
    }
    if j < i {
        assert(T::vid(t.rows[j]) < T::vid(t.rows[i]));
    }
}

/// An insert of a row carrying the next id keeps the table well formed.
pub proof fn lemma_table_insert_wf<T: Row>(t: TableV<T::V>, row: T::V)
    requires
        table_wf::<T>(t),
        T::vid(row) == t.next,
        t.next < i32::MAX as int,
    ensures
        table_wf::<T>(table_insert(t, row)),
{
    let t2 = table_insert(t, row);
    assert forall|i: int| 0 <= i < t2.rows.len() implies 1 <= T::vid(#[trigger] t2.rows[i])
        < t2.next by {
        if i < t.rows.len() {
            assert(t2.rows[i] == t.rows[i]);
        }
    }
}

/// A value sits in a filtered sequence exactly when it sits in the original
/// and satisfies the predicate.
pub proof fn lemma_filter_membership<V>(s: Seq<V>, p: spec_fn(V) -> bool, x: V)
    ensures
        s.filter(p).contains(x) <==> (s.contains(x) && p(x)),
    decreases s.len(),
{
    reveal(Seq::filter);
    if s.len() > 0 {
        let front = s.drop_last();
        lemma_filter_membership(front, p, x);
        let f = s.filter(p);
        let fd = front.filter(p);
        if f.contains(x) {
            let i0 = choose|i: int| 0 <= i < f.len() && f[i] == x;
            if i0 < fd.len() {
                assert(fd[i0] == x);
                assert(fd.contains(x));
                let i1 = choose|i: int| 0 <= i < front.len() && front[i] == x;
                assert(s[i1] == x);
            } else {
                assert(x == s[s.len() - 1]);
            }
            assert(s.contains(x) && p(x));
        }
        if s.contains(x) && p(x) {
            let i0 = choose|i: int| 0 <= i < s.len() && s[i] == x;
            if i0 < s.len() - 1 {
                assert(front[i0] == x);
                assert(front.contains(x));
                let i1 = choose|i: int| 0 <= i < fd.len() && fd[i] == x;
                if p(s.last()) {
                    assert(f[i1] == x);
                } else {
                    assert(f[i1] == x);
                }
            } else {
                assert(p(s.last()));
                assert(f[f.len() - 1] == x);
            }
            assert(f.contains(x));
        }
    }
}

/// Round trip: after an insert under the next id, the re-fetch by the
/// natural key finds a row, and a fetch of that row's id returns the very
/// same row. This holds even when the key was already taken: the re-fetch
/// then returns the earlier row, whose id still leads back to it.
pub proof fn lemma_insert_refetch_round_trip<T: Row>(t: TableV<T::V>, row: T::V)
    requires
        table_wf::<T>(t),
        T::vid(row) == t.next,
        t.next < i32::MAX as int,
    ensures
        ({
            let rows2 = table_insert(t, row).rows;
            let fetched = find_by_key::<T>(rows2, T::vkey(row));
            &&& fetched is Some
            &&& find_by_id::<T>(rows2, T::vid(fetched->0)) == fetched
        }),
{
    lemma_table_insert_wf::<T>(t, row);
    let t2 = table_insert(t, row);
    let rows2 = t2.rows;
    let pk = has_key::<T>(T::vkey(row));
    assert(pk(rows2[rows2.len() - 1]));
    lemma_first_where_exists(rows2, pk);
    lemma_first_where_some(rows2, pk);
    let fetched = first_where(rows2, pk);
    let i0 = choose|i: int|
        0 <= i < rows2.len() && #[trigger] rows2[i] == fetched->0 && pk(rows2[i]) && (forall|
            j: int,
        |
            0 <= j < i ==> !pk(#[trigger] rows2[j]));
    let pid = has_id::<T>(T::vid(fetched->0));
    assert(pid(rows2[i0]));
    assert forall|j: int| 0 <= j < i0 implies !pid(#[trigger] rows2[j]) by {
        assert(T::vid(rows2[j]) < T::vid(rows2[i0]));
    }
    lemma_first_where_at(rows2, pid, i0);
}

/// After a delete by id, a fetch of that id is absent and nothing in the
/// table carries it, so a second delete of the same id finds no row.
pub proof fn lemma_remove_then_absent<T: Row>(rows: Seq<T::V>, id: int)
    ensures
        find_by_id::<T>(remove_id::<T>(rows, id), id) is None,
        !contains_id::<T>(remove_id::<T>(rows, id), id),
{
    broadcast use vstd::seq_lib::group_filter_ensures;

    let rest = remove_id::<T>(rows, id);
    assert forall|j: int| 0 <= j < rest.len() implies !has_id::<T>(id)(#[trigger] rest[j]) by {
        assert(lacks_id::<T>(id)(rest[j]));
    }
    lemma_first_where_none(rest, has_id::<T>(id));
    assert forall|j: int| 0 <= j < rest.len() implies T::vid(#[trigger] rest[j]) != id by {
        assert(lacks_id::<T>(id)(rest[j]));
    }
}

/// A listing after an insert is the listing before with the new row
/// appended, and the rows of a well-formed table are listed in ascending-id
/// order, which is their insertion order.
pub proof fn lemma_list_is_insertion_order<T: Row>(t: TableV<T::V>, row: T::V)
    requires
        table_wf::<T>(t),
        T::vid(row) == t.next,
        t.next < i32::MAX as int,
    ensures
        table_insert(t, row).rows == t.rows.push(row),
        forall|i: int, j: int|
            0 <= i < j < table_insert(t, row).rows.len() ==> T::vid(
                #[trigger] table_insert(t, row).rows[i],
            ) < T::vid(#[trigger] table_insert(t, row).rows[j]),
{
    lemma_table_insert_wf::<T>(t, row);
}

/// Linking appends the pair, so the pair is then present: that presence is
/// exactly the condition under which a second link of the same pair is
/// refused as already linked.
pub proof fn lemma_relink_refused(ls: Seq<LinkV>, document: int, other: int)
    ensures
        contains_link(ls.push(LinkV { document, other }), document, other),
{
    let ls2 = ls.push(LinkV { document, other });
    assert((ls2[ls2.len() - 1]).document == document && ls2[ls2.len() - 1].other == other);
}

/// Unlinking a freshly linked pair restores the association table, and a
/// fetch of the pair afterwards is absent.
pub proof fn lemma_link_then_unlink_restores(ls: Seq<LinkV>, document: int, other: int)
    requires
        !contains_link(ls, document, other),
    ensures
        remove_link(ls.push(LinkV { document, other }), document, other) == ls,
        first_where(
            remove_link(ls.push(LinkV { document, other }), document, other),
            is_link(document, other),
        ) is None,
{
    let pair = LinkV { document, other };
    let p = is_not_link(document, other);
    lemma_filter_push(ls, pair, p);
    assert forall|i: int| 0 <= i < ls.len() implies p(#[trigger] ls[i]) by {
        if ls[i].document == document && ls[i].other == other {
            assert(contains_link(ls, document, other));
        }
    }
    lemma_filter_noop(ls, p);
    assert forall|i: int| 0 <= i < ls.len() implies !(is_link(document, other)(
        #[trigger] ls[i],
    )) by {
        if ls[i].document == document && ls[i].other == other {
            assert(contains_link(ls, document, other));
        }
    }
    lemma_first_where_none(ls, is_link(document, other));
}

/// Filtering keeps pairwise-distinct rows pairwise distinct.
pub proof fn lemma_filter_keeps_distinct<V>(s: Seq<V>, p: spec_fn(V) -> bool)
    requires
        forall|i: int, j: int| 0 <= i < j < s.len() ==> #[trigger] s[i] != #[trigger] s[j],
    ensures
        forall|i: int, j: int|
            0 <= i < j < s.filter(p).len() ==> #[trigger] s.filter(p)[i] != #[trigger] s.filter(
                p,
            )[j],
    decreases s.len(),
{
    reveal(Seq::filter);
    if s.len() > 0 {
        let front = s.drop_last();
        let last = s.last();
        lemma_filter_keeps_distinct(front, p);
        let f = s.filter(p);
        let fd = front.filter(p);
        if p(last) {
            assert forall|i: int, j: int| 0 <= i < j < f.len() implies #[trigger] f[i]
                != #[trigger] f[j] by {
                if j == f.len() - 1 {
                    assert(f[j] == last);
                    assert(f[i] == fd[i]);
                    if f[i] == last {
                        assert(fd.contains(last));
                        lemma_filter_membership(front, p, last);
                        let k = choose|k: int| 0 <= k < front.len() && front[k] == last;
                        assert(s[k] == s[s.len() - 1]);
                    }
                } else {
                    assert(f[i] == fd[i] && f[j] == fd[j]);
                }
            }
        }
    }
}

/// When `first_where` finds nothing, nothing matches.
pub proof fn lemma_first_where_none_inv<V>(s: Seq<V>, p: spec_fn(V) -> bool)
    requires
        first_where(s, p) is None,
    ensures
        forall|j: int| 0 <= j < s.len() ==> !p(#[trigger] s[j]),
{
    assert forall|j: int| 0 <= j < s.len() implies !p(#[trigger] s[j]) by {
        if p(s[j]) {
            lemma_first_where_exists(s, p);
        }
    }
}

/// Mathematical view of one association row: a document id and the id of the
/// linked tag or genre.
#[verifier::ext_equal]
pub ghost struct LinkV {
    pub document: int,
    pub other: int,
}

/// Well-formedness of an association table: no pair occurs twice.
pub open spec fn links_wf(ls: Seq<LinkV>) -> bool {
    forall|i: int, j: int|
        0 <= i < j < ls.len() ==> #[trigger] ls[i] != #[trigger] ls[j]
}

/// The predicate "is exactly this (document, linked id) pair".
pub open spec fn is_link(document: int, other: int) -> spec_fn(LinkV) -> bool {
    |l: LinkV| l.document == document && l.other == other
}

/// The predicate "is some other pair".
pub open spec fn is_not_link(document: int, other: int) -> spec_fn(LinkV) -> bool {
    |l: LinkV| !(l.document == document && l.other == other)
}

/// Whether the pair is linked.
pub open spec fn contains_link(ls: Seq<LinkV>, document: int, other: int) -> bool {
    exists|i: int|
        0 <= i < ls.len() && (#[trigger] ls[i]).document == document && ls[i].other == other
}

/// The association rows left after an unlink, in their original order.
pub open spec fn remove_link(ls: Seq<LinkV>, document: int, other: int) -> Seq<LinkV> {
    ls.filter(is_not_link(document, other))
}

/// Appending a pair that is not yet present keeps the pairs unique.
pub proof fn lemma_links_push_wf(ls: Seq<LinkV>, l: LinkV)
    requires
        links_wf(ls),
        !contains_link(ls, l.document, l.other),
    ensures
        links_wf(ls.push(l)),
{
    let ls2 = ls.push(l);
    assert forall|i: int, j: int| 0 <= i < j < ls2.len() implies #[trigger] ls2[i]
        != #[trigger] ls2[j] by {
        if j == ls.len() {
            assert(ls2[i] == ls[i]);
            if ls[i] == l {
                assert((#[trigger] ls[i]).document == l.document && ls[i].other == l.other);
            }
        }
    }
}

/// If a filtered association table holds a pair, so does the original.
pub proof fn lemma_filter_link_member(ls: Seq<LinkV>, p: spec_fn(LinkV) -> bool, d: int, o: int)
    requires
        contains_link(ls.filter(p), d, o),
    ensures
        contains_link(ls, d, o),
    decreases ls.len(),
{
    reveal(Seq::filter);
    let f = ls.filter(p);
    let i0 = choose|i: int| 0 <= i < f.len() && (#[trigger] f[i]).document == d && f[i].other == o;
    if ls.len() > 0 {
        let front = ls.drop_last();
        let fd = front.filter(p);
        if i0 < fd.len() {
            assert(fd[i0] == f[i0]);
            assert(contains_link(fd, d, o));
            lemma_filter_link_member(front, p, d, o);
            let i1 = choose|i: int|
                0 <= i < front.len() && (#[trigger] front[i]).document == d && front[i].other == o;
            assert((ls[i1]).document == d && ls[i1].other == o);
        } else {
            assert(f[i0] == ls[ls.len() - 1]);
        }
    }
}

/// Filtering keeps the pairs unique.
pub proof fn lemma_filter_keeps_links_wf(ls: Seq<LinkV>, p: spec_fn(LinkV) -> bool)
    requires
        links_wf(ls),
    ensures
        links_wf(ls.filter(p)),
    decreases ls.len(),
{
    reveal(Seq::filter);
    if ls.len() > 0 {
        let front = ls.drop_last();
        lemma_filter_keeps_links_wf(front, p);
        let f = ls.filter(p);
        let fd = front.filter(p);
        let last = ls.last();
        if p(last) {
            assert forall|i: int, j: int| 0 <= i < j < f.len() implies #[trigger] f[i]
                != #[trigger] f[j] by {
                if j == f.len() - 1 {
                    assert(f[j] == last);
                    assert(f[i] == fd[i]);
                    if f[i] == last {
                        assert((fd[i]).document == last.document && fd[i].other == last.other);
                        assert(contains_link(fd, last.document, last.other));
                        lemma_filter_link_member(front, p, last.document, last.other);
                        let i1 = choose|k: int|
                            0 <= k < front.len() && (#[trigger] front[k]).document == last.document
                                && front[k].other == last.other;
                        assert(front[i1] == ls[i1]);
                        assert(ls[i1] =~= last);
                        assert(ls[i1] != ls[ls.len() - 1]);
                    }
                } else {
                    assert(f[i] == fd[i] && f[j] == fd[j]);
                }
            }
        }
    }
}

/// An association row: a document id paired with the id of a tag or genre.
pub trait LinkRow: Sized + DeepView<V = LinkV> {
    /// The document side of the pair.
    fn document_id(&self) -> (r: i32)
        ensures
            r as int == self.deep_view().document,
    ;

    /// The linked tag or genre side of the pair.
    fn other_id(&self) -> (r: i32)
        ensures
            r as int == self.deep_view().other,
    ;

    /// An exact copy of the pair.
    fn dup(&self) -> (r: Self)
        ensures
            r.deep_view() == self.deep_view(),
    ;
}

/// Select one association row by its composite key.
#[verifier::loop_isolation(false)]
pub fn find_link<L: LinkRow>(links: &Vec<L>, document: i32, other: i32) -> (r: Option<L>)
    ensures
        r.deep_view() == first_where(
            links.deep_view(),
            is_link(document as int, other as int),
        ),
{
    let ghost ls = links.deep_view();
    let ghost p = is_link(document as int, other as int);
    let mut i: usize = 0;
    while i < links.len()
        invariant
            0 <= i <= links.len(),
            forall|j: int|
                0 <= j < i ==> !((#[trigger] ls[j]).document == document as int && ls[j].other
                    == other as int),
        decreases links.len() - i,
    {
        if links[i].document_id() == document && links[i].other_id() == other {
            let found = links[i].dup();
            proof {
                lemma_first_where_at(ls, p, i as int);
            }
            return Some(found);
        }
        i += 1;
    }
    proof {
        lemma_first_where_none(ls, p);
    }
    None
}

/// Whether an association row with the given composite key is present.
#[verifier::loop_isolation(false)]
pub fn link_present<L: LinkRow>(links: &Vec<L>, document: i32, other: i32) -> (r: bool)
    ensures
        r == contains_link(links.deep_view(), document as int, other as int),
{
    let ghost ls = links.deep_view();
    let mut i: usize = 0;
    while i < links.len()
        invariant
            0 <= i <= links.len(),
            forall|j: int|
                0 <= j < i ==> !((#[trigger] ls[j]).document == document as int && ls[j].other
                    == other as int),
        decreases links.len() - i,
    {
        if links[i].document_id() == document && links[i].other_id() == other {
            proof {
                assert((ls[i as int]).document == document as int && ls[i as int].other
                    == other as int);
            }
            return true;
        }
        i += 1;
    }
    false
}

/// Delete every association row with the given composite key (at most one, in
/// a well-formed table); reports whether any row matched.
#[verifier::loop_isolation(false)]
pub fn remove_links<L: LinkRow>(links: &mut Vec<L>, document: i32, other: i32) -> (found: bool)
    ensures
        final(links).deep_view() == remove_link(
            old(links).deep_view(),
            document as int,
            other as int,
        ),
        found == contains_link(old(links).deep_view(), document as int, other as int),
{
    let ghost ls = links.deep_view();
    let ghost p = is_not_link(document as int, other as int);
    let mut kept: Vec<L> = Vec::new();
    let mut found = false;
    let mut i: usize = 0;
    proof {
        reveal(Seq::filter);
        assert(kept.deep_view() =~= ls.subrange(0, 0).filter(p));
    }
    while i < links.len()
        invariant
            0 <= i <= links.len(),
            kept.deep_view() == ls.subrange(0, i as int).filter(p),
            found == contains_link(ls.subrange(0, i as int), document as int, other as int),
        decreases links.len() - i,
    {
        let ghost prefix = ls.subrange(0, i as int);
        if links[i].document_id() == document && links[i].other_id() == other {
            found = true;
        } else {
            kept.push(links[i].dup());
        }
        i += 1;
        proof {
            let prefix2 = ls.subrange(0, i as int);
            assert(prefix2 =~= prefix.push(ls[i - 1]));
            lemma_filter_push(prefix, ls[i - 1], p);
            assert(kept.deep_view() =~= prefix2.filter(p));
            if ls[i - 1].document == document as int && ls[i - 1].other == other as int {
                assert((#[trigger] prefix2[i - 1]).document == document as int);
                assert(contains_link(prefix2, document as int, other as int));
            } else {
                if contains_link(prefix2, document as int, other as int) {
                    let j0 = choose|j: int|
                        0 <= j < prefix2.len() && (#[trigger] prefix2[j]).document
                            == document as int && prefix2[j].other == other as int;
                    assert(j0 < i - 1);
                    assert((#[trigger] prefix[j0]).document == document as int);
                }
                if contains_link(prefix, document as int, other as int) {
                    let j0 = choose|j: int|
                        0 <= j < prefix.len() && (#[trigger] prefix[j]).document == document as int
                            && prefix[j].other == other as int;
                    assert((#[trigger] prefix2[j0]).document == document as int);
                }
            }
        }
    }
    proof {
        assert(ls.subrange(0, ls.len() as int) =~= ls);
    }
    *links = kept;
    found
}

} // verus!
