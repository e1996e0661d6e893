//! The record store: the records and the counter that hands out ids.

use vstd::prelude::*;
use crate::record::{User, UserView};

verus! {

/// The mathematical value of a `RecordStore`.
pub struct StoreView {
    pub users: Seq<UserView>,
    pub next_id: u64,
}

impl StoreView {
    /// Ids are distinct, and each is below the counter, so that the counter
    /// never hands out an id twice.
    pub open spec fn wf(self) -> bool {
        &&& forall|i: int, j: int|
            0 <= i < j < self.users.len() ==> #[trigger] self.users[i].id != #[trigger] self.users[j].id
        &&& forall|i: int| 0 <= i < self.users.len() ==> #[trigger] self.users[i].id < self.next_id
    }

    /// Whether a record with this id is present.
    pub open spec fn has_id(self, id: u64) -> bool {
        exists|i: int| 0 <= i < self.users.len() && self.users[i].id == id
    }

    /// The position of the record with this id.
    pub open spec fn index_of(self, id: u64) -> int {
        choose|i: int| 0 <= i < self.users.len() && self.users[i].id == id
    }
}

/// The store holding no record, with the counter at zero.
pub open spec fn empty_store() -> StoreView {
    StoreView { users: Seq::empty(), next_id: 0 }
}

/// Removes position `i` by moving the last element into it.
pub open spec fn swap_remove<A>(s: Seq<A>, i: int) -> Seq<A> {
    s.update(i, s.last()).drop_last()
}

/// The records whose surname is exactly `q`, in store order.
pub open spec fn matching(users: Seq<UserView>, q: Seq<char>) -> Seq<UserView>
    decreases users.len(),
{
    if users.len() == 0 {
        Seq::empty()
    } else if users.last().surname == q {
        matching(users.drop_last(), q).push(users.last())
    } else {
        matching(users.drop_last(), q)
    }
}

/// The records of the phone book and the next id to hand out.
pub struct RecordStore {
    users: Vec<User>,
    next_id: u64,
}

impl View for RecordStore {
    type V = StoreView;

    closed spec fn view(&self) -> StoreView {
        StoreView { users: self.users@.map_values(|u: User| u@), next_id: self.next_id }
    }
}

/// A copy of `u` with the same view.
fn copy_user(u: &User) -> (r: User)
    ensures
        r@ == u@,
{
    User {
        id: u.id,
        name: u.name.clone(),
        surname: u.surname.clone(),
        email: u.email.clone(),
        phone: u.phone.clone(),
        age: u.age,
    }
}

impl RecordStore {
    /// An empty store.
    pub fn new() -> (r: RecordStore)
        ensures
            r@ == empty_store(),
            r@.wf(),
    {
        let r = RecordStore { users: Vec::new(), next_id: 0 };
        assert(r@.users =~= Seq::<UserView>::empty());
        r
    }

    /// The number of records.
    pub fn len(&self) -> (r: usize)
        ensures
            r == self@.users.len(),
    {
        self.users.len()
    }

    /// The next id that an insertion would assign.
    pub fn next_id(&self) -> (r: u64)
        ensures
            r == self@.next_id,
    {
        self.next_id
    }

    /// Creates a record with the next id and appends it. Returns `None`,
    /// leaving the store as it was, once every id has been handed out.
    pub fn insert(&mut self, surname: String, name: String, email: String, phone: String, age: u32)
        -> (r: Option<User>)
        requires
            old(self)@.wf(),
        ensures
            final(self)@.wf(),
            old(self)@.next_id < u64::MAX ==> {
                let u = UserView {
                    id: old(self)@.next_id,
                    name: name@,
                    surname: surname@,
                    email: email@,
                    phone: phone@,
                    age,
                };
                &&& r is Some && r->0@ == u
                &&& final(self)@.users == old(self)@.users.push(u)
                &&& final(self)@.next_id == old(self)@.next_id + 1
            },
            old(self)@.next_id == u64::MAX ==> r is None && final(self)@ == old(self)@,
    {
        if self.next_id == u64::MAX {
            return None;
        }
        let user = User { id: self.next_id, name, surname, email, phone, age };
        let result = copy_user(&user);
        self.next_id = self.next_id + 1;
        self.users.push(user);
        assert(self@.users =~= old(self)@.users.push(result@));
        Some(result)
    }

    /// Removes the record with id `id`, moving the last record into its place.
    pub fn remove_by_id(&mut self, id: u64) -> (r: Option<User>)
        requires
            old(self)@.wf(),
        ensures
            final(self)@.wf(),
            final(self)@.next_id == old(self)@.next_id,
            old(self)@.has_id(id) ==> {
                let i = old(self)@.index_of(id);
                &&& r is Some && r->0@ == old(self)@.users[i]
                &&& final(self)@.users == swap_remove(old(self)@.users, i)
            },
            !old(self)@.has_id(id) ==> r is None && final(self)@ == old(self)@,
    {
        let mut i: usize = 0;
        while i < self.users.len()
            invariant
                i <= self.users@.len(),
                self@ == old(self)@,
                old(self)@.wf(),
                forall|k: int| 0 <= k < i ==> #[trigger] self.users@[k].id != id,
            decreases self.users.len() - i,
        {
            if self.users[i].id == id {
                let ghost before = self@;
                proof {
                    assert(before.wf());
                    assert(before.users[i as int].id == id);
                    assert(before.has_id(id));
                    let j = before.index_of(id);
                    assert(before.users[j].id == id);
                    if j < i {
                        assert(before.users[j].id != before.users[i as int].id);
                    } else if j > i {
                        assert(before.users[i as int].id != before.users[j].id);
                    }
                }
                let removed = self.users.swap_remove(i);
                assert(self@.users =~= swap_remove(before.users, i as int));
                proof {
                    assert(before.wf());
                    let s = swap_remove(before.users, i as int);
                    assert forall|a: int, b: int| 0 <= a < b < s.len() implies #[trigger] s[a].id != #[trigger] s[b].id by {
                        let last = before.users.len() - 1;
                        let ia = if a == i { last } else { a };
                        let ib = if b == i { last } else { b };
                        assert(s[a] == before.users[ia]);
                        assert(s[b] == before.users[ib]);
                        if ia < ib {
                            assert(before.users[ia].id != before.users[ib].id);
                        } else {
                            assert(before.users[ib].id != before.users[ia].id);
                        }
                    }
                    assert forall|a: int| 0 <= a < s.len() implies #[trigger] s[a].id < before.next_id by {
                        let last = before.users.len() - 1;
                        let ia = if a == i { last } else { a };
                        assert(s[a] == before.users[ia]);
                    }
                }
                return Some(removed);
            }
            i = i + 1;
        }
        None
    }

    /// References to the records whose surname is exactly `surname`, in
    /// store order.
    pub fn find_by_surname(&self, surname: &String) -> (r: Vec<&User>)
        ensures
            r@.map_values(|u: &User| u@) == matching(self@.users, surname@),
    {
        let mut out: Vec<&User> = Vec::new();
        let mut i: usize = 0;
        while i < self.users.len()
            invariant
                i <= self.users@.len(),
                out@.map_values(|u: &User| u@) == matching(self@.users.subrange(0, i as int), surname@),
            decreases self.users.len() - i,
        {
            let ghost prefix = self@.users.subrange(0, i as int + 1);
            assert(prefix.drop_last() =~= self@.users.subrange(0, i as int));
            let u = &self.users[i];
            assert(prefix.last() == u@);
            let ghost before = out@;
            if u.surname.eq(surname) {
                out.push(u);
                assert(out@.map_values(|u: &User| u@) =~= before.map_values(|u: &User| u@).push(u@));
            }
            i = i + 1;
            assert(out@.map_values(|u: &User| u@) =~= matching(prefix, surname@));
        }
        assert(self@.users.subrange(0, self.users@.len() as int) =~= self@.users);
        out
    }
}

} // verus!
