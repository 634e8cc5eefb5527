use vstd::prelude::*;

use crate::ids::fresh_id;
use crate::model::{
    Contact, CreateUserWithContact, StoreError, UpdateContact, UpdateUserPayload, User,
    UserWithContactResponse, joined_response, patched_contact, patched_contact_email,
    patched_user,
};

verus! {

// ---------------------------------------------------------------------------
// Row sequences as keyed stores.
//
// Each table is held as a sequence of rows in insertion order; as long as the
// ids in a sequence are unique it denotes a keyed store, read off below as a
// `Map` from id to row.
// ---------------------------------------------------------------------------

pub open spec fn has_user_id(s: Seq<User>, id: u128) -> bool {
    exists|i: int| 0 <= i < s.len() && (#[trigger] s[i]).id == id
}

pub open spec fn user_id_index(s: Seq<User>, id: u128) -> int {
    choose|i: int| 0 <= i < s.len() && (#[trigger] s[i]).id == id
}

pub open spec fn unique_user_ids(s: Seq<User>) -> bool {
    forall|i: int, j: int|
        0 <= i < s.len() && 0 <= j < s.len() && i != j ==> (#[trigger] s[i]).id != (
        #[trigger] s[j]).id
}

pub open spec fn users_map_of(s: Seq<User>) -> Map<u128, User> {
    Map::new(|id: u128| has_user_id(s, id), |id: u128| s[user_id_index(s, id)])
}

pub open spec fn has_contact_id(s: Seq<Contact>, id: u128) -> bool {
    exists|i: int| 0 <= i < s.len() && (#[trigger] s[i]).id == id
}

pub open spec fn contact_id_index(s: Seq<Contact>, id: u128) -> int {
    choose|i: int| 0 <= i < s.len() && (#[trigger] s[i]).id == id
}

pub open spec fn unique_contact_ids(s: Seq<Contact>) -> bool {
    forall|i: int, j: int|
        0 <= i < s.len() && 0 <= j < s.len() && i != j ==> (#[trigger] s[i]).id != (
        #[trigger] s[j]).id
}

pub open spec fn contacts_map_of(s: Seq<Contact>) -> Map<u128, Contact> {
    Map::new(|id: u128| has_contact_id(s, id), |id: u128| s[contact_id_index(s, id)])
}

// The one-to-one link from a user to its contact, read off the contact rows.

pub open spec fn has_link(s: Seq<Contact>, uid: u128) -> bool {
    exists|i: int| 0 <= i < s.len() && (#[trigger] s[i]).user_id == uid
}

pub open spec fn link_index(s: Seq<Contact>, uid: u128) -> int {
    choose|i: int| 0 <= i < s.len() && (#[trigger] s[i]).user_id == uid
}

pub open spec fn unique_links(s: Seq<Contact>) -> bool {
    forall|i: int, j: int|
        0 <= i < s.len() && 0 <= j < s.len() && i != j ==> (#[trigger] s[i]).user_id != (
        #[trigger] s[j]).user_id
}

pub open spec fn linked_contact_of(s: Seq<Contact>, uid: u128) -> Option<Contact> {
    if has_link(s, uid) {
        Some(s[link_index(s, uid)])
    } else {
        None
    }
}

// ---------------------------------------------------------------------------
// With unique ids, the row found at a known position is the row the keyed
// store holds under its id.
// ---------------------------------------------------------------------------

proof fn lemma_user_at(s: Seq<User>, id: u128, i: int)
    requires
        unique_user_ids(s),
        0 <= i < s.len(),
        s[i].id == id,
    ensures
        has_user_id(s, id),
        user_id_index(s, id) == i,
        users_map_of(s).dom().contains(id),
        users_map_of(s)[id] == s[i],
{
    assert(has_user_id(s, id));
    let k = user_id_index(s, id);
    assert(0 <= k < s.len() && s[k].id == id);
    if k != i {
        assert(s[k].id != s[i].id);
    }
}

proof fn lemma_contact_at(s: Seq<Contact>, id: u128, i: int)
    requires
        unique_contact_ids(s),
        0 <= i < s.len(),
        s[i].id == id,
    ensures
        has_contact_id(s, id),
        contact_id_index(s, id) == i,
        contacts_map_of(s).dom().contains(id),
        contacts_map_of(s)[id] == s[i],
{
    assert(has_contact_id(s, id));
    let k = contact_id_index(s, id);
    assert(0 <= k < s.len() && s[k].id == id);
    if k != i {
        assert(s[k].id != s[i].id);
    }
}

proof fn lemma_link_at(s: Seq<Contact>, uid: u128, i: int)
    requires
        unique_links(s),
        0 <= i < s.len(),
        s[i].user_id == uid,
    ensures
        has_link(s, uid),
        link_index(s, uid) == i,
        linked_contact_of(s, uid) == Some(s[i]),
{
    assert(has_link(s, uid));
    let k = link_index(s, uid);
    assert(0 <= k < s.len() && s[k].user_id == uid);
    if k != i {
        assert(s[k].user_id != s[i].user_id);
    }
}

// ---------------------------------------------------------------------------
// How the keyed-store reading of a row sequence changes when a row is
// appended, overwritten in place, or removed.
// ---------------------------------------------------------------------------

proof fn lemma_users_push(s: Seq<User>, u: User)
    requires
        unique_user_ids(s),
        !has_user_id(s, u.id),
    ensures
        unique_user_ids(s.push(u)),
        users_map_of(s.push(u)) == users_map_of(s).insert(u.id, u),
{
    let t = s.push(u);
    assert(t[s.len() as int] == u);
    assert forall|i: int, j: int|
        0 <= i < t.len() && 0 <= j < t.len() && i != j implies (#[trigger] t[i]).id != (
    #[trigger] t[j]).id by {
        if i == s.len() {
            assert(t[j] == s[j]);
            if s[j].id == u.id {
                assert(has_user_id(s, u.id));
            }
        } else if j == s.len() {
            assert(t[i] == s[i]);
            if s[i].id == u.id {
                assert(has_user_id(s, u.id));
            }
        } else {
            assert(t[i] == s[i] && t[j] == s[j]);
        }
    }
    assert forall|k: u128| #[trigger] has_user_id(t, k) && k != u.id implies has_user_id(s, k)
        && users_map_of(t)[k] == users_map_of(s)[k] by {
        let i = user_id_index(t, k);
        assert(0 <= i < t.len() && t[i].id == k);
        assert(i != s.len());
        assert(t[i] == s[i]);
        lemma_user_at(s, k, i);
        lemma_user_at(t, k, i);
    }
    assert forall|k: u128| #[trigger] has_user_id(s, k) implies has_user_id(t, k) by {
        let i = user_id_index(s, k);
        assert(0 <= i < s.len() && s[i].id == k);
        assert(t[i] == s[i]);
        assert(has_user_id(t, k));
    }
    lemma_user_at(t, u.id, s.len() as int);
    assert(users_map_of(t) =~= users_map_of(s).insert(u.id, u));
}

proof fn lemma_users_update(s: Seq<User>, i: int, v: User)
    requires
        unique_user_ids(s),
        0 <= i < s.len(),
        v.id == s[i].id,
    ensures
        unique_user_ids(s.update(i, v)),
        users_map_of(s.update(i, v)) == users_map_of(s).insert(v.id, v),
{
    let t = s.update(i, v);
    assert forall|a: int, b: int|
        0 <= a < t.len() && 0 <= b < t.len() && a != b implies (#[trigger] t[a]).id != (
    #[trigger] t[b]).id by {
        if a == i {
            assert(t[b] == s[b]);
        } else if b == i {
            assert(t[a] == s[a]);
        } else {
            assert(t[a] == s[a] && t[b] == s[b]);
        }
    }
    assert forall|k: u128| #[trigger] has_user_id(t, k) && k != v.id implies has_user_id(s, k)
        && users_map_of(t)[k] == users_map_of(s)[k] by {
        let a = user_id_index(t, k);
        assert(0 <= a < t.len() && t[a].id == k);
        assert(a != i);
        assert(t[a] == s[a]);
        lemma_user_at(s, k, a);
        lemma_user_at(t, k, a);
    }
    assert forall|k: u128| #[trigger] has_user_id(s, k) && k != v.id implies has_user_id(t, k) by {
        let a = user_id_index(s, k);
        assert(0 <= a < s.len() && s[a].id == k);
        assert(a != i);
        assert(t[a] == s[a]);
        assert(has_user_id(t, k));
    }
    lemma_user_at(t, v.id, i);
    assert(users_map_of(t) =~= users_map_of(s).insert(v.id, v));
}

proof fn lemma_users_remove(s: Seq<User>, i: int)
    requires
        unique_user_ids(s),
        0 <= i < s.len(),
    ensures
        unique_user_ids(s.remove(i)),
        users_map_of(s.remove(i)) == users_map_of(s).remove(s[i].id),
{
    let t = s.remove(i);
    assert forall|a: int, b: int|
        0 <= a < t.len() && 0 <= b < t.len() && a != b implies (#[trigger] t[a]).id != (
    #[trigger] t[b]).id by {
        let a0: int = if a < i { a } else { a + 1 };
        let b0: int = if b < i { b } else { b + 1 };
        assert(t[a] == s[a0]);
        assert(t[b] == s[b0]);
    }
    assert forall|k: u128| #[trigger] has_user_id(t, k) implies k != s[i].id && has_user_id(s, k)
        && users_map_of(t)[k] == users_map_of(s)[k] by {
        let a = user_id_index(t, k);
        assert(0 <= a < t.len() && t[a].id == k);
        let a0: int = if a < i { a } else { a + 1 };
        assert(t[a] == s[a0]);
        assert(s[a0].id != s[i].id);
        lemma_user_at(s, k, a0);
        lemma_user_at(t, k, a);
    }
    assert forall|k: u128| #[trigger] has_user_id(s, k) && k != s[i].id implies has_user_id(t, k) by {
        let a0 = user_id_index(s, k);
        assert(0 <= a0 < s.len() && s[a0].id == k);
        assert(a0 != i);
        let a: int = if a0 < i { a0 } else { a0 - 1 };
        assert(t[a] == s[a0]);
        assert(has_user_id(t, k));
    }
    assert(users_map_of(t) =~= users_map_of(s).remove(s[i].id));
}

proof fn lemma_contacts_push(s: Seq<Contact>, c: Contact)
    requires
        unique_contact_ids(s),
        unique_links(s),
        !has_contact_id(s, c.id),
        !has_link(s, c.user_id),
    ensures
        unique_contact_ids(s.push(c)),
        unique_links(s.push(c)),
        contacts_map_of(s.push(c)) == contacts_map_of(s).insert(c.id, c),
        linked_contact_of(s.push(c), c.user_id) == Some(c),
        forall|x: u128|
            x != c.user_id ==> #[trigger] linked_contact_of(s.push(c), x) == linked_contact_of(
                s,
                x,
            ),
{
    let t = s.push(c);
    assert(t[s.len() as int] == c);
    assert forall|i: int, j: int|
        0 <= i < t.len() && 0 <= j < t.len() && i != j implies (#[trigger] t[i]).id != (
    #[trigger] t[j]).id && t[i].user_id != t[j].user_id by {
        if i == s.len() {
            assert(t[j] == s[j]);
            if s[j].id == c.id {
                assert(has_contact_id(s, c.id));
            }
            if s[j].user_id == c.user_id {
                assert(has_link(s, c.user_id));
            }
        } else if j == s.len() {
            assert(t[i] == s[i]);
            if s[i].id == c.id {
                assert(has_contact_id(s, c.id));
            }
            if s[i].user_id == c.user_id {
                assert(has_link(s, c.user_id));
            }
        } else {
            assert(t[i] == s[i] && t[j] == s[j]);
        }
    }
    assert forall|k: u128| #[trigger] has_contact_id(t, k) && k != c.id implies has_contact_id(s, k)
        && contacts_map_of(t)[k] == contacts_map_of(s)[k] by {
        let i = contact_id_index(t, k);
        assert(0 <= i < t.len() && t[i].id == k);
        assert(i != s.len());
        assert(t[i] == s[i]);
        lemma_contact_at(s, k, i);
        lemma_contact_at(t, k, i);
    }
    assert forall|k: u128| #[trigger] has_contact_id(s, k) implies has_contact_id(t, k) by {
        let i = contact_id_index(s, k);
        assert(0 <= i < s.len() && s[i].id == k);
        assert(t[i] == s[i]);
        assert(has_contact_id(t, k));
    }
    lemma_contact_at(t, c.id, s.len() as int);
    assert(contacts_map_of(t) =~= contacts_map_of(s).insert(c.id, c));
    lemma_link_at(t, c.user_id, s.len() as int);
    assert forall|x: u128| x != c.user_id implies #[trigger] linked_contact_of(t, x)
        == linked_contact_of(s, x) by {
        if has_link(t, x) {
            let a = link_index(t, x);
            assert(0 <= a < t.len() && t[a].user_id == x);
            assert(a != s.len());
            assert(t[a] == s[a]);
            lemma_link_at(s, x, a);
            lemma_link_at(t, x, a);
        } else {
            if has_link(s, x) {
                let a = link_index(s, x);
                assert(0 <= a < s.len() && s[a].user_id == x);
                assert(t[a] == s[a]);
                assert(has_link(t, x));
            }
        }
    }
}

proof fn lemma_contacts_update(s: Seq<Contact>, i: int, v: Contact)
    requires
        unique_contact_ids(s),
        unique_links(s),
        0 <= i < s.len(),
        v.id == s[i].id,
        v.user_id == s[i].user_id,
    ensures
        unique_contact_ids(s.update(i, v)),
        unique_links(s.update(i, v)),
        contacts_map_of(s.update(i, v)) == contacts_map_of(s).insert(v.id, v),
        linked_contact_of(s.update(i, v), v.user_id) == Some(v),
        forall|x: u128|
            x != v.user_id ==> #[trigger] linked_contact_of(s.update(i, v), x)
                == linked_contact_of(s, x),
{
    let t = s.update(i, v);
    assert forall|a: int, b: int|
        0 <= a < t.len() && 0 <= b < t.len() && a != b implies (#[trigger] t[a]).id != (
    #[trigger] t[b]).id && t[a].user_id != t[b].user_id by {
        if a == i {
            assert(t[b] == s[b]);
        } else if b == i {
            assert(t[a] == s[a]);
        } else {
            assert(t[a] == s[a] && t[b] == s[b]);
        }
    }
    assert forall|k: u128| #[trigger] has_contact_id(t, k) && k != v.id implies has_contact_id(s, k)
        && contacts_map_of(t)[k] == contacts_map_of(s)[k] by {
        let a = contact_id_index(t, k);
        assert(0 <= a < t.len() && t[a].id == k);
        assert(a != i);
        assert(t[a] == s[a]);
        lemma_contact_at(s, k, a);
        lemma_contact_at(t, k, a);
    }
    assert forall|k: u128| #[trigger] has_contact_id(s, k) && k != v.id implies has_contact_id(t, k)
        by {
        let a = contact_id_index(s, k);
        assert(0 <= a < s.len() && s[a].id == k);
        assert(a != i);
        assert(t[a] == s[a]);
        assert(has_contact_id(t, k));
    }
    lemma_contact_at(t, v.id, i);
    assert(contacts_map_of(t) =~= contacts_map_of(s).insert(v.id, v));
    lemma_link_at(t, v.user_id, i);
    assert forall|x: u128| x != v.user_id implies #[trigger] linked_contact_of(t, x)
        == linked_contact_of(s, x) by {
        if has_link(t, x) {
            let a = link_index(t, x);
            assert(0 <= a < t.len() && t[a].user_id == x);
            assert(a != i);
            assert(t[a] == s[a]);
            lemma_link_at(s, x, a);
            lemma_link_at(t, x, a);
        } else {
            if has_link(s, x) {
                let a = link_index(s, x);
                assert(0 <= a < s.len() && s[a].user_id == x);
                assert(a != i);
                assert(t[a] == s[a]);
                assert(has_link(t, x));
            }
        }
    }
}

proof fn lemma_contacts_remove(s: Seq<Contact>, i: int)
    requires
        unique_contact_ids(s),
        unique_links(s),
        0 <= i < s.len(),
    ensures
        unique_contact_ids(s.remove(i)),
        unique_links(s.remove(i)),
        contacts_map_of(s.remove(i)) == contacts_map_of(s).remove(s[i].id),
        linked_contact_of(s.remove(i), s[i].user_id) is None,
        forall|x: u128|
            x != s[i].user_id ==> #[trigger] linked_contact_of(s.remove(i), x)
                == linked_contact_of(s, x),
{
    let t = s.remove(i);
    assert forall|a: int, b: int|
        0 <= a < t.len() && 0 <= b < t.len() && a != b implies (#[trigger] t[a]).id != (
    #[trigger] t[b]).id && t[a].user_id != t[b].user_id by {
        let a0: int = if a < i { a } else { a + 1 };
        let b0: int = if b < i { b } else { b + 1 };
        assert(t[a] == s[a0]);
        assert(t[b] == s[b0]);
    }
    assert forall|k: u128| #[trigger] has_contact_id(t, k) implies k != s[i].id && has_contact_id(
        s,
        k,
    ) && contacts_map_of(t)[k] == contacts_map_of(s)[k] by {
        let a = contact_id_index(t, k);
        assert(0 <= a < t.len() && t[a].id == k);
        let a0: int = if a < i { a } else { a + 1 };
        assert(t[a] == s[a0]);
        assert(s[a0].id != s[i].id);
        lemma_contact_at(s, k, a0);
        lemma_contact_at(t, k, a);
    }
    assert forall|k: u128| #[trigger] has_contact_id(s, k) && k != s[i].id implies has_contact_id(
        t,
        k,
    ) by {
        let a0 = contact_id_index(s, k);
        assert(0 <= a0 < s.len() && s[a0].id == k);
        assert(a0 != i);
        let a: int = if a0 < i { a0 } else { a0 - 1 };
        assert(t[a] == s[a0]);
        assert(has_contact_id(t, k));
    }
    assert(contacts_map_of(t) =~= contacts_map_of(s).remove(s[i].id));
    assert(!has_link(t, s[i].user_id)) by {
        if has_link(t, s[i].user_id) {
            let a = link_index(t, s[i].user_id);
            assert(0 <= a < t.len() && t[a].user_id == s[i].user_id);
            let a0: int = if a < i { a } else { a + 1 };
            assert(t[a] == s[a0]);
            assert(s[a0].user_id != s[i].user_id);
        }
    }
    assert forall|x: u128| x != s[i].user_id implies #[trigger] linked_contact_of(t, x)
        == linked_contact_of(s, x) by {
        if has_link(t, x) {
            let a = link_index(t, x);
            assert(0 <= a < t.len() && t[a].user_id == x);
            let a0: int = if a < i { a } else { a + 1 };
            assert(t[a] == s[a0]);
            lemma_link_at(s, x, a0);
            lemma_link_at(t, x, a);
        } else {
            if has_link(s, x) {
                let a0 = link_index(s, x);
                assert(0 <= a0 < s.len() && s[a0].user_id == x);
                assert(a0 != i);
                let a: int = if a0 < i { a0 } else { a0 - 1 };
                assert(t[a] == s[a0]);
                assert(has_link(t, x));
            }
        }
    }
}

// ---------------------------------------------------------------------------
// The store: both tables, with their uniqueness constraints.
// ---------------------------------------------------------------------------

/// The relational store as two keyed tables of rows. User ids and contact ids
/// are unique within their table, and each user has at most one contact
/// linked to it.
pub struct Store {
    users: Vec<User>,
    contacts: Vec<Contact>,
}

impl Store {
    /// The user rows in insertion order.
    pub closed spec fn user_seq(self) -> Seq<User> {
        self.users@
    }

    /// The contact rows in insertion order.
    pub closed spec fn contact_seq(self) -> Seq<Contact> {
        self.contacts@
    }

    /// The constraints every store operation preserves.
    pub open spec fn wf(self) -> bool {
        unique_user_ids(self.user_seq()) && unique_contact_ids(self.contact_seq())
            && unique_links(self.contact_seq())
    }

    /// The user table as a keyed store.
    pub open spec fn user_map(self) -> Map<u128, User> {
        users_map_of(self.user_seq())
    }

    /// The contact table as a keyed store.
    pub open spec fn contact_map(self) -> Map<u128, Contact> {
        contacts_map_of(self.contact_seq())
    }

    /// The contact linked to the given user, if any.
    pub open spec fn linked_contact(self, uid: u128) -> Option<Contact> {
        linked_contact_of(self.contact_seq(), uid)
    }

    /// What the outer-join read yields: the user together with its
    /// optionally-absent contact.
    pub open spec fn joined(self, id: u128) -> Option<(User, Option<Contact>)> {
        if self.user_map().dom().contains(id) {
            Some((self.user_map()[id], self.linked_contact(id)))
        } else {
            None
        }
    }

    /// Two stores holding the same rows behave the same in every respect.
    pub open spec fn same_state(self, other: Store) -> bool {
        self.user_seq() == other.user_seq() && self.contact_seq() == other.contact_seq()
    }

    /// An empty store.
    pub fn new() -> (s: Store)
        ensures
            s.wf(),
            s.user_seq() == Seq::<User>::empty(),
            s.contact_seq() == Seq::<Contact>::empty(),
            s.user_map() == Map::<u128, User>::empty(),
            s.contact_map() == Map::<u128, Contact>::empty(),
            forall|uid: u128| #[trigger] s.linked_contact(uid) is None,
    {
        let s = Store { users: Vec::new(), contacts: Vec::new() };
        proof {
            assert(s.user_map() =~= Map::<u128, User>::empty());
            assert(s.contact_map() =~= Map::<u128, Contact>::empty());
        }
        s
    }

    fn user_index(&self, id: u128) -> (r: Option<usize>)
        ensures
            match r {
                Some(i) => 0 <= i < self.user_seq().len() && self.user_seq()[i as int].id == id,
                None => !has_user_id(self.user_seq(), id),
            },
    {
        let mut i: usize = 0;
        while i < self.users.len()
            invariant
                i <= self.users.len(),
                forall|j: int| 0 <= j < i ==> (#[trigger] self.users@[j]).id != id,
            decreases self.users.len() - i,
        {
            if self.users[i].id == id {
                return Some(i);
            }
            i = i + 1;
        }
        None
    }

    fn contact_index(&self, id: u128) -> (r: Option<usize>)
        ensures
            match r {
                Some(i) => 0 <= i < self.contact_seq().len() && self.contact_seq()[i as int].id
                    == id,
                None => !has_contact_id(self.contact_seq(), id),
            },
    {
        let mut i: usize = 0;
        while i < self.contacts.len()
            invariant
                i <= self.contacts.len(),
                forall|j: int| 0 <= j < i ==> (#[trigger] self.contacts@[j]).id != id,
            decreases self.contacts.len() - i,
        {
            if self.contacts[i].id == id {
                return Some(i);
            }
            i = i + 1;
        }
        None
    }

    fn link_position(&self, uid: u128) -> (r: Option<usize>)
        ensures
            match r {
                Some(i) => 0 <= i < self.contact_seq().len()
                    && self.contact_seq()[i as int].user_id == uid,
                None => !has_link(self.contact_seq(), uid),
            },
    {
        let mut i: usize = 0;
        while i < self.contacts.len()
            invariant
                i <= self.contacts.len(),
                forall|j: int| 0 <= j < i ==> (#[trigger] self.contacts@[j]).user_id != uid,
            decreases self.contacts.len() - i,
        {
            if self.contacts[i].user_id == uid {
                return Some(i);
            }
            i = i + 1;
        }
        None
    }

    /// Repository find-by-id for users.
    pub fn find_user(&self, id: u128) -> (r: Option<User>)
        requires
            self.wf(),
        ensures
            r is Some <==> self.user_map().dom().contains(id),
            r is Some ==> r->Some_0 == self.user_map()[id],
    {
        match self.user_index(id) {
            Some(i) => {
                proof {
                    lemma_user_at(self.user_seq(), id, i as int);
                }
                Some(self.users[i].duplicate())
            },
            None => None,
        }
    }

    /// Repository find-by-id for contacts.
    pub fn find_contact(&self, id: u128) -> (r: Option<Contact>)
        requires
            self.wf(),
        ensures
            r is Some <==> self.contact_map().dom().contains(id),
            r is Some ==> r->Some_0 == self.contact_map()[id],
    {
        match self.contact_index(id) {
            Some(i) => {
                proof {
                    lemma_contact_at(self.contact_seq(), id, i as int);
                }
                Some(self.contacts[i].duplicate())
            },
            None => None,
        }
    }

    /// Repository find-all for users: every row, in insertion order.
    pub fn list_users(&self) -> (r: Vec<User>)
        ensures
            r@ == self.user_seq(),
    {
        let mut out: Vec<User> = Vec::new();
        let mut i: usize = 0;
        while i < self.users.len()
            invariant
                i <= self.users.len(),
                out@ == self.users@.subrange(0, i as int),
            decreases self.users.len() - i,
        {
            out.push(self.users[i].duplicate());
            proof {
                assert(out@ =~= self.users@.subrange(0, i + 1 as int));
            }
            i = i + 1;
        }
        proof {
            assert(out@ =~= self.user_seq());
        }
        out
    }

    /// Repository find-all for contacts: every row, in insertion order.
    pub fn list_contacts(&self) -> (r: Vec<Contact>)
        ensures
            r@ == self.contact_seq(),
    {
        let mut out: Vec<Contact> = Vec::new();
        let mut i: usize = 0;
        while i < self.contacts.len()
            invariant
                i <= self.contacts.len(),
                out@ == self.contacts@.subrange(0, i as int),
            decreases self.contacts.len() - i,
        {
            out.push(self.contacts[i].duplicate());
            proof {
                assert(out@ =~= self.contacts@.subrange(0, i + 1 as int));
            }
            i = i + 1;
        }
        proof {
            assert(out@ =~= self.contact_seq());
        }
        out
    }

    /// The outer-join lookup: the user together with its optionally-absent
    /// contact. A user returned with no contact is the detectable
    /// inconsistency callers must treat as an internal error.
    pub fn find_user_with_contact(&self, id: u128) -> (r: Option<(User, Option<Contact>)>)
        requires
            self.wf(),
        ensures
            r == self.joined(id),
    {
        match self.user_index(id) {
            Some(i) => {
                proof {
                    lemma_user_at(self.user_seq(), id, i as int);
                }
                let u = self.users[i].duplicate();
                let c = match self.link_position(id) {
                    Some(k) => {
                        proof {
                            lemma_link_at(self.contact_seq(), id, k as int);
                        }
                        Some(self.contacts[k].duplicate())
                    },
                    None => None,
                };
                Some((u, c))
            },
            None => None,
        }
    }

    /// Repository insert for users: fails on a duplicate id, leaving the
    /// store unchanged; on success the new row is appended.
    pub fn insert_user(&mut self, u: User) -> (r: Result<User, StoreError>)
        requires
            old(self).wf(),
        ensures
            final(self).wf(),
            final(self).contact_seq() == old(self).contact_seq(),
            old(self).user_map().dom().contains(u.id) ==> r == Err::<User, StoreError>(
                StoreError::DuplicateId,
            ) && final(self).same_state(*old(self)),
            !old(self).user_map().dom().contains(u.id) ==> r == Ok::<User, StoreError>(u) && final(self).user_seq() == old(self).user_seq().push(u) && final(self).user_map() == old(self).user_map().insert(u.id, u),
    {
        match self.user_index(u.id) {
            Some(i) => {
                proof {
                    lemma_user_at(self.user_seq(), u.id, i as int);
                }
                Err(StoreError::DuplicateId)
            },
            None => {
                let out = u.duplicate();
                proof {
                    lemma_users_push(self.user_seq(), u);
                }
                self.users.push(u);
                Ok(out)
            },
        }
    }

    /// Repository insert for contacts: fails on a duplicate id, or when the
    /// referenced user already has a contact linked to it; on success the new
    /// row is appended and becomes the linked contact of its user.
    pub fn insert_contact(&mut self, c: Contact) -> (r: Result<Contact, StoreError>)
        requires
            old(self).wf(),
        ensures
            final(self).wf(),
            final(self).user_seq() == old(self).user_seq(),
            old(self).contact_map().dom().contains(c.id) ==> r == Err::<Contact, StoreError>(
                StoreError::DuplicateId,
            ) && final(self).same_state(*old(self)),
            !old(self).contact_map().dom().contains(c.id) && old(self).linked_contact(c.user_id)
                is Some ==> r == Err::<Contact, StoreError>(StoreError::DuplicateLink) && final(self).same_state(*old(self)),
            !old(self).contact_map().dom().contains(c.id) && old(self).linked_contact(c.user_id)
                is None ==> r == Ok::<Contact, StoreError>(c) && final(self).contact_seq() == old(self).contact_seq().push(c) && final(self).contact_map() == old(self).contact_map().insert(
                c.id,
                c,
            ) && final(self).linked_contact(c.user_id) == Some(c) && (forall|x: u128|
                x != c.user_id ==> #[trigger] final(self).linked_contact(x) == old(self).linked_contact(x)),
    {
        match self.contact_index(c.id) {
            Some(i) => {
                proof {
                    lemma_contact_at(self.contact_seq(), c.id, i as int);
                }
                Err(StoreError::DuplicateId)
            },
            None => {
                match self.link_position(c.user_id) {
                    Some(k) => {
                        proof {
                            lemma_link_at(self.contact_seq(), c.user_id, k as int);
                        }
                        Err(StoreError::DuplicateLink)
                    },
                    None => {
                        let out = c.duplicate();
                        proof {
                            lemma_contacts_push(self.contact_seq(), c);
                        }
                        self.contacts.push(c);
                        Ok(out)
                    },
                }
            },
        }
    }

    /// Repository delete for users: the number of rows removed (0 or 1).
    /// Contacts are not cascaded: deleting a user leaves its contact row.
    pub fn remove_user(&mut self, id: u128) -> (n: u64)
        requires
            old(self).wf(),
        ensures
            final(self).wf(),
            final(self).contact_seq() == old(self).contact_seq(),
            old(self).user_map().dom().contains(id) ==> n == 1 && final(self).user_seq() == old(self).user_seq().remove(user_id_index(old(self).user_seq(), id)) && final(self).user_map()
                == old(self).user_map().remove(id),
            !old(self).user_map().dom().contains(id) ==> n == 0 && final(self).same_state(
                *old(self),
            ),
    {
        match self.user_index(id) {
            Some(i) => {
                proof {
                    lemma_user_at(self.user_seq(), id, i as int);
                    lemma_users_remove(self.user_seq(), i as int);
                }
                self.users.remove(i);
                1
            },
            None => 0,
        }
    }

    /// Repository delete for contacts: the number of rows removed (0 or 1).
    pub fn remove_contact(&mut self, id: u128) -> (n: u64)
        requires
            old(self).wf(),
        ensures
            final(self).wf(),
            final(self).user_seq() == old(self).user_seq(),
            old(self).contact_map().dom().contains(id) ==> n == 1 && final(self).contact_map()
                == old(self).contact_map().remove(id) && final(self).linked_contact(
                old(self).contact_map()[id].user_id,
            ) is None && (forall|x: u128|
                x != old(self).contact_map()[id].user_id ==> #[trigger] final(self).linked_contact(x) == old(self).linked_contact(x)),
            !old(self).contact_map().dom().contains(id) ==> n == 0 && final(self).same_state(
                *old(self),
            ),
    {
        match self.contact_index(id) {
            Some(i) => {
                proof {
                    lemma_contact_at(self.contact_seq(), id, i as int);
                    lemma_contacts_remove(self.contact_seq(), i as int);
                }
                self.contacts.remove(i);
                1
            },
            None => 0,
        }
    }

    /// Delete a user by id: deleting an id that is not stored reports
    /// NotFound, never a false success.
    pub fn delete_user(&mut self, id: u128) -> (r: Result<(), StoreError>)
        requires
            old(self).wf(),
        ensures
            final(self).wf(),
            final(self).contact_seq() == old(self).contact_seq(),
            old(self).user_map().dom().contains(id) ==> r == Ok::<(), StoreError>(()) && final(self).user_map() == old(self).user_map().remove(id),
            !old(self).user_map().dom().contains(id) ==> r == Err::<(), StoreError>(
                StoreError::NotFound,
            ) && final(self).same_state(*old(self)),
    {
        let n = self.remove_user(id);
        if n >= 1 {
            Ok(())
        } else {
            Err(StoreError::NotFound)
        }
    }

    /// Delete a contact by id: deleting an id that is not stored reports
    /// NotFound, never a false success.
    pub fn delete_contact(&mut self, id: u128) -> (r: Result<(), StoreError>)
        requires
            old(self).wf(),
        ensures
            final(self).wf(),
            final(self).user_seq() == old(self).user_seq(),
            old(self).contact_map().dom().contains(id) ==> r == Ok::<(), StoreError>(()) && final(self).contact_map() == old(self).contact_map().remove(id),
            !old(self).contact_map().dom().contains(id) ==> r == Err::<(), StoreError>(
                StoreError::NotFound,
            ) && final(self).same_state(*old(self)),
    {
        let n = self.remove_contact(id);
        if n == 1 {
            Ok(())
        } else {
            Err(StoreError::NotFound)
        }
    }

    /// Repository partial update for a user's own fields: only present fields
    /// are modified; absent fields keep their prior values.
    pub fn update_user_fields(&mut self, id: u128, p: &UpdateUserPayload) -> (r: Result<
        User,
        StoreError,
    >)
        requires
            old(self).wf(),
        ensures
            final(self).wf(),
            final(self).contact_seq() == old(self).contact_seq(),
            old(self).user_map().dom().contains(id) ==> ({
                let u1 = patched_user(old(self).user_map()[id], *p);
                r == Ok::<User, StoreError>(u1) && final(self).user_map() == old(self).user_map().insert(id, u1)
            }),
            !old(self).user_map().dom().contains(id) ==> r == Err::<User, StoreError>(
                StoreError::NotFound,
            ) && final(self).same_state(*old(self)),
    {
        match self.user_index(id) {
            Some(i) => {
                proof {
                    lemma_user_at(self.user_seq(), id, i as int);
                }
                let u1 = self.users[i].apply_patch(p);
                let out = u1.duplicate();
                proof {
                    lemma_users_update(self.user_seq(), i as int, u1);
                }
                self.users[i] = u1;
                Ok(out)
            },
            None => Err(StoreError::NotFound),
        }
    }

    /// Repository partial update for a contact: only the present field is
    /// modified; absent fields keep their prior values.
    pub fn update_contact(&mut self, id: u128, p: &UpdateContact) -> (r: Result<
        Contact,
        StoreError,
    >)
        requires
            old(self).wf(),
        ensures
            final(self).wf(),
            final(self).user_seq() == old(self).user_seq(),
            old(self).contact_map().dom().contains(id) ==> ({
                let c1 = patched_contact_email(old(self).contact_map()[id], *p);
                r == Ok::<Contact, StoreError>(c1) && final(self).contact_map() == old(self).contact_map().insert(id, c1) && final(self).linked_contact(c1.user_id) == Some(
                    c1,
                ) && (forall|x: u128|
                    x != c1.user_id ==> #[trigger] final(self).linked_contact(x) == old(self).linked_contact(x))
            }),
            !old(self).contact_map().dom().contains(id) ==> r == Err::<Contact, StoreError>(
                StoreError::NotFound,
            ) && final(self).same_state(*old(self)),
    {
        match self.contact_index(id) {
            Some(i) => {
                proof {
                    lemma_contact_at(self.contact_seq(), id, i as int);
                }
                let c1 = self.contacts[i].apply_patch(p);
                let out = c1.duplicate();
                proof {
                    lemma_contacts_update(self.contact_seq(), i as int, c1);
                }
                self.contacts[i] = c1;
                Ok(out)
            },
            None => Err(StoreError::NotFound),
        }
    }

    /// Whether a creation with these generated ids can succeed: both ids are
    /// free, and no contact is linked to the new user id yet.
    pub open spec fn create_ok(self, uid: u128, cid: u128) -> bool {
        &&& !self.user_map().dom().contains(uid)
        &&& !self.contact_map().dom().contains(cid)
        &&& self.linked_contact(uid) is None
    }

    /// The transactional dual-write with caller-generated ids: the user row
    /// and its contact row are stored together, or — when either insert is
    /// refused — the first insert is rolled back and the store is exactly as
    /// it was. No observer ever sees the user without its contact. A
    /// duplicated id fails deterministically with DuplicateId; an already
    /// linked user id with DuplicateLink.
    pub fn create_user_and_contact_with_ids(
        &mut self,
        p: &CreateUserWithContact,
        uid: u128,
        cid: u128,
    ) -> (r: Result<User, StoreError>)
        requires
            old(self).wf(),
        ensures
            final(self).wf(),
            old(self).create_ok(uid, cid) ==> ({
                let u = (User { id: uid, name: p.name, genre: p.genre });
                let c = (Contact { id: cid, email: p.email, user_id: uid });
                &&& r == Ok::<User, StoreError>(u)
                &&& final(self).user_seq() == old(self).user_seq().push(u)
                &&& final(self).contact_seq() == old(self).contact_seq().push(c)
                &&& final(self).user_map() == old(self).user_map().insert(uid, u)
                &&& final(self).contact_map() == old(self).contact_map().insert(cid, c)
                &&& final(self).linked_contact(uid) == Some(c)
                &&& final(self).joined(uid) == Some((u, Some(c)))
                &&& forall|x: u128|
                    x != uid ==> #[trigger] final(self).linked_contact(x) == old(
                        self,
                    ).linked_contact(x)
            }),
            !old(self).create_ok(uid, cid) ==> r is Err && final(self).same_state(*old(self)),
            old(self).user_map().dom().contains(uid) ==> r == Err::<User, StoreError>(
                StoreError::DuplicateId,
            ),
            !old(self).user_map().dom().contains(uid) && old(self).contact_map().dom().contains(
                cid,
            ) ==> r == Err::<User, StoreError>(StoreError::DuplicateId),
            !old(self).user_map().dom().contains(uid) && !old(self).contact_map().dom().contains(
                cid,
            ) && old(self).linked_contact(uid) is Some ==> r == Err::<User, StoreError>(
                StoreError::DuplicateLink,
            ),
    {
        let u = User { id: uid, name: p.name.clone(), genre: p.genre };
        let created = match self.insert_user(u) {
            Ok(cu) => cu,
            Err(e) => {
                return Err(e);
            },
        };
        let ghost mid = *self;
        let c = Contact { id: cid, email: p.email.clone(), user_id: uid };
        match self.insert_contact(c) {
            Ok(_) => Ok(created),
            Err(e) => {
                // Roll back the user insert before reporting the failure.
                proof {
                    lemma_user_at(mid.user_seq(), uid, old(self).user_seq().len() as int);
                }
                self.remove_user(uid);
                proof {
                    assert(final(self).user_seq() =~= old(self).user_seq());
                }
                Err(e)
            },
        }
    }

    /// The create workflow as the service runs it: both ids are drawn fresh
    /// at random, then the dual-write runs. Whatever ids were drawn, either
    /// the returned user and its contact are both stored — and the new user
    /// is visible through the joined read with the requested email — or the
    /// store is exactly as it was. On a store with no rows at all no drawn
    /// pair of ids can collide, so creation is owed success there.
    pub fn create_user_and_contact(&mut self, p: &CreateUserWithContact) -> (r: Result<
        User,
        StoreError,
    >)
        requires
            old(self).wf(),
        ensures
            final(self).wf(),
            r is Err ==> final(self).same_state(*old(self)),
            old(self).user_seq().len() == 0 && old(self).contact_seq().len() == 0 ==> r is Ok,
            r is Ok ==> ({
                let u = r->Ok_0;
                &&& u.name == p.name
                &&& u.genre == p.genre
                &&& !old(self).user_map().dom().contains(u.id)
                &&& final(self).user_seq() == old(self).user_seq().push(u)
                &&& final(self).user_map() == old(self).user_map().insert(u.id, u)
                &&& final(self).linked_contact(u.id) is Some
                &&& ({
                    let c = final(self).linked_contact(u.id)->Some_0;
                    &&& c.user_id == u.id
                    &&& c.email == p.email
                    &&& !old(self).contact_map().dom().contains(c.id)
                    &&& final(self).contact_seq() == old(self).contact_seq().push(c)
                    &&& final(self).contact_map() == old(self).contact_map().insert(c.id, c)
                    &&& final(self).joined(u.id) == Some((u, Some(c)))
                })
                &&& forall|x: u128|
                    x != u.id ==> #[trigger] final(self).linked_contact(x) == old(
                        self,
                    ).linked_contact(x)
            }),
    {
        let uid = fresh_id();
        let cid = fresh_id();
        self.create_user_and_contact_with_ids(p, uid, cid)
    }

    /// The transactional combined update: reads the user joined with its
    /// contact inside the same step, applies the present fields to the user
    /// and the email to the contact, and persists both, or fails — NotFound
    /// when no user row exists, MissingContact when the user exists without
    /// its contact — leaving the store exactly as it was.
    pub fn update_user_and_contact(&mut self, id: u128, p: &UpdateUserPayload) -> (r: Result<
        (User, Contact),
        StoreError,
    >)
        requires
            old(self).wf(),
        ensures
            final(self).wf(),
            ({
                match old(self).joined(id) {
                    None => r == Err::<(User, Contact), StoreError>(StoreError::NotFound)
                        && final(self).same_state(*old(self)),
                    Some((_, None)) => r == Err::<(User, Contact), StoreError>(
                        StoreError::MissingContact,
                    ) && final(self).same_state(*old(self)),
                    Some((u0, Some(c0))) => ({
                        let u1 = patched_user(u0, *p);
                        let c1 = patched_contact(c0, *p);
                        &&& r == Ok::<(User, Contact), StoreError>((u1, c1))
                        &&& final(self).user_map() == old(self).user_map().insert(id, u1)
                        &&& final(self).contact_map() == old(self).contact_map().insert(c0.id, c1)
                        &&& final(self).joined(id) == Some((u1, Some(c1)))
                        &&& forall|x: u128|
                            x != id ==> #[trigger] final(self).linked_contact(x) == old(
                                self,
                            ).linked_contact(x)
                    }),
                }
            }),
    {
        let ui = match self.user_index(id) {
            Some(i) => i,
            None => {
                return Err(StoreError::NotFound);
            },
        };
        proof {
            lemma_user_at(self.user_seq(), id, ui as int);
        }
        let ci = match self.link_position(id) {
            Some(k) => k,
            None => {
                return Err(StoreError::MissingContact);
            },
        };
        proof {
            lemma_link_at(self.contact_seq(), id, ci as int);
        }
        let u1 = self.users[ui].apply_patch(p);
        let c1 = self.contacts[ci].apply_user_patch(p);
        let out = (u1.duplicate(), c1.duplicate());
        proof {
            lemma_users_update(self.user_seq(), ui as int, u1);
            lemma_contacts_update(self.contact_seq(), ci as int, c1);
        }
        self.users[ui] = u1;
        self.contacts[ci] = c1;
        proof {
            lemma_user_at(final(self).user_seq(), id, ui as int);
        }
        Ok(out)
    }

    /// The joined read as the service answers it: the user enriched with its
    /// contact's email. A stored user without a contact is reported as the
    /// inconsistency it is, never silently repaired.
    pub fn get_user(&self, id: u128) -> (r: Result<UserWithContactResponse, StoreError>)
        requires
            self.wf(),
        ensures
            ({
                match self.joined(id) {
                    None => r == Err::<UserWithContactResponse, StoreError>(StoreError::NotFound),
                    Some((_, None)) => r == Err::<UserWithContactResponse, StoreError>(
                        StoreError::MissingContact,
                    ),
                    Some((u, Some(c))) => {
                        &&& r is Ok
                        &&& r->Ok_0.id == u.id
                        &&& r->Ok_0.name == u.name
                        &&& r->Ok_0.genre == u.genre
                        &&& r->Ok_0.email == c.email
                    },
                }
            }),
    {
        match self.find_user_with_contact(id) {
            None => Err(StoreError::NotFound),
            Some((_, None)) => Err(StoreError::MissingContact),
            Some((u, Some(c))) => Ok(joined_response(&u, &c)),
        }
    }
}

// ---------------------------------------------------------------------------
// Laws of the workflow layer.
// ---------------------------------------------------------------------------

/// A combined update whose payload sets no field hands back the stored
/// records unchanged, and writing them back leaves both tables as they were.
pub proof fn lemma_empty_update_is_identity(
    s: Store,
    id: u128,
    p: UpdateUserPayload,
    u0: User,
    c0: Contact,
)
    requires
        s.wf(),
        p.name is None,
        p.genre is None,
        p.email is None,
        s.joined(id) == Some((u0, Some(c0))),
    ensures
        patched_user(u0, p) == u0,
        patched_contact(c0, p) == c0,
        s.user_map().insert(id, patched_user(u0, p)) == s.user_map(),
        s.contact_map().insert(c0.id, patched_contact(c0, p)) == s.contact_map(),
{
    assert(s.user_map().dom().contains(id) && s.user_map()[id] == u0);
    assert(s.user_map().insert(id, u0) =~= s.user_map());
    let li = link_index(s.contact_seq(), id);
    assert(0 <= li < s.contact_seq().len() && s.contact_seq()[li].user_id == id);
    assert(s.contact_seq()[li] == c0);
    lemma_contact_at(s.contact_seq(), c0.id, li);
    assert(s.contact_map().insert(c0.id, c0) =~= s.contact_map());
}

/// Two creations whose generated ids differ never collide: after the first
/// dual-write lands, the second pair of ids is still free, so the second
/// creation succeeds as well. A creation whose user id is already stored
/// fails deterministically instead.
pub proof fn lemma_distinct_generated_ids_never_collide(
    pre: Store,
    post: Store,
    u: User,
    c: Contact,
    uid2: u128,
    cid2: u128,
)
    requires
        c.user_id == u.id,
        post.user_map() == pre.user_map().insert(u.id, u),
        post.contact_map() == pre.contact_map().insert(c.id, c),
        post.linked_contact(u.id) == Some(c),
        forall|x: u128|
            x != u.id ==> #[trigger] post.linked_contact(x) == pre.linked_contact(x),
        pre.create_ok(uid2, cid2),
        uid2 != u.id,
        cid2 != c.id,
    ensures
        post.create_ok(uid2, cid2),
{
    assert(post.linked_contact(uid2) == pre.linked_contact(uid2));
}

} // verus!
