//! The account store: one structure holding the email index, the accounts
//! and the task documents. Its three associative structures are modeled as
//! association lists with unique keys, viewed abstractly as maps; every
//! operation keeps the three mutually consistent. The process shares one
//! store behind one mutual-exclusion boundary, which the surrounding program
//! supplies; each operation here is one bounded, atomic step on the store.

use vstd::prelude::*;
use vstd::pervasive::VecAdditionalExecFns;
use vstd::pervasive::unreached;
use crate::auth::{hash_of, User, MAX_PASSWORD_LEN};
use crate::errors::Error;
use crate::hash::{fnv1a, fnv1a_hash};

verus! {

/// The map an association list denotes: later entries shadow earlier ones.
pub open spec fn alist_map<K: View, V: View>(s: Seq<(K, V)>) -> Map<K::V, V::V>
    decreases s.len(),
{
    if s.len() == 0 {
        Map::empty()
    } else {
        alist_map(s.drop_last()).insert(s.last().0@, s.last().1@)
    }
}

/// No two entries of the list carry the same key.
pub open spec fn alist_unique<K: View, V>(s: Seq<(K, V)>) -> bool {
    forall|i: int, j: int| 0 <= i < j < s.len() ==> s[i].0@ != s[j].0@
}

/// A key is in the denoted map exactly when some entry carries it.
pub proof fn lemma_alist_map_dom<K: View, V: View>(s: Seq<(K, V)>, k: K::V)
    ensures
        alist_map(s).contains_key(k) <==> exists|i: int| 0 <= i < s.len() && s[i].0@ == k,
    decreases s.len(),
{
    if s.len() > 0 {
        lemma_alist_map_dom(s.drop_last(), k);
        if s.last().0@ == k {
            assert(s[s.len() - 1].0@ == k);
        } else {
            if alist_map(s).contains_key(k) {
                let i = choose|i: int|
                    0 <= i < s.drop_last().len() && s.drop_last()[i].0@ == k;
                assert(s[i].0@ == k);
            }
            if exists|i: int| 0 <= i < s.len() && s[i].0@ == k {
                let i = choose|i: int| 0 <= i < s.len() && s[i].0@ == k;
                assert(s.drop_last()[i].0@ == k);
            }
        }
    }
}

/// Under unique keys, the entry carrying a key gives the map's value at it.
pub proof fn lemma_alist_map_get<K: View, V: View>(s: Seq<(K, V)>, i: int)
    requires
        alist_unique(s),
        0 <= i < s.len(),
    ensures
        alist_map(s).contains_key(s[i].0@),
        alist_map(s)[s[i].0@] == s[i].1@,
    decreases s.len(),
{
    if i < s.len() - 1 {
        assert(alist_unique(s.drop_last()));
        lemma_alist_map_get(s.drop_last(), i);
        assert(s.drop_last()[i] == s[i]);
        assert(s.last().0@ != s[i].0@);
    }
}

/// Appending an entry denotes inserting its key and value.
pub proof fn lemma_alist_map_push<K: View, V: View>(s: Seq<(K, V)>, k: K, v: V)
    ensures
        alist_map(s.push((k, v))) == alist_map(s).insert(k@, v@),
        alist_unique(s) && !alist_map(s).contains_key(k@) ==> alist_unique(s.push((k, v))),
{
    assert(s.push((k, v)).drop_last() =~= s);
    assert(s.push((k, v)).last() == (k, v));
    if alist_unique(s) && !alist_map(s).contains_key(k@) {
        lemma_alist_map_dom(s, k@);
        let t = s.push((k, v));
        assert forall|i: int, j: int| 0 <= i < j < t.len() implies t[i].0@ != t[j].0@ by {
            if j == t.len() - 1 {
                assert(t[i] == s[i]);
            }
        }
    }
}

/// Overwriting the entry that carries a key denotes inserting the new value.
pub proof fn lemma_alist_map_update<K: View, V: View>(s: Seq<(K, V)>, i: int, k: K, v: V)
    requires
        alist_unique(s),
        0 <= i < s.len(),
        s[i].0@ == k@,
    ensures
        alist_map(s.update(i, (k, v))) =~= alist_map(s).insert(k@, v@),
        alist_unique(s.update(i, (k, v))),
    decreases s.len(),
{
    let t = s.update(i, (k, v));
    assert forall|x: int, y: int| 0 <= x < y < t.len() implies t[x].0@ != t[y].0@ by {
        assert(s[x].0@ != s[y].0@);
    }
    if i == s.len() - 1 {
        assert(t.drop_last() =~= s.drop_last());
        assert(t.last() == (k, v));
        assert(s.last().0@ == k@);
    } else {
        assert(t.drop_last() =~= s.drop_last().update(i, (k, v)));
        assert(alist_unique(s.drop_last()));
        assert(s.drop_last()[i].0@ == k@);
        lemma_alist_map_update(s.drop_last(), i, k, v);
        assert(t.last() == s.last());
        lemma_alist_map_dom(s, k@);
        assert(s.last().0@ != k@);
    }
}

/// Copy a byte string.
pub fn copy_bytes(v: &Vec<u8>) -> (r: Vec<u8>)
    ensures
        r@ == v@,
{
    let mut r: Vec<u8> = Vec::new();
    let mut i: usize = 0;
    while i < v.len()
        invariant
            i <= v.len(),
            r@ =~= v@.take(i as int),
        decreases v.len() - i,
    {
        r.push(v[i]);
        i = i + 1;
    }
    proof {
        assert(v@.take(v.len() as int) =~= v@);
    }
    r
}

/// Do two byte strings hold the same bytes?
pub fn bytes_eq(a: &Vec<u8>, b: &Vec<u8>) -> (r: bool)
    ensures
        r == (a@ == b@),
{
    if a.len() != b.len() {
        return false;
    }
    let mut i: usize = 0;
    while i < a.len()
        invariant
            i <= a.len(),
            a@.len() == b@.len(),
            forall|j: int| 0 <= j < i ==> a@[j] == b@[j],
        decreases a.len() - i,
    {
        if a[i] != b[i] {
            return false;
        }
        i = i + 1;
    }
    proof {
        assert(a@ =~= b@);
    }
    true
}

/// Index of the entry carrying a byte-string key, if any.
fn find_bytes_key<V>(list: &Vec<(Vec<u8>, V)>, k: &Vec<u8>) -> (r: Option<usize>)
    ensures
        match r {
            Some(i) => i < list@.len() && list@[i as int].0@ == k@,
            None => forall|j: int| 0 <= j < list@.len() ==> list@[j].0@ != k@,
        },
{
    let mut i: usize = 0;
    while i < list.len()
        invariant
            i <= list.len(),
            forall|j: int| 0 <= j < i ==> list@[j].0@ != k@,
        decreases list.len() - i,
    {
        if bytes_eq(&list[i].0, k) {
            return Some(i);
        }
        i = i + 1;
    }
    None
}

/// Index of the entry carrying an identifier key, if any.
fn find_id_key<V>(list: &Vec<(u64, V)>, k: u64) -> (r: Option<usize>)
    ensures
        match r {
            Some(i) => i < list@.len() && list@[i as int].0 == k,
            None => forall|j: int| 0 <= j < list@.len() ==> list@[j].0 != k,
        },
{
    let mut i: usize = 0;
    while i < list.len()
        invariant
            i <= list.len(),
            forall|j: int| 0 <= j < i ==> list@[j].0 != k,
        decreases list.len() - i,
    {
        if list[i].0 == k {
            return Some(i);
        }
        i = i + 1;
    }
    None
}

/// Is this string an encoded hash that the password scheme can produce?
pub open spec fn in_hash_image(h: Seq<char>) -> bool {
    exists|p: Seq<u8>| h == hash_of(p)
}

/// The store: email index, account records and task documents, abstractly
/// three maps that every operation keeps mutually consistent.
pub struct TreeStore {
    email_list: Vec<(Vec<u8>, u64)>,
    user_list: Vec<(u64, User)>,
    task_list: Vec<(u64, Vec<u8>)>,
}

impl TreeStore {
    /// The email index: which identifier an email is registered under.
    pub closed spec fn emails(self) -> Map<Seq<u8>, u64> {
        alist_map(self.email_list@)
    }

    /// The account records: the stored password hash of each identifier.
    pub closed spec fn users(self) -> Map<u64, Seq<char>> {
        alist_map(self.user_list@)
    }

    /// The task documents: the stored document bytes of each identifier.
    pub closed spec fn tasks(self) -> Map<u64, Seq<u8>> {
        alist_map(self.task_list@)
    }

    #[verifier::type_invariant]
    spec fn wf(self) -> bool {
        &&& alist_unique(self.email_list@)
        &&& alist_unique(self.user_list@)
        &&& alist_unique(self.task_list@)
        &&& forall|e: Seq<u8>|
            #[trigger] self.emails().contains_key(e) ==> self.users().contains_key(self.emails()[e])
        &&& forall|id: u64|
            #[trigger] self.users().contains_key(id) ==> in_hash_image(self.users()[id])
    }

    /// An empty store: no emails indexed, no accounts, no documents.
    pub fn new() -> (s: TreeStore)
        ensures
            s.emails() == Map::<Seq<u8>, u64>::empty(),
            s.users() == Map::<u64, Seq<char>>::empty(),
            s.tasks() == Map::<u64, Seq<u8>>::empty(),
    {
        let s = TreeStore { email_list: Vec::new(), user_list: Vec::new(), task_list: Vec::new() };
        s
    }

    /// Derive the account identifier of an email.
    pub fn make_id(email: &Vec<u8>) -> (r: u64)
        ensures
            r == fnv1a(email@),
    {
        fnv1a_hash(email)
    }

    /// Register a new account. An email that is already indexed is rejected
    /// and the store is left unchanged; otherwise the email is indexed under
    /// the derived identifier, the account record is created with the
    /// password's hash, and the task documents are untouched.
    pub fn create_account(&mut self, email: &Vec<u8>, password: &Vec<u8>) -> (r: Result<
        u64,
        Error,
    >)
        requires
            password@.len() <= MAX_PASSWORD_LEN,
        ensures
            old(self).emails().contains_key(email@) ==> r == Err::<u64, Error>(Error::EmailExists)
                && *final(self) == *old(self),
            !old(self).emails().contains_key(email@) ==> {
                &&& r == Ok::<u64, Error>(fnv1a(email@))
                &&& final(self).emails() =~= old(self).emails().insert(email@, fnv1a(email@))
                &&& final(self).users() =~= old(self).users().insert(
                    fnv1a(email@),
                    hash_of(password@),
                )
                &&& final(self).tasks() == old(self).tasks()
            },
    {
        proof {
            use_type_invariant(&*self);
        }
        match find_bytes_key(&self.email_list, email) {
            Some(i) => {
                proof {
                    lemma_alist_map_dom(self.email_list@, email@);
                }
                Err(Error::EmailExists)
            },
            None => {
                proof {
                    lemma_alist_map_dom(self.email_list@, email@);
                }
                let id = fnv1a_hash(email);
                let user = User::new(password);
                let mut email_list: Vec<(Vec<u8>, u64)> = Vec::new();
                let mut user_list: Vec<(u64, User)> = Vec::new();
                let mut task_list: Vec<(u64, Vec<u8>)> = Vec::new();
                proof {
                    // the fields are taken out one by one; with an empty
                    // email index every clause of wf holds of each
                    // intermediate store
                    assert(alist_map(email_list@) =~= Map::<Seq<u8>, u64>::empty());
                    assert(alist_map(user_list@) =~= Map::<u64, Seq<char>>::empty());
                    assert(alist_map(task_list@) =~= Map::<u64, Seq<u8>>::empty());
                    let ghost mid = TreeStore {
                        email_list: email_list,
                        user_list: self.user_list,
                        task_list: self.task_list,
                    };
                    assert(forall|e: Seq<u8>| !(#[trigger] mid.emails().contains_key(e)));
                    assert(mid.users() == self.users());
                    assert(mid.wf());
                }
                std::mem::swap(&mut email_list, &mut self.email_list);
                std::mem::swap(&mut user_list, &mut self.user_list);
                std::mem::swap(&mut task_list, &mut self.task_list);
                let email_copy = copy_bytes(email);
                proof {
                    lemma_alist_map_push(email_list@, email_copy, id);
                }
                email_list.push((email_copy, id));
                match find_id_key(&user_list, id) {
                    Some(j) => {
                        proof {
                            lemma_alist_map_update(user_list@, j as int, id, user);
                        }
                        user_list.set(j, (id, user));
                    },
                    None => {
                        proof {
                            lemma_alist_map_dom(user_list@, id);
                            lemma_alist_map_push(user_list@, id, user);
                        }
                        user_list.push((id, user));
                    },
                }
                proof {
                    let ghost next = TreeStore {
                        email_list: email_list,
                        user_list: user_list,
                        task_list: task_list,
                    };
                    assert forall|e: Seq<u8>| #[trigger] next.emails().contains_key(e)
                        implies next.users().contains_key(next.emails()[e]) by {
                        if e != email@ {
                            assert(old(self).emails().contains_key(e));
                        }
                    }
                    assert(in_hash_image(hash_of(password@)));
                    assert forall|i2: u64| #[trigger] next.users().contains_key(i2)
                        implies in_hash_image(next.users()[i2]) by {
                        if i2 == id {
                            assert(next.users()[i2] == hash_of(password@));
                        } else {
                            assert(old(self).users().contains_key(i2));
                        }
                    }
                    assert(next.wf());
                }
                *self = TreeStore { email_list, user_list, task_list };
                Ok(id)
            },
        }
    }

    /// Authenticate a login attempt. An unindexed email is rejected as
    /// NoSuchUser; a password that does not hash to the stored hash is
    /// rejected as BadPassword; otherwise the account's identifier is
    /// returned.
    pub fn authenticate(&self, email: &Vec<u8>, password: &Vec<u8>) -> (r: Result<u64, Error>)
        requires
            password@.len() <= MAX_PASSWORD_LEN,
        ensures
            !self.emails().contains_key(email@) ==> r == Err::<u64, Error>(Error::NoSuchUser),
            self.emails().contains_key(email@) ==> {
                let id = self.emails()[email@];
                if self.users()[id] == hash_of(password@) {
                    r == Ok::<u64, Error>(id)
                } else {
                    r == Err::<u64, Error>(Error::BadPassword)
                }
            },
    {
        proof {
            use_type_invariant(&*self);
        }
        match find_bytes_key(&self.email_list, email) {
            None => {
                proof {
                    lemma_alist_map_dom(self.email_list@, email@);
                }
                Err(Error::NoSuchUser)
            },
            Some(i) => {
                proof {
                    lemma_alist_map_get(self.email_list@, i as int);
                }
                let id = self.email_list[i].1;
                match find_id_key(&self.user_list, id) {
                    None => {
                        proof {
                            assert(self.emails().contains_key(email@));
                            assert(self.users().contains_key(self.emails()[email@]));
                            lemma_alist_map_dom(self.user_list@, id);
                        }
                        unreached()
                    },
                    Some(j) => {
                        proof {
                            lemma_alist_map_get(self.user_list@, j as int);
                        }
                        if self.user_list[j].1.verify_pw(password) {
                            Ok(id)
                        } else {
                            Err(Error::BadPassword)
                        }
                    },
                }
            },
        }
    }

    /// Read the task document of an account. An identifier with no account
    /// is rejected as InvalidID; an account that never wrote a document is
    /// rejected as NoTasks; otherwise a copy of the document is returned.
    pub fn get_tasks(&self, id: u64) -> (r: Result<Vec<u8>, Error>)
        ensures
            !self.users().contains_key(id) ==> r == Err::<Vec<u8>, Error>(Error::InvalidID),
            self.users().contains_key(id) && !self.tasks().contains_key(id) ==> r == Err::<
                Vec<u8>,
                Error,
            >(Error::NoTasks),
            self.users().contains_key(id) && self.tasks().contains_key(id) ==> (r matches Ok(d)
                && d@ == self.tasks()[id]),
    {
        proof {
            use_type_invariant(&*self);
        }
        match find_id_key(&self.user_list, id) {
            None => {
                proof {
                    lemma_alist_map_dom(self.user_list@, id);
                }
                Err(Error::InvalidID)
            },
            Some(_) => {
                proof {
                    lemma_alist_map_dom(self.user_list@, id);
                }
                match find_id_key(&self.task_list, id) {
                    None => {
                        proof {
                            lemma_alist_map_dom(self.task_list@, id);
                        }
                        Err(Error::NoTasks)
                    },
                    Some(j) => {
                        proof {
                            lemma_alist_map_dom(self.task_list@, id);
                            lemma_alist_map_get(self.task_list@, j as int);
                        }
                        Ok(copy_bytes(&self.task_list[j].1))
                    },
                }
            },
        }
    }

    /// Replace the task document of an account wholesale, creating the entry
    /// on the first write. An identifier with no account is rejected as
    /// InvalidID and the store is left unchanged.
    pub fn put_tasks(&mut self, id: u64, doc: Vec<u8>) -> (r: Result<(), Error>)
        ensures
            !old(self).users().contains_key(id) ==> r == Err::<(), Error>(Error::InvalidID)
                && *final(self) == *old(self),
            old(self).users().contains_key(id) ==> {
                &&& r == Ok::<(), Error>(())
                &&& final(self).tasks() =~= old(self).tasks().insert(id, doc@)
                &&& final(self).emails() == old(self).emails()
                &&& final(self).users() == old(self).users()
            },
    {
        proof {
            use_type_invariant(&*self);
        }
        match find_id_key(&self.user_list, id) {
            None => {
                proof {
                    lemma_alist_map_dom(self.user_list@, id);
                }
                Err(Error::InvalidID)
            },
            Some(_) => {
                proof {
                    lemma_alist_map_dom(self.user_list@, id);
                }
                let mut email_list: Vec<(Vec<u8>, u64)> = Vec::new();
                let mut user_list: Vec<(u64, User)> = Vec::new();
                let mut task_list: Vec<(u64, Vec<u8>)> = Vec::new();
                proof {
                    // the fields are taken out one by one; with an empty
                    // email index every clause of wf holds of each
                    // intermediate store
                    assert(alist_map(email_list@) =~= Map::<Seq<u8>, u64>::empty());
                    assert(alist_map(user_list@) =~= Map::<u64, Seq<char>>::empty());
                    assert(alist_map(task_list@) =~= Map::<u64, Seq<u8>>::empty());
                    let ghost mid = TreeStore {
                        email_list: email_list,
                        user_list: self.user_list,
                        task_list: self.task_list,
                    };
                    assert(forall|e: Seq<u8>| !(#[trigger] mid.emails().contains_key(e)));
                    assert(mid.users() == self.users());
                    assert(mid.wf());
                }
                std::mem::swap(&mut email_list, &mut self.email_list);
                std::mem::swap(&mut user_list, &mut self.user_list);
                std::mem::swap(&mut task_list, &mut self.task_list);
                match find_id_key(&task_list, id) {
                    Some(j) => {
                        proof {
                            lemma_alist_map_update(task_list@, j as int, id, doc);
                        }
                        task_list.set(j, (id, doc));
                    },
                    None => {
                        proof {
                            lemma_alist_map_dom(task_list@, id);
                            lemma_alist_map_push(task_list@, id, doc);
                        }
                        task_list.push((id, doc));
                    },
                }
                proof {
                    let ghost next = TreeStore {
                        email_list: email_list,
                        user_list: user_list,
                        task_list: task_list,
                    };
                    assert(next.users() == old(self).users());
                    assert forall|e: Seq<u8>| #[trigger] next.emails().contains_key(e)
                        implies next.users().contains_key(next.emails()[e]) by {
                        assert(old(self).emails().contains_key(e));
                    }
                    assert(forall|id2: u64|
                        #[trigger] next.users().contains_key(id2) ==> in_hash_image(
                            next.users()[id2],
                        ));
                    assert(next.wf());
                }
                *self = TreeStore { email_list, user_list, task_list };
                Ok(())
            },
        }
    }
}


/// Law: an association list with unique keys denotes a finite map.
pub proof fn lemma_alist_map_finite<K: View, V: View>(s: Seq<(K, V)>)
    ensures
        alist_map(s).dom().finite(),
    decreases s.len(),
{
    if s.len() > 0 {
        lemma_alist_map_finite(s.drop_last());
    }
}

impl TreeStore {
    /// The store's three maps are finite.
    pub proof fn lemma_finite(self)
        ensures
            self.emails().dom().finite(),
            self.users().dom().finite(),
            self.tasks().dom().finite(),
    {
        lemma_alist_map_finite(self.email_list@);
        lemma_alist_map_finite(self.user_list@);
        lemma_alist_map_finite(self.task_list@);
    }
}

/// Law: signup followed immediately by login with the same email and
/// password authenticates as the identifier the signup assigned. The two
/// preconditions are what a successful signup promises of the store it
/// leaves behind; the conclusions are exactly what makes a following
/// authenticate call answer Ok with that same identifier.
pub proof fn lemma_signup_then_login(
    pre: TreeStore,
    post: TreeStore,
    email: Seq<u8>,
    password: Seq<u8>,
)
    requires
        post.emails() == pre.emails().insert(email, fnv1a(email)),
        post.users() == pre.users().insert(fnv1a(email), hash_of(password)),
    ensures
        post.emails().contains_key(email),
        post.emails()[email] == fnv1a(email),
        post.users()[post.emails()[email]] == hash_of(password),
{
}

/// Law: an account that was just created has no task document, so reading
/// its tasks before any write fails with NoTasks.
pub proof fn lemma_fresh_account_no_tasks(
    pre: TreeStore,
    post: TreeStore,
    email: Seq<u8>,
    password: Seq<u8>,
)
    requires
        !pre.tasks().contains_key(fnv1a(email)),
        post.emails() == pre.emails().insert(email, fnv1a(email)),
        post.users() == pre.users().insert(fnv1a(email), hash_of(password)),
        post.tasks() == pre.tasks(),
    ensures
        post.users().contains_key(fnv1a(email)),
        !post.tasks().contains_key(fnv1a(email)),
{
}

/// Law: after one write of a document the read yields exactly that
/// document, and a second write replaces it wholesale with the new one.
pub proof fn lemma_put_then_get(
    pre: TreeStore,
    mid: TreeStore,
    post: TreeStore,
    id: u64,
    d1: Seq<u8>,
    d2: Seq<u8>,
)
    requires
        pre.users().contains_key(id),
        mid.tasks() == pre.tasks().insert(id, d1),
        mid.users() == pre.users(),
        post.tasks() == mid.tasks().insert(id, d2),
        post.users() == mid.users(),
    ensures
        mid.users().contains_key(id),
        mid.tasks().contains_key(id),
        mid.tasks()[id] == d1,
        post.tasks()[id] == d2,
{
}

/// Law: signups for distinct fresh emails lose no account: after two of
/// them both emails are indexed and the index grows by exactly two, however
/// the identifiers collide. Under the store's one lock this is the heart of
/// why concurrent signups for distinct emails leave exactly one account
/// each.
pub proof fn lemma_distinct_signups(
    s0: TreeStore,
    s1: TreeStore,
    s2: TreeStore,
    e1: Seq<u8>,
    e2: Seq<u8>,
)
    requires
        e1 != e2,
        s0.emails().dom().finite(),
        !s0.emails().contains_key(e1),
        s1.emails() == s0.emails().insert(e1, fnv1a(e1)),
        !s1.emails().contains_key(e2),
        s2.emails() == s1.emails().insert(e2, fnv1a(e2)),
    ensures
        s2.emails().contains_key(e1),
        s2.emails().contains_key(e2),
        s2.emails().dom().len() == s0.emails().dom().len() + 2,
{
    vstd::set::axiom_set_insert_len(s0.emails().dom(), e1);
    vstd::set::axiom_set_insert_len(s1.emails().dom(), e2);
    assert(s1.emails().dom() =~= s0.emails().dom().insert(e1));
    assert(s2.emails().dom() =~= s1.emails().dom().insert(e2));
}

} // verus!
