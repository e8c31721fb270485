//! Chat rooms and the connections subscribed to them.

use vstd::prelude::*;
use crate::headers::{
    find_key, insert_entry, key_at, keys_distinct, lemma_find_key, lemma_insert_distinct, lookup,
};

verus! {

/// `m` with `id` added unless it is already there.
pub open spec fn add_member(m: Seq<u128>, id: u128) -> Seq<u128> {
    if m.contains(id) {
        m
    } else {
        m.push(id)
    }
}

/// Holds of every id but `id`.
pub open spec fn other_than(id: u128) -> spec_fn(u128) -> bool {
    |x: u128| x != id
}

/// `m` without `id`.
pub open spec fn remove_member(m: Seq<u128>, id: u128) -> Seq<u128> {
    m.filter(other_than(id))
}

/// The rooms `v` with room `name` created, empty, unless it exists.
pub open spec fn create_spec(v: Seq<(Seq<char>, Seq<u128>)>, name: Seq<char>) -> Seq<
    (Seq<char>, Seq<u128>),
> {
    if lookup(v, name) is Some {
        v
    } else {
        insert_entry(v, name, Seq::empty())
    }
}

/// The rooms `v` with `id` subscribed to room `name`, if that room exists.
pub open spec fn subscribe_spec(v: Seq<(Seq<char>, Seq<u128>)>, name: Seq<char>, id: u128) -> Seq<
    (Seq<char>, Seq<u128>),
> {
    match lookup(v, name) {
        Some(m) => insert_entry(v, name, add_member(m, id)),
        None => v,
    }
}

/// The rooms `v` with `id` no longer subscribed to room `name`.
pub open spec fn unsubscribe_spec(v: Seq<(Seq<char>, Seq<u128>)>, name: Seq<char>, id: u128) -> Seq<
    (Seq<char>, Seq<u128>),
> {
    match lookup(v, name) {
        Some(m) => insert_entry(v, name, remove_member(m, id)),
        None => v,
    }
}

/// The rooms `v` with `id` removed from every room.
pub open spec fn leave_all_spec(v: Seq<(Seq<char>, Seq<u128>)>, id: u128) -> Seq<
    (Seq<char>, Seq<u128>),
> {
    v.map_values(|e: (Seq<char>, Seq<u128>)| (e.0, remove_member(e.1, id)))
}

/// Who receives what `sender` sends to room `name`: every member but the sender.
pub open spec fn recipients_spec(v: Seq<(Seq<char>, Seq<u128>)>, name: Seq<char>, sender: u128) -> Seq<u128> {
    match lookup(v, name) {
        Some(m) => remove_member(m, sender),
        None => Seq::empty(),
    }
}

/// The rooms by name, in order of creation, each with its subscribers in
/// order of subscription. No name occurs twice.
pub struct Rooms {
    rooms: Vec<(String, Vec<u128>)>,
}

impl View for Rooms {
    type V = Seq<(Seq<char>, Seq<u128>)>;

    closed spec fn view(&self) -> Seq<(Seq<char>, Seq<u128>)> {
        self.rooms@.map_values(|e: (String, Vec<u128>)| (e.0@, e.1@))
    }
}

fn without(m: &Vec<u128>, id: u128) -> (r: Vec<u128>)
    ensures
        r@ == remove_member(m@, id),
{
    let n = m.len();
    let mut r: Vec<u128> = Vec::new();
    let mut k: usize = 0;
    reveal(Seq::filter);
    assert(m@.take(0) =~= Seq::<u128>::empty());
    while k < n
        invariant
            n == m@.len(),
            k <= n,
            r@ == m@.take(k as int).filter(other_than(id)),
        decreases n - k,
    {
        reveal(Seq::filter);
        assert(m@.take(k + 1).drop_last() =~= m@.take(k as int));
        assert(m@.take(k + 1).last() == m@[k as int]);
        if m[k] != id {
            r.push(m[k]);
        }
        k = k + 1;
    }
    assert(m@.take(n as int) =~= m@);
    r
}

fn contains_id(m: &Vec<u128>, id: u128) -> (r: bool)
    ensures
        r == m@.contains(id),
{
    let n = m.len();
    let mut k: usize = 0;
    while k < n
        invariant
            n == m@.len(),
            k <= n,
            forall|j: int| 0 <= j < k ==> m@[j] != id,
        decreases n - k,
    {
        if m[k] == id {
            return true;
        }
        k = k + 1;
    }
    false
}

impl Rooms {
    #[verifier::type_invariant]
    spec fn names_distinct(self) -> bool {
        keys_distinct(self@)
    }

    /// No rooms.
    pub fn new() -> (r: Rooms)
        ensures
            r@ == Seq::<(Seq<char>, Seq<u128>)>::empty(),
            keys_distinct(r@),
    {
        let r = Rooms { rooms: Vec::new() };
        assert(r@ =~= Seq::<(Seq<char>, Seq<u128>)>::empty());
        r
    }

    /// Number of rooms.
    pub fn len(&self) -> (r: usize)
        ensures
            r == self@.len(),
    {
        self.rooms.len()
    }

    /// Name of the room at position `i`.
    pub fn name_at(&self, i: usize) -> (r: &String)
        requires
            i < self@.len(),
        ensures
            r@ == self@[i as int].0,
    {
        &self.rooms[i].0
    }

    fn position(&self, name: &String) -> (r: Option<usize>)
        ensures
            match r {
                Some(i) => find_key(self@, name@) == Some(i as int) && i < self@.len(),
                None => find_key(self@, name@) is None,
            },
    {
        proof {
            use_type_invariant(self);
        }
        let n = self.rooms.len();
        let mut i: usize = 0;
        while i < n
            invariant
                n == self@.len(),
                i <= n,
                keys_distinct(self@),
                forall|j: int| 0 <= j < i ==> !#[trigger] key_at(self@, name@, j),
            decreases n - i,
        {
            if self.rooms[i].0 == *name {
                proof {
                    assert(key_at(self@, name@, i as int));
                    lemma_find_key(self@, name@, i as int);
                }
                return Some(i);
            }
            assert(!key_at(self@, name@, i as int));
            i = i + 1;
        }
        None
    }

    /// Whether room `name` exists.
    pub fn contains_room(&self, name: &String) -> (r: bool)
        ensures
            r == (lookup(self@, name@) is Some),
    {
        self.position(name).is_some()
    }

    /// The subscribers of room `name`, if it exists.
    pub fn members(&self, name: &String) -> (r: Option<Vec<u128>>)
        ensures
            match r {
                Some(m) => lookup(self@, name@) == Some(m@),
                None => lookup(self@, name@) is None,
            },
    {
        match self.position(name) {
            Some(i) => Some(copy_ids(&self.rooms[i].1)),
            None => None,
        }
    }

    /// Who receives what `sender` sends to room `name`.
    pub fn recipients(&self, name: &String, sender: u128) -> (r: Vec<u128>)
        ensures
            r@ == recipients_spec(self@, name@, sender),
            forall|x: u128|
                r@.contains(x) <==> (lookup(self@, name@) matches Some(m) && m.contains(x) && x
                    != sender),
    {
        proof {
            assert forall|x: u128|
                recipients_spec(self@, name@, sender).contains(x) <==> (lookup(self@, name@) matches Some(
                    m,
                ) && m.contains(x) && x != sender) by {
                lemma_recipients_are_members(self@, name@, sender, x);
            }
        }
        match self.position(name) {
            Some(i) => without(&self.rooms[i].1, sender),
            None => Vec::new(),
        }
    }

    /// Creates room `name`, empty, unless it exists.
    pub fn create_room(&mut self, name: String)
        ensures
            final(self)@ == create_spec(old(self)@, name@),
            keys_distinct(final(self)@),
            forall|k: Seq<char>| k != name@ ==> lookup(final(self)@, k) == lookup(old(self)@, k),
    {
        proof {
            use_type_invariant(&*self);
            lemma_create_only_that_room(self@, name@);
        }
        if self.position(&name).is_some() {
            return;
        }
        let ghost old_view = self@;
        proof {
            crate::headers::lemma_insert_distinct(old_view, name@, Seq::<u128>::empty());
        }
        let mut rooms: Vec<(String, Vec<u128>)> = Vec::new();
        std::mem::swap(&mut rooms, &mut self.rooms);
        rooms.push((name, Vec::new()));
        assert(rooms@.map_values(|e: (String, Vec<u128>)| (e.0@, e.1@)) =~= create_spec(
            old_view,
            name@,
        ));
        self.rooms = rooms;
    }

    fn replace_members(&mut self, i: usize, members: Vec<u128>)
        requires
            i < old(self)@.len(),
        ensures
            final(self)@ == old(self)@.update(i as int, (old(self)@[i as int].0, members@)),
    {
        proof {
            use_type_invariant(&*self);
        }
        let ghost old_view = self@;
        let ghost new_view = old_view.update(i as int, (old_view[i as int].0, members@));
        assert(keys_distinct(new_view)) by {
            assert forall|a: int, b: int|
                0 <= a < new_view.len() && 0 <= b < new_view.len() && a != b implies #[trigger] new_view[a].0
                != #[trigger] new_view[b].0 by {
                assert(old_view[a].0 != old_view[b].0);
            }
        }
        let mut rooms: Vec<(String, Vec<u128>)> = Vec::new();
        std::mem::swap(&mut rooms, &mut self.rooms);
        let (name, _old_members) = rooms.remove(i);
        rooms.insert(i, (name, members));
        assert(rooms@.map_values(|e: (String, Vec<u128>)| (e.0@, e.1@)) =~= new_view);
        self.rooms = rooms;
    }

    /// Subscribes `id` to room `name`; `false`, with nothing changed, when
    /// the room does not exist.
    pub fn subscribe(&mut self, name: &String, id: u128) -> (r: bool)
        ensures
            r == (lookup(old(self)@, name@) is Some),
            final(self)@ == subscribe_spec(old(self)@, name@, id),
            keys_distinct(final(self)@),
            forall|k: Seq<char>| k != name@ ==> lookup(final(self)@, k) == lookup(old(self)@, k),
    {
        proof {
            use_type_invariant(&*self);
            lemma_subscribe_only_that_room(self@, name@, id);
        }
        match self.position(name) {
            None => false,
            Some(i) => {
                proof {
                    use_type_invariant(&*self);
                    assert(key_at(self@, name@, i as int));
                }
                if contains_id(&self.rooms[i].1, id) {
                    assert(self@.update(i as int, (name@, self@[i as int].1)) =~= self@);
                    return true;
                }
                let mut m = copy_ids(&self.rooms[i].1);
                m.push(id);
                self.replace_members(i, m);
                true
            },
        }
    }

    /// Removes `id` from room `name`, if the room exists.
    pub fn unsubscribe(&mut self, name: &String, id: u128)
        ensures
            final(self)@ == unsubscribe_spec(old(self)@, name@, id),
            keys_distinct(final(self)@),
            forall|k: Seq<char>| k != name@ ==> lookup(final(self)@, k) == lookup(old(self)@, k),
    {
        proof {
            use_type_invariant(&*self);
            lemma_unsubscribe_only_that_room(self@, name@, id, id);
        }
        match self.position(name) {
            None => {},
            Some(i) => {
                proof {
                    assert(key_at(self@, name@, i as int));
                }
                let m = without(&self.rooms[i].1, id);
                self.replace_members(i, m);
            },
        }
    }

    /// Removes `id` from every room; gives the names of all rooms.
    pub fn leave_all(&mut self, id: u128) -> (names: Vec<String>)
        ensures
            final(self)@ == leave_all_spec(old(self)@, id),
            keys_distinct(final(self)@),
            names@.map_values(|n: String| n@) == old(self)@.map_values(
                |e: (Seq<char>, Seq<u128>)| e.0,
            ),
    {
        let n = self.rooms.len();
        let mut names: Vec<String> = Vec::new();
        let mut i: usize = 0;
        let ghost old_view = self@;
        while i < n
            invariant
                n == self@.len(),
                n == old_view.len(),
                i <= n,
                forall|j: int| 0 <= j < i ==> #[trigger] self@[j] == (old_view[j].0, remove_member(old_view[j].1, id)),
                forall|j: int| i <= j < n ==> #[trigger] self@[j] == old_view[j],
                names@.len() == i,
                forall|j: int| 0 <= j < i ==> #[trigger] names@[j]@ == old_view[j].0,
            decreases n - i,
        {
            let m = without(&self.rooms[i].1, id);
            names.push(self.rooms[i].0.clone());
            self.replace_members(i, m);
            i = i + 1;
        }
        assert(self@ =~= leave_all_spec(old_view, id));
        proof {
            use_type_invariant(&*self);
        }
        assert(names@.map_values(|n: String| n@) =~= old_view.map_values(
            |e: (Seq<char>, Seq<u128>)| e.0,
        ));
        names
    }
}

fn copy_ids(m: &Vec<u128>) -> (r: Vec<u128>)
    ensures
        r@ == m@,
{
    let n = m.len();
    let mut r: Vec<u128> = Vec::new();
    let mut k: usize = 0;
    while k < n
        invariant
            n == m@.len(),
            k <= n,
            r@ == m@.take(k as int),
        decreases n - k,
    {
        r.push(m[k]);
        assert(m@.take(k + 1) =~= m@.take(k as int).push(m@[k as int]));
        k = k + 1;
    }
    assert(m@.take(n as int) =~= m@);
    r
}


proof fn lemma_not_in_removed(m: Seq<u128>, id: u128)
    ensures
        !remove_member(m, id).contains(id),
{
    broadcast use vstd::seq_lib::group_filter_ensures;

    if remove_member(m, id).contains(id) {
        let i = choose|i: int| 0 <= i < remove_member(m, id).len() && remove_member(m, id)[i] == id;
        assert(other_than(id)(remove_member(m, id)[i]));
    }
}

proof fn lemma_kept_in_removed(m: Seq<u128>, id: u128, x: u128)
    requires
        m.contains(x),
        x != id,
    ensures
        remove_member(m, id).contains(x),
{
    broadcast use vstd::seq_lib::group_filter_ensures;

    let i = choose|i: int| 0 <= i < m.len() && m[i] == x;
    assert(other_than(id)(m[i]));
}

/// Subscribing to an existing room makes the subscriber a member of it,
/// and leaves the names of the rooms distinct.
pub proof fn lemma_subscribe_member(v: Seq<(Seq<char>, Seq<u128>)>, name: Seq<char>, id: u128)
    requires
        keys_distinct(v),
        lookup(v, name) is Some,
    ensures
        keys_distinct(subscribe_spec(v, name, id)),
        lookup(subscribe_spec(v, name, id), name) matches Some(m) && m.contains(id),
{
    let m = lookup(v, name)->0;
    lemma_insert_distinct(v, name, add_member(m, id));
    if !m.contains(id) {
        assert(m.push(id)[m.len() as int] == id);
    }
}

/// A subscriber of a room receives what any other member sends to it.
pub proof fn lemma_subscriber_receives(
    v: Seq<(Seq<char>, Seq<u128>)>,
    name: Seq<char>,
    id: u128,
    sender: u128,
)
    requires
        keys_distinct(v),
        lookup(v, name) is Some,
        sender != id,
    ensures
        recipients_spec(subscribe_spec(v, name, id), name, sender).contains(id),
{
    lemma_subscribe_member(v, name, id);
    let m = lookup(subscribe_spec(v, name, id), name)->0;
    lemma_kept_in_removed(m, sender, id);
}

/// No one receives what they send themselves.
pub proof fn lemma_sender_not_recipient(v: Seq<(Seq<char>, Seq<u128>)>, name: Seq<char>, sender: u128)
    ensures
        !recipients_spec(v, name, sender).contains(sender),
{
    if let Some(m) = lookup(v, name) {
        lemma_not_in_removed(m, sender);
    }
}

/// After unsubscribing from a room, a connection is no member of it.
pub proof fn lemma_unsubscribe_not_member(v: Seq<(Seq<char>, Seq<u128>)>, name: Seq<char>, id: u128)
    requires
        keys_distinct(v),
    ensures
        keys_distinct(unsubscribe_spec(v, name, id)),
        lookup(unsubscribe_spec(v, name, id), name) matches Some(m) ==> !m.contains(id),
{
    if let Some(m) = lookup(v, name) {
        lemma_insert_distinct(v, name, remove_member(m, id));
        lemma_not_in_removed(m, id);
    }
}

/// Creating a room makes it exist; creating one that exists changes nothing.
pub proof fn lemma_create(v: Seq<(Seq<char>, Seq<u128>)>, name: Seq<char>)
    requires
        keys_distinct(v),
    ensures
        keys_distinct(create_spec(v, name)),
        lookup(create_spec(v, name), name) is Some,
        lookup(v, name) is Some ==> create_spec(v, name) == v,
{
    if lookup(v, name) is None {
        lemma_insert_distinct(v, name, Seq::<u128>::empty());
    }
}

/// After leaving all rooms, a connection is a member of none.
pub proof fn lemma_leave_all(v: Seq<(Seq<char>, Seq<u128>)>, id: u128, name: Seq<char>)
    ensures
        lookup(leave_all_spec(v, id), name) matches Some(m) ==> !m.contains(id),
{
    let w = leave_all_spec(v, id);
    if exists|i: int| key_at(w, name, i) {
        let i = choose|i: int| #[trigger] key_at(w, name, i);
        assert(key_at(w, name, i));
        lemma_not_in_removed(v[i].1, id);
    }
}


/// Removing an id from distinct members leaves distinct members.
proof fn lemma_removed_distinct(m: Seq<u128>, id: u128)
    requires
        m.no_duplicates(),
    ensures
        remove_member(m, id).no_duplicates(),
    decreases m.len(),
{
    reveal(Seq::filter);
    if m.len() > 0 {
        let rest = m.drop_last();
        assert(rest.no_duplicates()) by {
            assert forall|i: int, j: int|
                0 <= i < rest.len() && 0 <= j < rest.len() && i != j implies rest[i] != rest[j] by {
                assert(m[i] == rest[i] && m[j] == rest[j]);
            }
        }
        lemma_removed_distinct(rest, id);
        let f = rest.filter(other_than(id));
        if other_than(id)(m.last()) {
            if f.contains(m.last()) {
                rest.lemma_filter_contains_rev(other_than(id), m.last());
                let k = choose|k: int| 0 <= k < rest.len() && rest[k] == m.last();
                assert(m[k] == m[m.len() - 1]);
            }
            let g = f.push(m.last());
            assert forall|i: int, j: int| 0 <= i < g.len() && 0 <= j < g.len() && i != j implies g[i]
                != g[j] by {
                if i < f.len() && j < f.len() {
                } else if i < f.len() {
                    assert(f.contains(f[i]));
                } else {
                    assert(f.contains(f[j]));
                }
            }
        }
    }
}

/// What a member sends to a room reaches exactly the other members of that
/// room, each once when the members are distinct.
pub proof fn lemma_recipients_are_members(
    v: Seq<(Seq<char>, Seq<u128>)>,
    name: Seq<char>,
    sender: u128,
    x: u128,
)
    ensures
        recipients_spec(v, name, sender).contains(x) <==> (lookup(v, name) matches Some(m)
            && m.contains(x) && x != sender),
        lookup(v, name) matches Some(m) && m.no_duplicates() ==> recipients_spec(
            v,
            name,
            sender,
        ).no_duplicates(),
{
    broadcast use vstd::seq_lib::group_filter_ensures;

    if let Some(m) = lookup(v, name) {
        if recipients_spec(v, name, sender).contains(x) {
            m.lemma_filter_contains_rev(other_than(sender), x);
            let k = choose|k: int|
                0 <= k < remove_member(m, sender).len() && remove_member(m, sender)[k] == x;
            assert(other_than(sender)(remove_member(m, sender)[k]));
        }
        if m.contains(x) && x != sender {
            lemma_kept_in_removed(m, sender, x);
        }
        if m.no_duplicates() {
            lemma_removed_distinct(m, sender);
        }
    }
}

/// Unsubscribing from room `name` removes exactly that connection from
/// exactly that room; every other room is unchanged.
pub proof fn lemma_unsubscribe_only_that_room(
    v: Seq<(Seq<char>, Seq<u128>)>,
    name: Seq<char>,
    id: u128,
    x: u128,
)
    requires
        keys_distinct(v),
    ensures
        forall|k: Seq<char>| k != name ==> lookup(unsubscribe_spec(v, name, id), k) == lookup(v, k),
        (lookup(unsubscribe_spec(v, name, id), name) is Some) == (lookup(v, name) is Some),
        lookup(v, name) matches Some(m) ==> (lookup(unsubscribe_spec(v, name, id), name)->0.contains(
            x,
        ) <==> m.contains(x) && x != id),
{
    if let Some(m) = lookup(v, name) {
        lemma_insert_distinct(v, name, remove_member(m, id));
        lemma_recipients_are_members(v, name, id, x);
    }
}

/// Creating a room adds it, empty, when it is missing, and leaves every other
/// room (and an existing room of that name) unchanged.
pub proof fn lemma_create_only_that_room(v: Seq<(Seq<char>, Seq<u128>)>, name: Seq<char>)
    requires
        keys_distinct(v),
    ensures
        forall|k: Seq<char>| k != name ==> lookup(create_spec(v, name), k) == lookup(v, k),
        lookup(create_spec(v, name), name) == (match lookup(v, name) {
            Some(m) => Some(m),
            None => Some(Seq::<u128>::empty()),
        }),
{
    if lookup(v, name) is None {
        lemma_insert_distinct(v, name, Seq::<u128>::empty());
    }
}

/// Subscribing to room `name` adds the connection to that room only; every
/// other room is unchanged, and distinct members stay distinct.
pub proof fn lemma_subscribe_only_that_room(v: Seq<(Seq<char>, Seq<u128>)>, name: Seq<char>, id: u128)
    requires
        keys_distinct(v),
    ensures
        forall|k: Seq<char>| k != name ==> lookup(subscribe_spec(v, name, id), k) == lookup(v, k),
        lookup(v, name) matches Some(m) && m.no_duplicates() ==> lookup(
            subscribe_spec(v, name, id),
            name,
        )->0.no_duplicates(),
{
    if let Some(m) = lookup(v, name) {
        lemma_insert_distinct(v, name, add_member(m, id));
    }
}

} // verus!
