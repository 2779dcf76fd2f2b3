use vstd::prelude::*;
use crate::keyed::{keys_distinct, has_key, index_of, lemma_index_of, lemma_distinct_remove, lemma_distinct_update, lemma_distinct_push};
use crate::room::{MemberView, RoomState, JoinError, deliver, without_member, after_take, next_for, text_of};

verus! {

/// A room as the contracts see it: its name and its members.
pub type RoomView = (Seq<char>, Seq<MemberView>);

/// The members of the room called `room`; none where there is no such room.
pub open spec fn members_of(v: Seq<RoomView>, room: Seq<char>) -> Seq<MemberView> {
    if has_key(v, room) {
        v[index_of(v, room)].1
    } else {
        Seq::empty()
    }
}

/// The rooms with the members of `room` replaced by `ms`; unchanged where there is
/// no such room.
pub open spec fn set_members(v: Seq<RoomView>, room: Seq<char>, ms: Seq<MemberView>) -> Seq<RoomView> {
    if has_key(v, room) {
        v.update(index_of(v, room), (room, ms))
    } else {
        v
    }
}

/// The rooms once `room` is sure to exist: a new room starts with no members.
pub open spec fn with_room(v: Seq<RoomView>, room: Seq<char>) -> Seq<RoomView> {
    if has_key(v, room) {
        v
    } else {
        v.push((room, Seq::empty()))
    }
}

/// The rooms with `room` dropped where it has no members.
pub open spec fn without_if_empty(v: Seq<RoomView>, room: Seq<char>) -> Seq<RoomView> {
    if has_key(v, room) && v[index_of(v, room)].1.len() == 0 {
        v.remove(index_of(v, room))
    } else {
        v
    }
}

/// Whether `user` is a member of `room`.
pub open spec fn is_member(v: Seq<RoomView>, room: Seq<char>, user: Seq<char>) -> bool {
    has_key(members_of(v, room), user)
}

/// The rooms once `user` has joined `room`, which is created if needed.
pub open spec fn after_join(v: Seq<RoomView>, room: Seq<char>, user: Seq<char>) -> Seq<RoomView> {
    let w = with_room(v, room);
    set_members(w, room, members_of(w, room).push((user, Seq::empty())))
}

/// The rooms once `user` has left `room`, with `room` dropped if that emptied it.
pub open spec fn after_leave(v: Seq<RoomView>, room: Seq<char>, user: Seq<char>) -> Seq<RoomView> {
    without_if_empty(set_members(v, room, without_member(members_of(v, room), user)), room)
}

/// The rooms once `text` has been broadcast in `room`.
pub open spec fn after_broadcast(v: Seq<RoomView>, room: Seq<char>, text: Seq<char>, cap: nat) -> Seq<RoomView> {
    set_members(v, room, deliver(members_of(v, room), text, cap))
}

/// Every listed room has at least one member.
pub open spec fn all_occupied(v: Seq<RoomView>) -> bool {
    forall|i: int| 0 <= i < v.len() ==> #[trigger] v[i].1.len() > 0
}

proof fn lemma_room_replaced(before: Seq<RoomEntry>, after: Seq<RoomEntry>, i: int, cap: usize)
    requires
        before.len() == after.len(),
        0 <= i < before.len(),
        forall|k: int| 0 <= k < before.len() && k != i ==> after[k] == before[k],
        after[i].name@ == before[i].name@,
        forall|k: int| 0 <= k < before.len() ==> (#[trigger] before[k]).room.wf()
            && before[k].room.capacity == cap,
        after[i].room.wf(),
        after[i].room.capacity == cap,
    ensures
        after.map_values(|e: RoomEntry| e@) == before.map_values(|e: RoomEntry| e@).update(i, after[i]@),
        forall|k: int| 0 <= k < after.len() ==> (#[trigger] after[k]).room.wf()
            && after[k].room.capacity == cap,
{
    assert(after.map_values(|e: RoomEntry| e@) =~= before.map_values(|e: RoomEntry| e@).update(i, after[i]@));
    assert forall|k: int| 0 <= k < after.len() implies (#[trigger] after[k]).room.wf()
        && after[k].room.capacity == cap by {
        if k != i {
            assert(after[k] == before[k]);
        }
    }
}

/// A member's handle on the messages of the room it joined.
pub struct Subscription {
    pub room: String,
    pub username: String,
}

/// A named room.
pub struct RoomEntry {
    pub name: String,
    pub room: RoomState,
}

impl View for RoomEntry {
    type V = RoomView;

    open spec fn view(&self) -> RoomView {
        (self.name@, self.room@)
    }
}

/// The directory of rooms by name, each created when first joined.
pub struct Registry {
    pub rooms: Vec<RoomEntry>,
    pub capacity: usize,
}

impl View for Registry {
    type V = Seq<RoomView>;

    open spec fn view(&self) -> Seq<RoomView> {
        self.rooms@.map_values(|e: RoomEntry| e@)
    }
}

impl Registry {
    pub open spec fn wf(&self) -> bool {
        &&& self.capacity > 0
        &&& keys_distinct(self@)
        &&& forall|i: int| 0 <= i < self.rooms@.len() ==> (#[trigger] self.rooms@[i]).room.wf()
            && self.rooms@[i].room.capacity == self.capacity
    }

    /// An empty registry whose rooms keep at most `capacity` messages per member.
    pub fn new(capacity: usize) -> (r: Registry)
        requires
            capacity > 0,
        ensures
            r.wf(),
            r@ == Seq::<RoomView>::empty(),
            r.capacity == capacity,
    {
        let r = Registry { rooms: Vec::new(), capacity };
        assert(r@ =~= Seq::<RoomView>::empty());
        r
    }

    /// Position of the room called `name`, if there is one.
    pub fn find_room(&self, name: &String) -> (r: Option<usize>)
        requires
            self.wf(),
        ensures
            r is None <==> !has_key(self@, name@),
            r matches Some(i) ==> i == index_of(self@, name@),
    {
        proof { lemma_index_of(self@, name@); }
        let mut j: usize = 0;
        while j < self.rooms.len()
            invariant
                self.wf(),
                j <= self.rooms@.len(),
                forall|k: int| 0 <= k < j ==> self@[k].0 != name@,
            decreases self.rooms@.len() - j,
        {
            if self.rooms[j].name == *name {
                assert(self@[j as int].0 == name@);
                return Some(j);
            }
            j += 1;
        }
        None
    }

    /// The number of members of `room`; zero where there is no such room.
    pub fn member_count(&self, room: &String) -> (r: usize)
        requires
            self.wf(),
        ensures
            r == members_of(self@, room@).len(),
    {
        match self.find_room(room) {
            None => 0,
            Some(i) => self.rooms[i].room.member_count(),
        }
    }

    /// The names of all rooms, in the registry's order.
    pub fn list_room_names(&self) -> (r: Vec<String>)
        ensures
            r@.map_values(|s: String| s@) == self@.map_values(|e: RoomView| e.0),
    {
        let mut names: Vec<String> = Vec::new();
        let mut j: usize = 0;
        while j < self.rooms.len()
            invariant
                j <= self.rooms@.len(),
                names@.map_values(|s: String| s@) == self@.take(j as int).map_values(|e: RoomView| e.0),
            decreases self.rooms@.len() - j,
        {
            let ghost prev = names@;
            let name = self.rooms[j].name.clone();
            assert(name@ == self@[j as int].0);
            names.push(name);
            assert(names@ == prev.push(name));
            assert(self@.take(j + 1) =~= self@.take(j as int).push(self@[j as int]));
            assert(names@.map_values(|s: String| s@)
                =~= prev.map_values(|s: String| s@).push(name@));
            assert(self@.take(j + 1).map_values(|e: RoomView| e.0)
                =~= self@.take(j as int).map_values(|e: RoomView| e.0).push(self@[j as int].0));
            j += 1;
        }
        assert(self@.take(j as int) =~= self@);
        names
    }

    /// The room called `name`, created empty if it does not exist yet, and its position.
    pub fn get_or_create(&mut self, name: String) -> (i: usize)
        requires
            old(self).wf(),
        ensures
            final(self).wf(),
            final(self).capacity == old(self).capacity,
            final(self)@ == with_room(old(self)@, name@),
            i == index_of(final(self)@, name@),
            i < final(self)@.len(),
    {
        match self.find_room(&name) {
            Some(i) => {
                proof { lemma_index_of(self@, name@); }
                i
            },
            None => {
                let ghost key = name@;
                let cap = self.capacity;
                self.rooms.push(RoomEntry { name, room: RoomState::new(cap) });
                assert(self@ =~= old(self)@.push((key, Seq::<MemberView>::empty())));
                proof {
                    lemma_distinct_push(old(self)@, (key, Seq::<MemberView>::empty()));
                    lemma_index_of(self@, key);
                    assert(self@[self@.len() - 1].0 == key);
                }
                assert forall|k: int| 0 <= k < self.rooms@.len() implies (#[trigger] self.rooms@[k]).room.wf()
                    && self.rooms@[k].room.capacity == self.capacity by {
                    if k < old(self).rooms@.len() {
                        assert(self.rooms@[k] == old(self).rooms@[k]);
                    }
                }
                self.rooms.len() - 1
            },
        }
    }

    /// Drops the room called `name` if it has no members; otherwise changes nothing.
    pub fn remove_if_empty(&mut self, name: &String)
        requires
            old(self).wf(),
        ensures
            final(self).wf(),
            final(self).capacity == old(self).capacity,
            final(self)@ == without_if_empty(old(self)@, name@),
    {
        proof { lemma_index_of(self@, name@); }
        match self.find_room(name) {
            None => {},
            Some(i) => {
                if self.rooms[i].room.member_count() == 0 {
                    self.rooms.remove(i);
                    assert(self@ =~= old(self)@.remove(i as int));
                    proof { lemma_distinct_remove(old(self)@, i as int); }
                    assert forall|k: int| 0 <= k < self.rooms@.len() implies (#[trigger] self.rooms@[k]).room.wf()
                        && self.rooms@[k].room.capacity == self.capacity by {
                        if k >= i {
                            assert(self.rooms@[k] == old(self).rooms@[k + 1]);
                        }
                    }
                }
            },
        }
    }

    /// Enters `username` into `room`, creating the room if needed, unless the room
    /// already has a member of that name.
    pub fn join(&mut self, room: String, username: String) -> (r: Result<Subscription, JoinError>)
        requires
            old(self).wf(),
        ensures
            final(self).wf(),
            final(self).capacity == old(self).capacity,
            is_member(old(self)@, room@, username@) ==> r == Err::<Subscription, JoinError>(
                JoinError::UsernameTaken,
            ) && final(self)@ == old(self)@,
            !is_member(old(self)@, room@, username@) ==> (r matches Ok(s) && s.room@ == room@
                && s.username@ == username@ && final(self)@ == after_join(old(self)@, room@, username@)),
    {
        let ghost rk = room@;
        let ghost uk = username@;
        proof { lemma_index_of(old(self)@, rk); }
        let sub = Subscription { room: room.clone(), username: username.clone() };
        let i = self.get_or_create(room);
        let ghost mid = self@;
        let ghost mid_rooms = self.rooms@;
        proof { lemma_index_of(mid, rk); }
        assert(members_of(mid, rk) == mid[i as int].1);
        match self.rooms[i].room.join(username) {
            Err(e) => {
                assert(has_key(mid, rk));
                assert(mid == old(self)@);
                proof { lemma_room_replaced(mid_rooms, self.rooms@, i as int, self.capacity); }
                assert(self@ =~= mid);
                Err(e)
            },
            Ok(()) => {
                proof {
                    lemma_room_replaced(mid_rooms, self.rooms@, i as int, self.capacity);
                    lemma_distinct_update(mid, i as int, self@[i as int]);
                    if has_key(old(self)@, rk) {
                        assert(mid == old(self)@);
                    } else {
                        assert(mid[i as int].1.len() == 0);
                    }
                }
                Ok(sub)
            },
        }
    }

    /// Takes `username` out of `room`, then drops the room if that left it empty.
    pub fn leave(&mut self, room: &String, username: &String)
        requires
            old(self).wf(),
        ensures
            final(self).wf(),
            final(self).capacity == old(self).capacity,
            final(self)@ == after_leave(old(self)@, room@, username@),
    {
        proof { lemma_index_of(old(self)@, room@); }
        match self.find_room(room) {
            None => {},
            Some(i) => {
                let ghost before = self.rooms@;
                self.rooms[i].room.leave(username);
                proof {
                    lemma_room_replaced(before, self.rooms@, i as int, self.capacity);
                    lemma_distinct_update(old(self)@, i as int, self@[i as int]);
                }
                assert(self@ == set_members(old(self)@, room@, without_member(members_of(old(self)@, room@), username@)));
                proof { lemma_index_of(self@, room@); }
                self.remove_if_empty(room);
            },
        }
    }

    /// Appends `text` to the backlog of every member of `room`; other rooms are untouched.
    pub fn broadcast(&mut self, room: &String, text: &String)
        requires
            old(self).wf(),
        ensures
            final(self).wf(),
            final(self).capacity == old(self).capacity,
            final(self)@ == after_broadcast(old(self)@, room@, text@, old(self).capacity as nat),
    {
        proof { lemma_index_of(old(self)@, room@); }
        match self.find_room(room) {
            None => {},
            Some(i) => {
                let ghost before = self.rooms@;
                self.rooms[i].room.broadcast(text);
                proof {
                    lemma_room_replaced(before, self.rooms@, i as int, self.capacity);
                    lemma_distinct_update(old(self)@, i as int, self@[i as int]);
                }
            },
        }
    }

    /// Takes the oldest message waiting for `username` in `room`, if there is one.
    pub fn take_next(&mut self, room: &String, username: &String) -> (r: Option<String>)
        requires
            old(self).wf(),
        ensures
            final(self).wf(),
            final(self).capacity == old(self).capacity,
            final(self)@ == set_members(old(self)@, room@, after_take(members_of(old(self)@, room@), username@)),
            text_of(r) == next_for(members_of(old(self)@, room@), username@),
    {
        proof { lemma_index_of(old(self)@, room@); }
        match self.find_room(room) {
            None => None,
            Some(i) => {
                let ghost before = self.rooms@;
                let r = self.rooms[i].room.take_next(username);
                proof {
                    lemma_room_replaced(before, self.rooms@, i as int, self.capacity);
                    lemma_distinct_update(old(self)@, i as int, self@[i as int]);
                }
                r
            },
        }
    }
}

/// Within every room of a well-formed registry, member names are pairwise distinct.
pub proof fn lemma_member_names_distinct(reg: &Registry)
    requires
        reg.wf(),
    ensures
        forall|i: int| 0 <= i < reg@.len() ==> keys_distinct(#[trigger] reg@[i].1),
        forall|room: Seq<char>| keys_distinct(#[trigger] members_of(reg@, room)),
{
    assert forall|i: int| 0 <= i < reg@.len() implies keys_distinct(#[trigger] reg@[i].1) by {
        assert(reg.rooms@[i].room.wf());
    }
    assert forall|room: Seq<char>| keys_distinct(#[trigger] members_of(reg@, room)) by {
        lemma_index_of(reg@, room);
    }
}

/// A broadcast in one room reaches no other: every other room keeps exactly the members
/// and pending messages it had, and the set of rooms is the same.
pub proof fn lemma_broadcast_stays_in_room(
    v: Seq<RoomView>,
    room: Seq<char>,
    text: Seq<char>,
    cap: nat,
    other: Seq<char>,
)
    requires
        keys_distinct(v),
        other != room,
    ensures
        members_of(after_broadcast(v, room, text, cap), other) == members_of(v, other),
        has_key(after_broadcast(v, room, text, cap), other) == has_key(v, other),
{
    let w = after_broadcast(v, room, text, cap);
    lemma_index_of(v, room);
    lemma_index_of(v, other);
    if has_key(v, room) {
        let i = index_of(v, room);
        lemma_distinct_update(v, i, (room, deliver(members_of(v, room), text, cap)));
        lemma_index_of(w, other);
        if has_key(v, other) {
            let j = index_of(v, other);
            assert(w[j].0 == other);
        }
        if has_key(w, other) {
            let j = index_of(w, other);
            assert(v[j].0 == other);
        }
    }
}

/// A room is listed exactly while it has members. Starting from a registry in which
/// every room is occupied, joining and leaving keep every room occupied, so a room
/// is absent precisely when it has no members; in particular it disappears when its
/// last member leaves.
pub proof fn lemma_absent_iff_empty(v: Seq<RoomView>, room: Seq<char>, user: Seq<char>)
    requires
        keys_distinct(v),
        all_occupied(v),
    ensures
        !has_key(v, room) <==> members_of(v, room).len() == 0,
        all_occupied(after_join(v, room, user)),
        all_occupied(after_leave(v, room, user)),
        !has_key(after_leave(v, room, user), room) <==> members_of(after_leave(v, room, user), room).len() == 0,
{
    lemma_index_of(v, room);
    // joining
    let w = with_room(v, room);
    if !has_key(v, room) {
        lemma_distinct_push(v, (room, Seq::<MemberView>::empty()));
        assert(w[w.len() - 1].0 == room);
    }
    lemma_index_of(w, room);
    let j = after_join(v, room, user);
    assert forall|i: int| 0 <= i < j.len() implies #[trigger] j[i].1.len() > 0 by {
        if i != index_of(w, room) {
            if i < v.len() {
                assert(j[i] == v[i]);
            }
        }
    }
    // leaving
    if has_key(v, room) {
        let i = index_of(v, room);
        let ms = without_member(members_of(v, room), user);
        let s = set_members(v, room, ms);
        lemma_distinct_update(v, i, (room, ms));
        lemma_index_of(s, room);
        assert(s[i].0 == room);
        let l = after_leave(v, room, user);
        if ms.len() == 0 {
            assert(l == s.remove(i));
            lemma_distinct_remove(s, i);
            assert forall|k: int| 0 <= k < l.len() implies #[trigger] l[k].1.len() > 0 by {
                if k < i {
                    assert(l[k] == v[k]);
                } else {
                    assert(l[k] == v[k + 1]);
                }
            }
            assert(!has_key(l, room)) by {
                if has_key(l, room) {
                    let k = choose|k: int| 0 <= k < l.len() && l[k].0 == room;
                    if k < i {
                        assert(s[k].0 == room);
                    } else {
                        assert(s[k + 1].0 == room);
                    }
                }
            }
        } else {
            assert(l == s);
            assert forall|k: int| 0 <= k < l.len() implies #[trigger] l[k].1.len() > 0 by {
                if k != i {
                    assert(l[k] == v[k]);
                }
            }
        }
        lemma_index_of(l, room);
    }
}

/// Broadcasting and taking messages change no room's membership, so they too keep
/// every listed room occupied.
pub proof fn lemma_messages_keep_rooms_occupied(
    v: Seq<RoomView>,
    room: Seq<char>,
    user: Seq<char>,
    text: Seq<char>,
    cap: nat,
)
    requires
        keys_distinct(v),
        all_occupied(v),
    ensures
        all_occupied(after_broadcast(v, room, text, cap)),
        all_occupied(set_members(v, room, after_take(members_of(v, room), user))),
{
    lemma_index_of(v, room);
    let b = after_broadcast(v, room, text, cap);
    assert forall|i: int| 0 <= i < b.len() implies #[trigger] b[i].1.len() > 0 by {
        assert(v[i].1.len() > 0);
    }
    let t = set_members(v, room, after_take(members_of(v, room), user));
    assert forall|i: int| 0 <= i < t.len() implies #[trigger] t[i].1.len() > 0 by {
        assert(v[i].1.len() > 0);
    }
}

} // verus!
