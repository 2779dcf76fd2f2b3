use vstd::prelude::*;
use crate::keyed::{keys_distinct, has_key, index_of, lemma_index_of};

verus! {

/// A member as the contracts see it: its username and the messages waiting for it,
/// oldest first.
pub type MemberView = (Seq<char>, Seq<Seq<char>>);

/// The reason a join is refused.
#[derive(Debug, Clone, Copy, PartialEq, Eq, Structural)]
pub enum JoinError {
    UsernameTaken,
}

/// One occupant of a room and its private backlog of undelivered messages.
pub struct Member {
    pub username: String,
    pub backlog: Vec<String>,
}

impl View for Member {
    type V = MemberView;

    open spec fn view(&self) -> MemberView {
        (self.username@, self.backlog@.map_values(|m: String| m@))
    }
}

/// Appends a message to a backlog that holds at most `cap` messages, dropping the
/// oldest one when it would overflow.
pub open spec fn push_bounded(q: Seq<Seq<char>>, m: Seq<char>, cap: nat) -> Seq<Seq<char>> {
    if q.len() + 1 > cap {
        q.push(m).drop_first()
    } else {
        q.push(m)
    }
}

/// A backlog after `msgs` have been appended in order, each by `push_bounded`.
pub open spec fn push_all(q: Seq<Seq<char>>, msgs: Seq<Seq<char>>, cap: nat) -> Seq<Seq<char>>
    decreases msgs.len(),
{
    if msgs.len() == 0 {
        q
    } else {
        push_bounded(push_all(q, msgs.drop_last(), cap), msgs.last(), cap)
    }
}

/// Messages reach a member in the order they were broadcast: however many were sent,
/// the backlog is a contiguous tail of what it held followed by what was sent, so a
/// message may be dropped from the front but never reordered, and a backlog that
/// fits its capacity keeps fitting it.
pub proof fn lemma_backlog_keeps_order(q: Seq<Seq<char>>, msgs: Seq<Seq<char>>, cap: nat)
    requires
        cap > 0,
        q.len() <= cap,
    ensures
        push_all(q, msgs, cap).len() <= q.len() + msgs.len(),
        push_all(q, msgs, cap).len() <= cap,
        push_all(q, msgs, cap) == (q + msgs).skip(q.len() + msgs.len() - push_all(q, msgs, cap).len()),
    decreases msgs.len(),
{
    if msgs.len() > 0 {
        let init = msgs.drop_last();
        lemma_backlog_keeps_order(q, init, cap);
        let r0 = push_all(q, init, cap);
        let a = q.len() + init.len() - r0.len();
        let all = q + msgs;
        assert(all =~= (q + init).push(msgs.last()));
        assert(r0.push(msgs.last()) =~= all.skip(a));
        if r0.len() + 1 > cap {
            assert(r0.push(msgs.last()).drop_first() =~= all.skip(a + 1));
        }
    }
}

/// Every member of `ms` receives `text` into its backlog.
pub open spec fn deliver(ms: Seq<MemberView>, text: Seq<char>, cap: nat) -> Seq<MemberView> {
    Seq::new(ms.len(), |i: int| (ms[i].0, push_bounded(ms[i].1, text, cap)))
}

/// The members once `name` has left; unchanged when `name` is not among them.
pub open spec fn without_member(ms: Seq<MemberView>, name: Seq<char>) -> Seq<MemberView> {
    if has_key(ms, name) {
        ms.remove(index_of(ms, name))
    } else {
        ms
    }
}

/// The members once `name` has taken its oldest pending message.
pub open spec fn after_take(ms: Seq<MemberView>, name: Seq<char>) -> Seq<MemberView> {
    let i = index_of(ms, name);
    if i >= 0 && ms[i].1.len() > 0 {
        ms.update(i, (name, ms[i].1.drop_first()))
    } else {
        ms
    }
}

/// What `name` takes next: its oldest pending message, if any.
pub open spec fn next_for(ms: Seq<MemberView>, name: Seq<char>) -> Option<Seq<char>> {
    let i = index_of(ms, name);
    if i >= 0 && ms[i].1.len() > 0 {
        Some(ms[i].1[0])
    } else {
        None
    }
}

/// The text a possible message holds.
pub open spec fn text_of(r: Option<String>) -> Option<Seq<char>> {
    match r {
        Some(m) => Some(m@),
        None => None,
    }
}

/// One room: its members, whose usernames are distinct, each with a backlog bounded by
/// the room's capacity.
pub struct RoomState {
    pub members: Vec<Member>,
    pub capacity: usize,
}

impl View for RoomState {
    type V = Seq<MemberView>;

    open spec fn view(&self) -> Seq<MemberView> {
        self.members@.map_values(|m: Member| m@)
    }
}

impl RoomState {
    pub open spec fn wf(&self) -> bool {
        &&& self.capacity > 0
        &&& keys_distinct(self@)
        &&& forall|i: int| 0 <= i < self@.len() ==> #[trigger] self@[i].1.len() <= self.capacity
    }

    /// A room with no members whose backlogs keep at most `capacity` messages.
    pub fn new(capacity: usize) -> (r: RoomState)
        requires
            capacity > 0,
        ensures
            r.wf(),
            r@ == Seq::<MemberView>::empty(),
            r.capacity == capacity,
    {
        let r = RoomState { members: Vec::new(), capacity };
        assert(r@ =~= Seq::<MemberView>::empty());
        r
    }

    /// Position of the member called `name`, if there is one.
    pub fn find(&self, name: &String) -> (r: Option<usize>)
        requires
            self.wf(),
        ensures
            r is None <==> !has_key(self@, name@),
            r matches Some(i) ==> i == index_of(self@, name@),
    {
        proof { lemma_index_of(self@, name@); }
        let mut j: usize = 0;
        while j < self.members.len()
            invariant
                self.wf(),
                j <= self.members@.len(),
                forall|k: int| 0 <= k < j ==> self@[k].0 != name@,
            decreases self.members@.len() - j,
        {
            if self.members[j].username == *name {
                assert(self@[j as int].0 == name@);
                return Some(j);
            }
            j += 1;
        }
        None
    }

    /// Whether `name` is a member.
    pub fn contains(&self, name: &String) -> (r: bool)
        requires
            self.wf(),
        ensures
            r == has_key(self@, name@),
    {
        self.find(name).is_some()
    }

    /// The number of members.
    pub fn member_count(&self) -> (r: usize)
        ensures
            r == self@.len(),
    {
        self.members.len()
    }

    /// Adds `username` with an empty backlog, unless a member already has that name.
    pub fn join(&mut self, username: String) -> (r: Result<(), JoinError>)
        requires
            old(self).wf(),
        ensures
            final(self).wf(),
            final(self).capacity == old(self).capacity,
            has_key(old(self)@, username@) ==> r == Err::<(), JoinError>(JoinError::UsernameTaken)
                && final(self)@ == old(self)@,
            !has_key(old(self)@, username@) ==> r is Ok
                && final(self)@ == old(self)@.push((username@, Seq::<Seq<char>>::empty())),
    {
        if self.contains(&username) {
            return Err(JoinError::UsernameTaken);
        }
        let ghost name = username@;
        self.members.push(Member { username, backlog: Vec::new() });
        assert(self.members@.last().backlog@.map_values(|m: String| m@) =~= Seq::<Seq<char>>::empty());
        assert(self@ =~= old(self)@.push((name, Seq::<Seq<char>>::empty())));
        assert forall|i: int, j: int| 0 <= i < j < self@.len() implies self@[i].0 != self@[j].0 by {
            if j == self@.len() - 1 {
                assert(old(self)@[i].0 == self@[i].0);
            }
        }
        Ok(())
    }

    /// Removes `username`; removing a name that is not a member changes nothing.
    pub fn leave(&mut self, username: &String)
        requires
            old(self).wf(),
        ensures
            final(self).wf(),
            final(self).capacity == old(self).capacity,
            final(self)@ == without_member(old(self)@, username@),
    {
        match self.find(username) {
            None => {},
            Some(i) => {
                self.members.remove(i);
                assert(self@ =~= old(self)@.remove(i as int));
                assert forall|a: int, b: int| 0 <= a < b < self@.len() implies self@[a].0 != self@[b].0 by {
                    if a < i {
                        if b < i {
                        } else {
                            assert(self@[b] == old(self)@[b + 1]);
                        }
                    } else {
                        assert(self@[a] == old(self)@[a + 1]);
                        assert(self@[b] == old(self)@[b + 1]);
                    }
                }
                assert forall|k: int| 0 <= k < self@.len() implies #[trigger] self@[k].1.len() <= self.capacity by {
                    if k >= i {
                        assert(self@[k] == old(self)@[k + 1]);
                    }
                }
            },
        }
    }

    /// Appends `text` to the backlog of every member, dropping a member's oldest
    /// message where its backlog is full.
    pub fn broadcast(&mut self, text: &String)
        requires
            old(self).wf(),
        ensures
            final(self).wf(),
            final(self).capacity == old(self).capacity,
            final(self)@ == deliver(old(self)@, text@, old(self).capacity as nat),
    {
        let ghost goal = deliver(old(self)@, text@, old(self).capacity as nat);
        let mut i: usize = 0;
        while i < self.members.len()
            invariant
                old(self).wf(),
                self.capacity == old(self).capacity,
                self.members@.len() == old(self).members@.len(),
                i <= self.members@.len(),
                goal == deliver(old(self)@, text@, old(self).capacity as nat),
                forall|k: int| 0 <= k < i ==> #[trigger] self@[k] == goal[k],
                forall|k: int| i <= k < self@.len() ==> #[trigger] self@[k] == old(self)@[k],
            decreases self.members@.len() - i,
        {
            let ghost before = self@[i as int];
            let ghost ms0 = self.members@;
            let ghost v0 = self@;
            let ghost q0 = self.members@[i as int].backlog@;
            self.members[i].backlog.push(text.clone());
            let ghost q1 = self.members@[i as int].backlog@;
            assert(q1 == q0.push(*text)) by {
                assert(q1 =~= q0.push(*text));
            }
            assert(q1.map_values(|m: String| m@) =~= before.1.push(text@));
            if self.members[i].backlog.len() > self.capacity {
                self.members[i].backlog.remove(0);
                assert(self.members@[i as int].backlog@.map_values(|m: String| m@)
                    =~= before.1.push(text@).drop_first());
            }
            assert(self@[i as int] == goal[i as int]);
            assert(self.members@.len() == ms0.len());
            assert forall|k: int| 0 <= k < ms0.len() && k != i implies #[trigger] self@[k] == v0[k] by {
                assert(self.members@[k] == ms0[k]);
            }
            i += 1;
        }
        assert(self@ =~= goal);
    }

    /// Takes the oldest message waiting for `name`, if `name` is a member with one.
    pub fn take_next(&mut self, name: &String) -> (r: Option<String>)
        requires
            old(self).wf(),
        ensures
            final(self).wf(),
            final(self).capacity == old(self).capacity,
            final(self)@ == after_take(old(self)@, name@),
            text_of(r) == next_for(old(self)@, name@),
    {
        match self.find(name) {
            None => None,
            Some(i) => {
                if self.members[i].backlog.len() == 0 {
                    None
                } else {
                    let ghost q = self@[i as int].1;
                    let m = self.members[i].backlog.remove(0);
                    assert(self.members@[i as int].backlog@.map_values(|m: String| m@) =~= q.drop_first());
                    assert(self@ =~= old(self)@.update(i as int, (name@, q.drop_first())));
                    Some(m)
                }
            },
        }
    }
}

} // verus!
