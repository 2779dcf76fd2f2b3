use vstd::prelude::*;
use vstd::string::StringExecFns;
use crate::room::text_of;
use crate::registry::{Registry, is_member, after_join, after_leave, after_broadcast, set_members, members_of};
use crate::room::{after_take, next_for};

verus! {

/// The join request a connection opens with: who it is and which room it enters.
pub struct Envelope {
    pub username: String,
    pub channel: String,
}

/// Where a connection stands: waiting for its join request, in a room, or finished.
pub enum Phase {
    AwaitingJoin,
    Joined { room: String, username: String },
    Closed,
}

/// One client connection driven through its handshake, its messages and its close.
pub struct Connection {
    pub phase: Phase,
}

/// The notice sent when the join request cannot be read.
pub open spec fn connect_failed() -> Seq<char> {
    "Failed to connect to room!"@
}

/// The notice sent when the requested username is already in the room.
pub open spec fn username_taken() -> Seq<char> {
    "Username already taken."@
}

/// Announcement broadcast when `user` enters a room.
pub open spec fn joined_notice(user: Seq<char>) -> Seq<char> {
    user + " joined the chat!"@
}

/// A chat line from `user`, as every member of the room receives it.
pub open spec fn chat_line(user: Seq<char>, text: Seq<char>) -> Seq<char> {
    user + ": "@ + text
}

/// Announcement broadcast when `user` leaves a room.
pub open spec fn left_notice(user: Seq<char>) -> Seq<char> {
    user + " left the chat!"@
}

/// The phase is `Joined` in `room` as `user`.
pub open spec fn joined_as(p: Phase, room: Seq<char>, user: Seq<char>) -> bool {
    match p {
        Phase::Joined { room: r, username: u } => r@ == room && u@ == user,
        _ => false,
    }
}

/// The announcement that `user` joined.
pub fn joined_message(user: &String) -> (r: String)
    ensures
        r@ == joined_notice(user@),
{
    let mut s = user.clone();
    s.append(" joined the chat!");
    s
}

/// The line `user: text`.
pub fn chat_message(user: &String, text: &String) -> (r: String)
    ensures
        r@ == chat_line(user@, text@),
{
    let mut s = user.clone();
    s.append(": ");
    s.append(text.as_str());
    s
}

/// The announcement that `user` left.
pub fn left_message(user: &String) -> (r: String)
    ensures
        r@ == left_notice(user@),
{
    let mut s = user.clone();
    s.append(" left the chat!");
    s
}

impl Connection {
    /// A connection that has not yet asked to join a room.
    pub fn new() -> (c: Connection)
        ensures
            c.phase is AwaitingJoin,
    {
        Connection { phase: Phase::AwaitingJoin }
    }

    /// Whether the connection has finished.
    pub fn is_closed(&self) -> (r: bool)
        ensures
            r == self.phase is Closed,
    {
        match self.phase {
            Phase::Closed => true,
            _ => false,
        }
    }

    /// Handles the join request: `None` is a request that could not be read. On success
    /// the connection joins the room and its arrival is announced there; otherwise it
    /// closes without touching the registry. The result is the notice to send back.
    pub fn handshake(&mut self, reg: &mut Registry, envelope: Option<Envelope>) -> (reply: Option<String>)
        requires
            old(reg).wf(),
        ensures
            final(reg).wf(),
            final(reg).capacity == old(reg).capacity,
            !(old(self).phase is AwaitingJoin) ==> (*final(self) == *old(self) && final(reg)@ == old(reg)@
                && reply is None),
            old(self).phase is AwaitingJoin && envelope is None ==> (final(self).phase is Closed
                && final(reg)@ == old(reg)@ && text_of(reply) == Some(connect_failed())),
            old(self).phase is AwaitingJoin ==> (envelope matches Some(e) ==> (if is_member(
                old(reg)@,
                e.channel@,
                e.username@,
            ) {
                final(self).phase is Closed && final(reg)@ == old(reg)@ && text_of(reply) == Some(
                    username_taken(),
                )
            } else {
                joined_as(final(self).phase, e.channel@, e.username@) && reply is None
                    && final(reg)@ == after_broadcast(
                    after_join(old(reg)@, e.channel@, e.username@),
                    e.channel@,
                    joined_notice(e.username@),
                    old(reg).capacity as nat,
                )
            })),
    {
        match self.phase {
            Phase::AwaitingJoin => {},
            _ => {
                return None;
            },
        }
        match envelope {
            None => {
                self.phase = Phase::Closed;
                Some(String::from_str("Failed to connect to room!"))
            },
            Some(e) => {
                let room = e.channel.clone();
                let username = e.username.clone();
                match reg.join(e.channel, e.username) {
                    Err(_) => {
                        self.phase = Phase::Closed;
                        Some(String::from_str("Username already taken."))
                    },
                    Ok(_) => {
                        let notice = joined_message(&username);
                        reg.broadcast(&room, &notice);
                        self.phase = Phase::Joined { room, username };
                        None
                    },
                }
            },
        }
    }

    /// Relays a text frame from the client: in a room it is broadcast there as a chat
    /// line; otherwise it is ignored.
    pub fn inbound(&self, reg: &mut Registry, text: &String)
        requires
            old(reg).wf(),
        ensures
            final(reg).wf(),
            final(reg).capacity == old(reg).capacity,
            self.phase matches Phase::Joined { room, username } ==> final(reg)@ == after_broadcast(
                old(reg)@,
                room@,
                chat_line(username@, text@),
                old(reg).capacity as nat,
            ),
            !(self.phase is Joined) ==> final(reg)@ == old(reg)@,
    {
        match &self.phase {
            Phase::Joined { room, username } => {
                let line = chat_message(username, text);
                reg.broadcast(room, &line);
            },
            _ => {},
        }
    }

    /// The next message waiting for this connection in its room, if any.
    pub fn outbound(&self, reg: &mut Registry) -> (r: Option<String>)
        requires
            old(reg).wf(),
        ensures
            final(reg).wf(),
            final(reg).capacity == old(reg).capacity,
            self.phase matches Phase::Joined { room, username } ==> final(reg)@ == set_members(
                old(reg)@,
                room@,
                after_take(members_of(old(reg)@, room@), username@),
            ) && text_of(r) == next_for(members_of(old(reg)@, room@), username@),
            !(self.phase is Joined) ==> final(reg)@ == old(reg)@ && r is None,
    {
        match &self.phase {
            Phase::Joined { room, username } => reg.take_next(room, username),
            _ => None,
        }
    }

    /// Ends the connection. A joined connection announces its departure, leaves its
    /// room and drops the room if it is now empty; this happens once, whatever ended
    /// the connection. A connection that never joined leaves the registry as it was.
    pub fn close(&mut self, reg: &mut Registry)
        requires
            old(reg).wf(),
        ensures
            final(reg).wf(),
            final(reg).capacity == old(reg).capacity,
            final(self).phase is Closed,
            old(self).phase matches Phase::Joined { room, username } ==> final(reg)@ == after_leave(
                after_broadcast(old(reg)@, room@, left_notice(username@), old(reg).capacity as nat),
                room@,
                username@,
            ),
            !(old(self).phase is Joined) ==> final(reg)@ == old(reg)@,
    {
        match &self.phase {
            Phase::Joined { room, username } => {
                let notice = left_message(username);
                reg.broadcast(room, &notice);
                reg.leave(room, username);
            },
            _ => {},
        }
        self.phase = Phase::Closed;
    }
}

} // verus!
