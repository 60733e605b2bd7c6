//! The per-connection session: a small state machine that owns exactly one
//! registry entry for its lifetime.
//!
//! The surrounding process runs the I/O loop; the session makes every
//! decision. On a successful transport handoff it registers and announces
//! the join; while active it dispatches each inbound frame; on the
//! stream-terminating signal it closes and announces the leave. The
//! returned `Delivery` lists are the outbound writes to perform, in order,
//! under the same lock as the call itself.

use vstd::prelude::*;
use crate::codec::{decode, decode_spec};
use crate::messages::{Envelope, EnvelopeModel};
use crate::room::{ChatRoom, Delivery, default_name};

verus! {

/// Where a session stands in its life: `Connecting` before it holds a
/// registry entry, `Active` while it reads frames, `Closing` once the
/// stream ended, `Terminated` after the leave announcement. Terminal: the
/// id is never reassigned or revived.
#[derive(Debug, PartialEq, Eq)]
pub enum SessionState {
    Connecting,
    Active,
    Closing,
    Terminated,
}

/// One connection's session: its id (meaningful from `Active` on) and its
/// lifecycle state.
pub struct Session {
    pub id: usize,
    pub state: SessionState,
}

/// Dispatches one inbound frame for the connection `id`, which must be
/// registered (the session owning it is still alive). A frame that does
/// not decode, or decodes to a `UsersList` (not a valid inbound
/// direction), is dropped silently: no broadcast, no registry change. A
/// `NewMessage` is relayed to everyone; a `UsernameChange` renames the
/// sender, acknowledges it to the sender first, then broadcasts the
/// updated user list.
pub fn handle_incoming_message(room: &mut ChatRoom, id: usize, frame: &str) -> (r: Vec<Delivery>)
    requires
        old(room).wf(),
        old(room).contains_id(id as int),
    ensures
        final(room).wf(),
        final(room).counter() == old(room).counter(),
        final(room).contains_id(id as int),
        match decode_spec(frame@) {
            None => final(room).model() == old(room).model() && r@.len() == 0,
            Some(EnvelopeModel::UsersList(_)) => final(room).model() == old(room).model()
                && r@.len() == 0,
            Some(EnvelopeModel::NewMessage(m)) => final(room).model() == old(room).model()
                && r@.len() == old(room).model().len() && forall|k: int|
                0 <= k < r@.len() ==> (#[trigger] r@[k]).to as int == old(room).model()[k].0 && r@[
                    k
                ].envelope@ == EnvelopeModel::NewMessage(m),
            Some(EnvelopeModel::UsernameChange(n)) => final(room).model() =~= Seq::new(
                old(room).model().len(),
                |k: int|
                    if old(room).model()[k].0 == id as int {
                        (id as int, n)
                    } else {
                        old(room).model()[k]
                    },
            ) && final(room).name_of(id as int) == n && r@.len() == final(room).model().len() + 1
                && r@[0].to == id && r@[0].envelope@ == EnvelopeModel::UsernameChange(n) && forall|
                k: int,
            |
                1 <= k < r@.len() ==> (#[trigger] r@[k]).to as int == final(room).model()[k - 1].0
                    && r@[k].envelope@ == EnvelopeModel::UsersList(final(room).names()),
        },
{
    match decode(frame) {
        Some(env) => match env {
            Envelope::NewMessage(msg) => room.relay_message(msg),
            Envelope::UsernameChange(name) => {
                let r = room.apply_rename(id, name);
                proof {
                    let k = choose|k: int|
                        0 <= k < old(room).model().len() && #[trigger] old(room).model()[k].0 == id
                            as int;
                    assert(room.model()[k].0 == id as int);
                }
                r
            },
            Envelope::UsersList(_) => Vec::new(),
        },
        None => Vec::new(),
    }
}

impl Session {
    /// A fresh session, not yet connected.
    pub fn new() -> (s: Session)
        ensures
            s.state is Connecting,
    {
        Session { id: 0, state: SessionState::Connecting }
    }

    /// The transport handoff succeeded: register, then announce the join.
    /// The newcomer's id is the counter value; everyone (the newcomer
    /// included) is sent the updated user list, and the newcomer then its
    /// own identity acknowledgment, carrying the default name.
    pub fn open(&mut self, room: &mut ChatRoom) -> (r: Vec<Delivery>)
        requires
            old(self).state is Connecting,
            old(room).wf(),
            old(room).counter() < usize::MAX as int,
        ensures
            final(self).state is Active,
            final(self).id as int == old(room).counter(),
            final(room).wf(),
            final(room).counter() == old(room).counter() + 1,
            final(room).model() =~= old(room).model().push(
                (final(self).id as int, default_name(final(self).id as nat)),
            ),
            final(room).contains_id(final(self).id as int),
            r@.len() == final(room).model().len() + 1,
            forall|k: int|
                0 <= k < final(room).model().len() ==> (#[trigger] r@[k]).to as int == final(room).model()[k].0 && r@[k].envelope@ == EnvelopeModel::UsersList(final(room).names()),
            r@[final(room).model().len() as int].to == final(self).id,
            r@[final(room).model().len() as int].envelope@ == EnvelopeModel::UsernameChange(
                default_name(final(self).id as nat),
            ),
    {
        let id = room.register();
        self.id = id;
        self.state = SessionState::Active;
        proof {
            let m = room.model();
            assert(m[m.len() - 1].0 == id as int);
            assert(room.contains_id(id as int));
            room.lemma_ids_distinct();
            let k = room.index_of(id as int);
            assert(0 <= k < m.len() && m[k].0 == id as int);
            assert(k == m.len() - 1);
            assert(room.name_of(id as int) == default_name(id as nat));
        }
        room.announce_join(id)
    }

    /// One inbound frame while active.
    pub fn on_frame(&self, room: &mut ChatRoom, frame: &str) -> (r: Vec<Delivery>)
        requires
            self.state is Active,
            old(room).wf(),
            old(room).contains_id(self.id as int),
        ensures
            final(room).wf(),
            final(room).counter() == old(room).counter(),
            final(room).contains_id(self.id as int),
            match decode_spec(frame@) {
                None => final(room).model() == old(room).model() && r@.len() == 0,
                Some(EnvelopeModel::UsersList(_)) => final(room).model() == old(room).model()
                    && r@.len() == 0,
                Some(EnvelopeModel::NewMessage(m)) => final(room).model() == old(room).model()
                    && r@.len() == old(room).model().len() && forall|k: int|
                    0 <= k < r@.len() ==> (#[trigger] r@[k]).to as int == old(room).model()[k].0
                        && r@[k].envelope@ == EnvelopeModel::NewMessage(m),
                Some(EnvelopeModel::UsernameChange(n)) => final(room).model() =~= Seq::new(
                    old(room).model().len(),
                    |k: int|
                        if old(room).model()[k].0 == self.id as int {
                            (self.id as int, n)
                        } else {
                            old(room).model()[k]
                        },
                ) && final(room).name_of(self.id as int) == n && r@.len() == final(room).model().len() + 1 && r@[0].to == self.id && r@[0].envelope@
                    == EnvelopeModel::UsernameChange(n) && forall|k: int|
                    1 <= k < r@.len() ==> (#[trigger] r@[k]).to as int == final(room).model()[
                        k - 1
                    ].0 && r@[k].envelope@ == EnvelopeModel::UsersList(final(room).names()),
            },
    {
        handle_incoming_message(room, self.id, frame)
    }

    /// The stream-terminating signal arrived (clean close, transport error
    /// or end-of-stream): stop reading.
    pub fn on_stream_end(&mut self)
        requires
            old(self).state is Active,
        ensures
            final(self).state is Closing,
            final(self).id == old(self).id,
    {
        self.state = SessionState::Closing;
    }

    /// Announces the leave and terminates: the entry is removed (once) and
    /// everyone still present is sent the shrunk user list. Terminal.
    pub fn finish(&mut self, room: &mut ChatRoom) -> (r: Vec<Delivery>)
        requires
            old(self).state is Closing,
            old(room).wf(),
        ensures
            final(self).state is Terminated,
            final(self).id == old(self).id,
            final(room).wf(),
            final(room).counter() == old(room).counter(),
            !old(room).contains_id(old(self).id as int) ==> final(room).model() =~= old(room).model(),
            old(room).contains_id(old(self).id as int) ==> final(room).model() =~= old(room).model().remove(old(room).index_of(old(self).id as int)),
            !final(room).contains_id(old(self).id as int),
            r@.len() == final(room).model().len(),
            forall|k: int|
                0 <= k < r@.len() ==> (#[trigger] r@[k]).to as int == final(room).model()[k].0
                    && r@[k].envelope@ == EnvelopeModel::UsersList(final(room).names()),
    {
        let r = room.announce_leave(self.id);
        self.state = SessionState::Terminated;
        r
    }
}

} // verus!
