//! The connection registry and the broadcast engine built on it.
//!
//! A `ChatRoom` is the authoritative map from connection id to connection
//! state (display name). Ids come from a counter owned by the room, start at
//! 1, grow strictly, and are never reused. Iteration order is insertion
//! order. The room itself performs no I/O: operations that deliver
//! envelopes return the list of `Delivery` values to perform, in order, and
//! the caller is expected to hold one exclusive lock around the room and its
//! outbound sinks for the whole of each operation including the fan-out, so
//! that every operation (and every fan-out) is atomic with respect to every
//! other.

use vstd::prelude::*;
use crate::messages::{ChatMessage, Envelope, EnvelopeModel};
use crate::text::{dec_rep, push_decimal};

verus! {

/// One registered participant: its never-reused id and its display name.
pub struct Connection {
    pub id: usize,
    pub username: String,
}

/// One outbound write for the surrounding process to perform: push this
/// envelope to the sink of connection `to`. Failures are to be swallowed
/// (best-effort delivery); a failed write must not remove the connection.
#[derive(Debug, PartialEq, Eq)]
pub struct Delivery {
    pub to: usize,
    pub envelope: Envelope,
}

/// The registry: insertion-ordered connections plus the id counter.
pub struct ChatRoom {
    next_id: usize,
    connections: Vec<Connection>,
}

/// Mathematical model of a connection list: (id, display name) pairs in
/// iteration order.
pub open spec fn model_of(s: Seq<Connection>) -> Seq<(int, Seq<char>)> {
    Seq::new(s.len(), |k: int| (s[k].id as int, s[k].username@))
}

/// The default display name a connection starts with: `User #<id>`.
pub open spec fn default_name(id: nat) -> Seq<char> {
    "User #"@ + dec_rep(id)
}

impl ChatRoom {
    /// The next id the room will hand out.
    pub closed spec fn counter(&self) -> int {
        self.next_id as int
    }

    /// The registry contents: (id, display name) pairs in iteration order.
    pub closed spec fn model(&self) -> Seq<(int, Seq<char>)> {
        model_of(self.connections@)
    }

    /// Well-formedness: ids are strictly increasing in iteration order (so
    /// each appears once) and every id was handed out before `counter()`.
    pub open spec fn wf(&self) -> bool {
        &&& 1 <= self.counter()
        &&& forall|k: int|
            0 <= k < self.model().len() ==> #[trigger] self.model()[k].0 < self.counter()
        &&& forall|k: int, l: int|
            0 <= k < l < self.model().len() ==> self.model()[k].0 < self.model()[l].0
    }

    /// Whether a connection with this id is currently registered.
    pub open spec fn contains_id(&self, id: int) -> bool {
        exists|k: int| 0 <= k < self.model().len() && #[trigger] self.model()[k].0 == id
    }

    /// The iteration-order position of the connection with this id.
    pub open spec fn index_of(&self, id: int) -> int {
        choose|k: int| 0 <= k < self.model().len() && #[trigger] self.model()[k].0 == id
    }

    /// The display name of the connection with this id.
    pub open spec fn name_of(&self, id: int) -> Seq<char> {
        self.model()[self.index_of(id)].1
    }

    /// The display names in iteration order.
    pub open spec fn names(&self) -> Seq<Seq<char>> {
        Seq::new(self.model().len(), |k: int| self.model()[k].1)
    }

    /// No two registered connections share an id.
    pub proof fn lemma_ids_distinct(&self)
        requires
            self.wf(),
        ensures
            forall|k: int, l: int|
                0 <= k < self.model().len() && 0 <= l < self.model().len() && k != l
                    ==> self.model()[k].0 != self.model()[l].0,
    {
    }

    /// Every registered id is below the counter, so an id the counter has
    /// not reached yet cannot be in the room: ids are never reused.
    pub proof fn lemma_ids_below_counter(&self)
        requires
            self.wf(),
        ensures
            forall|id: int| id >= self.counter() ==> !self.contains_id(id),
    {
    }

    /// An empty room whose counter starts at 1.
    pub fn new() -> (r: ChatRoom)
        ensures
            r.wf(),
            r.counter() == 1,
            r.model() =~= Seq::<(int, Seq<char>)>::empty(),
    {
        let r = ChatRoom { next_id: 1, connections: Vec::new() };
        proof {
            assert(r.model() =~= Seq::<(int, Seq<char>)>::empty());
        }
        r
    }

    /// Registers a new connection: allocates the next id, inserts it at the
    /// end of iteration order under the default display name, and returns
    /// the id. Each call returns a value strictly greater than every id
    /// handed out before, and the counter moves past it, so no id is ever
    /// reused.
    pub fn register(&mut self) -> (id: usize)
        requires
            old(self).wf(),
            old(self).counter() < usize::MAX as int,
        ensures
            final(self).wf(),
            id as int == old(self).counter(),
            final(self).counter() == old(self).counter() + 1,
            final(self).model().len() == old(self).model().len() + 1,
            final(self).model() =~= old(self).model().push(
                (id as int, default_name(id as nat)),
            ),
    {
        let id = self.next_id;
        self.next_id = self.next_id + 1;
        let mut name = String::new();
        name.append("User #");
        push_decimal(&mut name, id);
        self.connections.push(Connection { id, username: name });
        proof {
            assert(self.model() =~= old(self).model().push(
                (id as int, default_name(id as nat)),
            ));
        }
        id
    }

    /// Removes the connection with this id if present; a no-op when absent
    /// (deregistration is defensively idempotent). The counter never moves
    /// backwards, so the slot is gone for good.
    pub fn deregister(&mut self, id: usize)
        requires
            old(self).wf(),
        ensures
            final(self).wf(),
            final(self).counter() == old(self).counter(),
            !old(self).contains_id(id as int) ==> final(self).model() =~= old(self).model(),
            old(self).contains_id(id as int) ==> final(self).model() =~= old(self).model().remove(
                old(self).index_of(id as int),
            ),
            final(self).model().len() == if old(self).contains_id(id as int) {
                old(self).model().len() - 1
            } else {
                old(self).model().len() as int
            },
            forall|other: int|
                other != id as int ==> (final(self).contains_id(other) <==> old(self).contains_id(
                    other,
                )),
            !final(self).contains_id(id as int),
    {
        let ghost pre = *self;
        let n = self.connections.len();
        let mut i: usize = 0;
        while i < n
            invariant
                *self == pre,
                pre == *old(self),
                pre.wf(),
                n == self.connections@.len(),
                i <= n,
                forall|j: int| 0 <= j < i ==> #[trigger] self.model()[j].0 != id as int,
            decreases n - i,
        {
            if self.connections[i].id == id {
                self.connections.remove(i);
                proof {
                    pre.lemma_ids_distinct();
                    assert(pre.model()[i as int].0 == id as int);
                    assert(pre.contains_id(id as int));
                    assert(pre.index_of(id as int) == i as int);
                    assert(self.model() =~= pre.model().remove(i as int));
                    assert forall|k: int, l: int|
                        0 <= k < l < self.model().len() implies self.model()[k].0
                        < self.model()[l].0 by {
                        let ko: int = if k < i { k } else { k + 1 };
                        let lo: int = if l < i { l } else { l + 1 };
                        assert(self.model()[k] == pre.model()[ko]);
                        assert(self.model()[l] == pre.model()[lo]);
                    }
                    assert forall|k: int| 0 <= k < self.model().len() implies #[trigger] self
                        .model()[k].0 < self.counter() by {
                        let ko: int = if k < i { k } else { k + 1 };
                        assert(self.model()[k] == pre.model()[ko]);
                    }
                    assert forall|other: int| other != id as int implies (self.contains_id(other)
                        <==> pre.contains_id(other)) by {
                        if self.contains_id(other) {
                            let k = choose|k: int|
                                0 <= k < self.model().len() && #[trigger] self.model()[k].0
                                    == other;
                            let ko: int = if k < i { k } else { k + 1 };
                            assert(pre.model()[ko].0 == other);
                        }
                        if pre.contains_id(other) {
                            let k = choose|k: int|
                                0 <= k < pre.model().len() && #[trigger] pre.model()[k].0 == other;
                            if k < i {
                                assert(self.model()[k].0 == other);
                            } else {
                                assert(pre.model()[k].0 != id as int);
                                assert(k > i);
                                assert(self.model()[k - 1].0 == other);
                            }
                        }
                    }
                    assert forall|k: int| 0 <= k < self.model().len() implies #[trigger] self
                        .model()[k].0 != id as int by {
                        let ko: int = if k < i { k } else { k + 1 };
                        assert(self.model()[k] == pre.model()[ko]);
                        assert(pre.model()[ko].0 != id as int || ko == i);
                    }
                }
                return ;
            }
            i = i + 1;
        }
        proof {
            assert(!self.contains_id(id as int));
        }
    }

    /// Replaces the display name of the connection with this id. The caller
    /// must know the id is registered: renaming an absent id would be a
    /// lifecycle violation (only a connection's own live session renames
    /// it), and the surrounding process is expected to treat that case as
    /// fatal rather than call in.
    pub fn rename(&mut self, id: usize, new_name: String)
        requires
            old(self).wf(),
            old(self).contains_id(id as int),
        ensures
            final(self).wf(),
            final(self).counter() == old(self).counter(),
            final(self).model() =~= Seq::new(
                old(self).model().len(),
                |k: int|
                    if old(self).model()[k].0 == id as int {
                        (id as int, new_name@)
                    } else {
                        old(self).model()[k]
                    },
            ),
            forall|other: int| final(self).contains_id(other) <==> old(self).contains_id(other),
            final(self).contains_id(id as int),
            final(self).name_of(id as int) == new_name@,
    {
        let ghost pre = *self;
        let n = self.connections.len();
        let mut i: usize = 0;
        while i < n
            invariant
                *self == pre,
                pre == *old(self),
                pre.wf(),
                pre.contains_id(id as int),
                n == self.connections@.len(),
                i <= n,
                forall|j: int| 0 <= j < i ==> #[trigger] self.model()[j].0 != id as int,
            decreases n - i,
        {
            if self.connections[i].id == id {
                let kept_id = self.connections[i].id;
                self.connections.remove(i);
                self.connections.insert(i, Connection { id: kept_id, username: new_name });
                proof {
                    let goal: Seq<(int, Seq<char>)> = Seq::new(
                        old(self).model().len(),
                        |k: int|
                            if old(self).model()[k].0 == id as int {
                                (id as int, new_name@)
                            } else {
                                old(self).model()[k]
                            },
                    );
                    let c = Connection { id: kept_id, username: new_name };
                    let rem = pre.connections@.remove(i as int);
                    pre.connections@.remove_ensures(i as int);
                    rem.insert_ensures(i as int, c);
                    assert(self.connections@ == rem.insert(i as int, c));
                    assert(self.connections@.len() == pre.connections@.len());
                    assert(pre.model()[i as int].0 == id as int);
                    assert forall|k: int|
                        0 <= k < pre.model().len() && k != i as int implies #[trigger] pre.model()[
                            k
                        ].0 != id as int by {
                        if k < i as int {
                            assert(pre.model()[k].0 < pre.model()[i as int].0);
                        } else {
                            assert(pre.model()[i as int].0 < pre.model()[k].0);
                        }
                    }
                    assert forall|k: int|
                        0 <= k < self.connections@.len() implies #[trigger] self.connections@[k]
                            == (if k == i as int {
                            c
                        } else {
                            pre.connections@[k]
                        }) by {
                        if k < i as int {
                            assert(self.connections@[k] == rem[k]);
                        } else if k > i as int {
                            assert(self.connections@[k] == rem[k - 1]);
                        }
                    }
                    assert forall|k: int|
                        0 <= k < self.model().len() implies #[trigger] self.model()[k] == goal[
                            k
                        ] by {
                        if k == i as int {
                            assert(self.connections@[k] == c);
                            assert(self.model()[k] == (id as int, new_name@));
                            assert(old(self).model()[k].0 == id as int);
                            assert(goal[k] == (id as int, new_name@));
                        } else {
                            assert(self.connections@[k] == pre.connections@[k]);
                            assert(self.model()[k] == pre.model()[k]);
                            assert(pre.model()[k].0 != id as int);
                            assert(old(self).model()[k] == pre.model()[k]);
                            assert(goal[k] == old(self).model()[k]);
                        }
                    }
                    assert(self.model() =~= goal);
                    assert forall|k: int|
                        0 <= k < self.model().len() implies #[trigger] self.model()[k].0
                        == pre.model()[k].0 by {
                        assert(self.model()[k] == goal[k]);
                    }
                    assert forall|other: int| self.contains_id(other) <==> pre.contains_id(
                        other,
                    ) by {
                        if self.contains_id(other) {
                            let k = choose|k: int|
                                0 <= k < self.model().len() && #[trigger] self.model()[k].0
                                    == other;
                            assert(pre.model()[k].0 == other);
                        }
                        if pre.contains_id(other) {
                            let k = choose|k: int|
                                0 <= k < pre.model().len() && #[trigger] pre.model()[k].0 == other;
                            assert(self.model()[k].0 == other);
                        }
                    }
                    assert(self.model()[i as int].0 == id as int);
                    assert(self.index_of(id as int) == i as int);
                    assert(self.name_of(id as int) == new_name@);
                }
                return ;
            }
            i = i + 1;
        }
        proof {
            let k = choose|k: int|
                0 <= k < pre.model().len() && #[trigger] pre.model()[k].0 == id as int;
            assert(self.model()[k].0 == id as int);
            assert(false);
        }
    }

    /// The display names of everyone present, in iteration order, taken in
    /// one pass (the caller's lock makes the pass atomic).
    pub fn snapshot_names(&self) -> (r: Vec<String>)
        ensures
            r@.len() == self.names().len(),
            forall|k: int| 0 <= k < r@.len() ==> #[trigger] r@[k]@ == self.names()[k],
    {
        let mut r: Vec<String> = Vec::new();
        let mut i: usize = 0;
        let n = self.connections.len();
        while i < n
            invariant
                i <= n,
                n == self.connections@.len(),
                r@.len() == i as int,
                forall|k: int| 0 <= k < i ==> #[trigger] r@[k]@ == self.names()[k],
            decreases n - i,
        {
            r.push(self.connections[i].username.clone());
            i = i + 1;
        }
        r
    }

    /// How many connections are currently registered.
    pub fn count(&self) -> (r: usize)
        ensures
            r as int == self.model().len(),
    {
        self.connections.len()
    }

    /// The id the next registration will return; lets the surrounding
    /// process check for counter exhaustion before calling `register`.
    pub fn peek_next_id(&self) -> (r: usize)
        ensures
            r as int == self.counter(),
    {
        self.next_id
    }

    /// The current display name of the connection with this id.
    pub fn display_name(&self, id: usize) -> (r: String)
        requires
            self.wf(),
            self.contains_id(id as int),
        ensures
            r@ == self.name_of(id as int),
    {
        let n = self.connections.len();
        let mut i: usize = 0;
        while i < n
            invariant
                self.wf(),
                self.contains_id(id as int),
                n == self.connections@.len(),
                i <= n,
                forall|j: int| 0 <= j < i ==> #[trigger] self.model()[j].0 != id as int,
            decreases n - i,
        {
            if self.connections[i].id == id {
                proof {
                    self.lemma_ids_distinct();
                    assert(self.model()[i as int].0 == id as int);
                    assert(self.index_of(id as int) == i as int);
                }
                return self.connections[i].username.clone();
            }
            i = i + 1;
        }
        proof {
            let k = choose|k: int|
                0 <= k < self.model().len() && #[trigger] self.model()[k].0 == id as int;
            assert(false);
        }
        String::new()
    }

    /// One delivery of `env` to every currently registered connection,
    /// exactly once each, in iteration order, and to no one else. The
    /// registry itself is untouched: a recipient whose write later fails is
    /// the caller's business and must not shrink the room.
    pub fn broadcast(&self, env: &Envelope) -> (r: Vec<Delivery>)
        ensures
            r@.len() == self.model().len(),
            forall|k: int|
                0 <= k < r@.len() ==> (#[trigger] r@[k]).to as int == self.model()[k].0 && r@[
                    k
                ].envelope@ == env@,
    {
        let mut r: Vec<Delivery> = Vec::new();
        let n = self.connections.len();
        let mut i: usize = 0;
        while i < n
            invariant
                i <= n,
                n == self.connections@.len(),
                r@.len() == i as int,
                forall|k: int|
                    0 <= k < i ==> (#[trigger] r@[k]).to as int == self.model()[k].0 && r@[
                        k
                    ].envelope@ == env@,
            decreases n - i,
        {
            r.push(Delivery { to: self.connections[i].id, envelope: env.duplicate() });
            i = i + 1;
        }
        r
    }

    /// One delivery of `env` to exactly the connection with this id: `Some`
    /// if and only if that id is registered.
    pub fn send_to(&self, id: usize, env: &Envelope) -> (r: Option<Delivery>)
        requires
            self.wf(),
        ensures
            r is Some <==> self.contains_id(id as int),
            r matches Some(d) ==> d.to == id && d.envelope@ == env@,
    {
        let n = self.connections.len();
        let mut i: usize = 0;
        while i < n
            invariant
                self.wf(),
                n == self.connections@.len(),
                i <= n,
                forall|j: int| 0 <= j < i ==> #[trigger] self.model()[j].0 != id as int,
            decreases n - i,
        {
            if self.connections[i].id == id {
                proof {
                    assert(self.model()[i as int].0 == id as int);
                }
                return Some(Delivery { to: id, envelope: env.duplicate() });
            }
            i = i + 1;
        }
        proof {
            if self.contains_id(id as int) {
                let k = choose|k: int|
                    0 <= k < self.model().len() && #[trigger] self.model()[k].0 == id as int;
                assert(false);
            }
        }
        None
    }

    /// A join announcement: first the full user list to everyone (the
    /// newcomer included), then the newcomer's own identity acknowledgment.
    /// Every existing participant sees the join through the same list
    /// broadcast, and the newcomer receives the list before its own
    /// acknowledgment.
    pub fn announce_join(&self, id: usize) -> (r: Vec<Delivery>)
        requires
            self.wf(),
            self.contains_id(id as int),
        ensures
            r@.len() == self.model().len() + 1,
            forall|k: int|
                0 <= k < self.model().len() ==> (#[trigger] r@[k]).to as int == self.model()[k].0
                    && r@[k].envelope@ == EnvelopeModel::UsersList(self.names()),
            r@[self.model().len() as int].to == id,
            r@[self.model().len() as int].envelope@ == EnvelopeModel::UsernameChange(
                self.name_of(id as int),
            ),
    {
        let names = self.snapshot_names();
        let env_users = Envelope::UsersList(names);
        proof {
            assert(env_users@ matches EnvelopeModel::UsersList(u) && u =~= self.names());
        }
        let mut r = self.broadcast(&env_users);
        let name = self.display_name(id);
        r.push(Delivery { to: id, envelope: Envelope::UsernameChange(name) });
        r
    }

    /// A leave announcement: removes the connection (idempotently), then
    /// broadcasts the remaining user list to everyone still present.
    pub fn announce_leave(&mut self, id: usize) -> (r: Vec<Delivery>)
        requires
            old(self).wf(),
        ensures
            final(self).wf(),
            final(self).counter() == old(self).counter(),
            !old(self).contains_id(id as int) ==> final(self).model() =~= old(self).model(),
            old(self).contains_id(id as int) ==> final(self).model() =~= old(
                self,
            ).model().remove(old(self).index_of(id as int)),
            !final(self).contains_id(id as int),
            r@.len() == final(self).model().len(),
            forall|k: int|
                0 <= k < r@.len() ==> (#[trigger] r@[k]).to as int == final(self).model()[k].0
                    && r@[k].envelope@ == EnvelopeModel::UsersList(final(self).names()),
    {
        self.deregister(id);
        let names = self.snapshot_names();
        let env_users = Envelope::UsersList(names);
        proof {
            assert(env_users@ matches EnvelopeModel::UsersList(u) && u =~= self.names());
        }
        self.broadcast(&env_users)
    }

    /// Relays one chat message to everyone present, exactly once each, in
    /// iteration order. No validation beyond what the codec enforced.
    pub fn relay_message(&self, msg: ChatMessage) -> (r: Vec<Delivery>)
        ensures
            r@.len() == self.model().len(),
            forall|k: int|
                0 <= k < r@.len() ==> (#[trigger] r@[k]).to as int == self.model()[k].0 && r@[
                    k
                ].envelope@ == EnvelopeModel::NewMessage(msg@),
    {
        let env = Envelope::NewMessage(msg);
        self.broadcast(&env)
    }

    /// A rename: replaces the display name, acknowledges it to the renamed
    /// connection first, then broadcasts the updated user list to everyone.
    pub fn apply_rename(&mut self, id: usize, new_name: String) -> (r: Vec<Delivery>)
        requires
            old(self).wf(),
            old(self).contains_id(id as int),
        ensures
            final(self).wf(),
            final(self).counter() == old(self).counter(),
            final(self).model() =~= Seq::new(
                old(self).model().len(),
                |k: int|
                    if old(self).model()[k].0 == id as int {
                        (id as int, new_name@)
                    } else {
                        old(self).model()[k]
                    },
            ),
            final(self).name_of(id as int) == new_name@,
            r@.len() == final(self).model().len() + 1,
            r@[0].to == id,
            r@[0].envelope@ == EnvelopeModel::UsernameChange(new_name@),
            forall|k: int|
                1 <= k < r@.len() ==> (#[trigger] r@[k]).to as int == final(self).model()[k - 1].0
                    && r@[k].envelope@ == EnvelopeModel::UsersList(final(self).names()),
    {
        let ack_name = new_name.clone();
        self.rename(id, new_name);
        let mut r: Vec<Delivery> = Vec::new();
        r.push(Delivery { to: id, envelope: Envelope::UsernameChange(ack_name) });
        let names = self.snapshot_names();
        let env_users = Envelope::UsersList(names);
        proof {
            assert(env_users@ matches EnvelopeModel::UsersList(u) && u =~= self.names());
        }
        let mut bs = self.broadcast(&env_users);
        r.append(&mut bs);
        r
    }
}

/// Broadcast completeness: a fan-out whose targets are the room's
/// connections in iteration order reaches every registered id exactly once,
/// and reaches nothing that is not registered.
pub proof fn lemma_broadcast_exactly_once(room: ChatRoom, tos: Seq<int>)
    requires
        room.wf(),
        tos.len() == room.model().len(),
        forall|k: int| 0 <= k < tos.len() ==> #[trigger] tos[k] == room.model()[k].0,
    ensures
        forall|id: int|
            room.contains_id(id) ==> exists|k: int| 0 <= k < tos.len() && #[trigger] tos[k] == id,
        forall|k: int, l: int| 0 <= k < l < tos.len() ==> tos[k] != tos[l],
        forall|k: int| 0 <= k < tos.len() ==> room.contains_id(#[trigger] tos[k]),
{
    assert forall|id: int| room.contains_id(id) implies exists|k: int|
        0 <= k < tos.len() && #[trigger] tos[k] == id by {
        let k = choose|k: int|
            0 <= k < room.model().len() && #[trigger] room.model()[k].0 == id;
        assert(tos[k] == id);
    }
    assert forall|k: int, l: int| 0 <= k < l < tos.len() implies tos[k] != tos[l] by {
        assert(room.model()[k].0 < room.model()[l].0);
    }
    assert forall|k: int| 0 <= k < tos.len() implies room.contains_id(#[trigger] tos[k]) by {
        assert(room.model()[k].0 == tos[k]);
    }
}

/// Id monotonicity and non-reuse, made explicit. `register` returns the
/// counter value and leaves the counter strictly above it; every other
/// operation keeps the counter unchanged (see their contracts), so across
/// any operation sequence the counter never decreases. Hence a later
/// registration returns a strictly greater id than any earlier one — and,
/// by `lemma_ids_below_counter`, an id the counter has moved past can
/// never stand in the room again.
pub proof fn lemma_id_monotonicity(
    after_first: ChatRoom,
    before_second: ChatRoom,
    id1: int,
    id2: int,
)
    requires
        id1 + 1 <= after_first.counter(),
        after_first.counter() <= before_second.counter(),
        id2 == before_second.counter(),
    ensures
        id2 > id1,
{
}

/// Rename visibility: once a room's contents are those of `pre` with `id`
/// renamed to `new_name`, the user list shows `new_name` at the renamed
/// connection's position; and if no other connection bore the old name and
/// the new name differs from it, the old name is gone from the list.
pub proof fn lemma_rename_visibility(pre: ChatRoom, post: ChatRoom, id: int, new_name: Seq<char>)
    requires
        pre.wf(),
        pre.contains_id(id),
        post.model() =~= Seq::new(
            pre.model().len(),
            |k: int|
                if pre.model()[k].0 == id {
                    (id, new_name)
                } else {
                    pre.model()[k]
                },
        ),
    ensures
        post.names()[pre.index_of(id)] == new_name,
        post.names().contains(new_name),
        (new_name != pre.name_of(id) && forall|k: int|
            0 <= k < pre.model().len() && pre.model()[k].0 != id
                ==> (#[trigger] pre.model()[k]).1 != pre.name_of(id)) ==> !post.names().contains(
            pre.name_of(id),
        ),
{
    pre.lemma_ids_distinct();
    let i = pre.index_of(id);
    assert(pre.model()[i].0 == id);
    assert(post.names()[i] == new_name);
    assert(post.names().contains(new_name));
    if new_name != pre.name_of(id) && forall|k: int|
        0 <= k < pre.model().len() && pre.model()[k].0 != id
            ==> (#[trigger] pre.model()[k]).1 != pre.name_of(id) {
        assert forall|k: int| 0 <= k < post.names().len() implies post.names()[k] != pre.name_of(
            id,
        ) by {
            if pre.model()[k].0 == id {
                assert(k == i);
                assert(post.names()[k] == new_name);
            } else {
                assert(post.names()[k] == pre.model()[k].1);
            }
        }
        if post.names().contains(pre.name_of(id)) {
            let k = choose|k: int|
                0 <= k < post.names().len() && post.names()[k] == pre.name_of(id);
            assert(false);
        }
    }
}

} // verus!
