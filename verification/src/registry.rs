//! Connection registry and broadcast.
//!
//! The server tracks its live peer connections in accept order. A
//! broadcast owes one frame to every connection whose identity differs
//! from the message's origin; the origin never receives its own
//! message back. Connections whose write failed are dropped from the
//! registry produced by the dispatch step, while the origin itself and
//! every connection whose write succeeded are retained, in order.

use crate::codec::{encode, encoded_frame, MESSAGE_SIZE};
use vstd::prelude::*;
use vstd::string::StringExecFns;
use vstd::utf8::encode_utf8;

verus! {

/// A live peer connection: its identity, and the slot under which the
/// surrounding process keeps its socket.
pub struct Connection {
    pub identity: String,
    pub slot: usize,
}

/// A message received from a peer: its text, and the identity of the
/// connection it arrived on.
pub struct Message {
    pub content: String,
    pub origin: String,
}

/// The server's registry of live peer connections, in accept order.
pub struct Registry {
    conns: Vec<Connection>,
}

impl View for Registry {
    type V = Seq<Connection>;

    closed spec fn view(&self) -> Seq<Connection> {
        self.conns@
    }
}

/// The display form of a broadcast message: the origin identity, then
/// the content in single quotes.
pub open spec fn rendered(origin: Seq<char>, content: Seq<char>) -> Seq<char> {
    origin + ": '"@ + content + "'"@
}

/// What remains of a registry after a broadcast: a connection is kept
/// exactly when its identity is the origin's or its write did not
/// fail, in the original order.
pub open spec fn pruned(conns: Seq<Connection>, origin: Seq<char>, failed: Seq<bool>) -> Seq<
    Connection,
>
    recommends
        failed.len() == conns.len(),
    decreases conns.len(),
{
    if conns.len() == 0 {
        Seq::empty()
    } else {
        let rest = pruned(conns.drop_last(), origin, failed.drop_last());
        if conns.last().identity@ == origin || !failed.last() {
            rest.push(conns.last())
        } else {
            rest
        }
    }
}

/// Builds the display string for a broadcast message.
pub fn render_message(origin: &str, content: &str) -> (r: String)
    ensures
        r@ == rendered(origin@, content@),
{
    let mut s = String::from_str(origin);
    s.append(": '");
    s.append(content);
    s.append("'");
    proof {
        assert(s@ =~= rendered(origin@, content@));
    }
    s
}

/// The frame a broadcast writes to one connection, or `None` when no
/// write is owed: the connection is the message's origin, or the
/// rendered text does not fit in one frame.
pub fn frame_for(conn: &Connection, msg: &Message) -> (r: Option<Vec<u8>>)
    ensures
        conn.identity@ == msg.origin@ ==> r is None,
        conn.identity@ != msg.origin@ ==> (r is Some <==> encode_utf8(
            rendered(msg.origin@, msg.content@),
        ).len() <= MESSAGE_SIZE),
        r matches Some(frame) ==> frame@ == encoded_frame(rendered(msg.origin@, msg.content@))
            && frame@.len() == MESSAGE_SIZE,
{
    if conn.identity == msg.origin {
        None
    } else {
        let text = render_message(msg.origin.as_str(), msg.content.as_str());
        encode(text.as_str())
    }
}

impl Registry {
    /// An empty registry.
    pub fn new() -> (r: Registry)
        ensures
            r@ == Seq::<Connection>::empty(),
    {
        Registry { conns: Vec::new() }
    }

    /// Appends a newly accepted connection.
    pub fn add(&mut self, conn: Connection)
        ensures
            final(self)@ == old(self)@.push(conn),
    {
        self.conns.push(conn);
    }

    /// The number of live connections.
    pub fn len(&self) -> (n: usize)
        ensures
            n == self@.len(),
    {
        self.conns.len()
    }

    /// The connection at a position, in accept order.
    pub fn get(&self, i: usize) -> (c: &Connection)
        requires
            i < self@.len(),
        ensures
            *c == self@[i as int],
    {
        &self.conns[i]
    }

    /// Whether some live connection carries the given identity.
    pub fn contains_identity(&self, identity: &String) -> (r: bool)
        ensures
            r <==> exists|i: int| 0 <= i < self@.len() && self@[i].identity@ == identity@,
    {
        let mut i: usize = 0;
        while i < self.conns.len()
            invariant
                0 <= i <= self@.len(),
                forall|j: int| 0 <= j < i ==> self@[j].identity@ != identity@,
            decreases self@.len() - i,
        {
            if self.conns[i].identity == *identity {
                return true;
            }
            i += 1;
        }
        false
    }

    /// The registry that remains after a broadcast of a message with
    /// the given origin, where `write_failed[i]` says whether the
    /// write to connection `i` failed. A connection is dropped exactly
    /// when its write failed and its identity is not the origin's; the
    /// origin itself is always retained.
    pub fn broadcast_except(&self, origin: &String, write_failed: &Vec<bool>) -> (r: Registry)
        requires
            write_failed@.len() == self@.len(),
        ensures
            r@ == pruned(self@, origin@, write_failed@),
    {
        let mut kept: Vec<Connection> = Vec::new();
        let mut i: usize = 0;
        proof {
            assert(self@.take(0) =~= Seq::<Connection>::empty());
            assert(write_failed@.take(0) =~= Seq::<bool>::empty());
        }
        while i < self.conns.len()
            invariant
                write_failed@.len() == self@.len(),
                0 <= i <= self@.len(),
                kept@ == pruned(self@.take(i as int), origin@, write_failed@.take(i as int)),
            decreases self@.len() - i,
        {
            let conn = &self.conns[i];
            if conn.identity == *origin || !write_failed[i] {
                kept.push(Connection { identity: conn.identity.clone(), slot: conn.slot });
            }
            proof {
                assert(self@.take(i + 1).drop_last() =~= self@.take(i as int));
                assert(write_failed@.take(i + 1).drop_last() =~= write_failed@.take(i as int));
                assert(self@.take(i + 1).last() == self@[i as int]);
                assert(kept@ =~= pruned(self@.take(i + 1), origin@, write_failed@.take(i + 1)));
            }
            i += 1;
        }
        proof {
            assert(self@.take(self@.len() as int) =~= self@);
            assert(write_failed@.take(write_failed@.len() as int) =~= write_failed@);
        }
        Registry { conns: kept }
    }
}

/// Broadcast law: a connection whose identity is the origin's, or
/// whose write did not fail, is retained by the prune.
pub proof fn lemma_pruned_retains(
    conns: Seq<Connection>,
    origin: Seq<char>,
    failed: Seq<bool>,
    i: int,
)
    requires
        failed.len() == conns.len(),
        0 <= i < conns.len(),
        conns[i].identity@ == origin || !failed[i],
    ensures
        pruned(conns, origin, failed).contains(conns[i]),
    decreases conns.len(),
{
    let rest = pruned(conns.drop_last(), origin, failed.drop_last());
    if i == conns.len() - 1 {
        assert(pruned(conns, origin, failed) == rest.push(conns.last()));
        assert(rest.push(conns.last())[rest.len() as int] == conns[i]);
    } else {
        lemma_pruned_retains(conns.drop_last(), origin, failed.drop_last(), i);
        let k = choose|k: int|
            0 <= k < rest.len() && rest[k] == conns.drop_last()[i] && rest[k] == conns[i];
        if conns.last().identity@ == origin || !failed.last() {
            assert(rest.push(conns.last())[k] == conns[i]);
        }
    }
}

/// Broadcast law: the prune invents nothing; everything it returns
/// was in the registry, and was owed retention.
pub proof fn lemma_pruned_sound(conns: Seq<Connection>, origin: Seq<char>, failed: Seq<bool>)
    requires
        failed.len() == conns.len(),
    ensures
        forall|k: int|
            0 <= k < pruned(conns, origin, failed).len() ==> exists|i: int|
                0 <= i < conns.len() && conns[i] == #[trigger] pruned(conns, origin, failed)[k]
                    && (conns[i].identity@ == origin || !failed[i]),
    decreases conns.len(),
{
    if conns.len() == 0 {
    } else {
        lemma_pruned_sound(conns.drop_last(), origin, failed.drop_last());
        let rest = pruned(conns.drop_last(), origin, failed.drop_last());
        assert forall|k: int| 0 <= k < pruned(conns, origin, failed).len() implies exists|i: int|
            0 <= i < conns.len() && conns[i] == #[trigger] pruned(conns, origin, failed)[k] && (
            conns[i].identity@ == origin || !failed[i]) by {
            if k < rest.len() {
                let i = choose|i: int|
                    0 <= i < conns.drop_last().len() && conns.drop_last()[i] == rest[k] && (
                    conns.drop_last()[i].identity@ == origin || !failed.drop_last()[i]);
                assert(conns[i] == pruned(conns, origin, failed)[k]);
            } else {
                assert(pruned(conns, origin, failed)[k] == conns.last());
                assert(conns[conns.len() - 1] == pruned(conns, origin, failed)[k]);
            }
        }
    }
}

} // verus!
