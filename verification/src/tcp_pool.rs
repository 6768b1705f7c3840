//! A pool of TCP connections: a queue of idle connections and a table of
//! those handed out. A connection is stood for by the handle under which
//! the application keeps the stream.
use std::collections::HashMap;
use std::collections::VecDeque;
use vstd::prelude::*;

verus! {

broadcast use vstd::std_specs::hash::group_hash_axioms;

/// The handle of a TCP stream kept by the application.
pub type Connection = u64;

/// Idle connections in the order they are handed out, the connections in
/// use by their id, the pool's size limit, and the id counter.
pub struct TcpPool {
    available: VecDeque<Connection>,
    in_use: HashMap<usize, Connection>,
    max_connections: usize,
    id_counter: usize,
}

/// The abstract content of a `TcpPool`.
pub struct TcpPoolView {
    pub available: Seq<Connection>,
    pub in_use: Map<usize, Connection>,
    pub max_connections: usize,
    pub id_counter: usize,
}

impl View for TcpPool {
    type V = TcpPoolView;

    closed spec fn view(&self) -> TcpPoolView {
        TcpPoolView {
            available: self.available@,
            in_use: self.in_use@,
            max_connections: self.max_connections,
            id_counter: self.id_counter,
        }
    }
}

/// The id counter after one more connection is handed out: one more, or
/// zero past `usize::MAX`.
pub open spec fn next_id(n: usize) -> usize {
    if n == usize::MAX {
        0
    } else {
        (n + 1) as usize
    }
}

/// The pool after handing out the connection at the front of the idle queue.
pub open spec fn after_get(p: TcpPoolView) -> TcpPoolView {
    TcpPoolView {
        available: p.available.drop_first(),
        in_use: p.in_use.insert(p.id_counter, p.available[0]),
        max_connections: p.max_connections,
        id_counter: next_id(p.id_counter),
    }
}

/// The pool after the connection in use under `id` is put back.
pub open spec fn after_return(p: TcpPoolView, id: usize) -> TcpPoolView {
    TcpPoolView { available: p.available.push(p.in_use[id]), ..p }
}

impl TcpPool {
    pub fn new(
        available: VecDeque<Connection>,
        in_use: HashMap<usize, Connection>,
        max_connections: usize,
        id_counter: usize,
    ) -> (p: TcpPool)
        ensures
            p@ == (TcpPoolView {
                available: available@,
                in_use: in_use@,
                max_connections,
                id_counter,
            }),
    {
        TcpPool { available, in_use, max_connections, id_counter }
    }

    /// Hands out the connection at the front of the idle queue: it is
    /// recorded as in use under the current id, the counter advances, and
    /// the advanced counter is returned with the connection.
    pub fn get_connection(&mut self) -> (r: (usize, Connection))
        requires
            old(self)@.available.len() > 0,
        ensures
            final(self)@ == after_get(old(self)@),
            r == (next_id(old(self)@.id_counter), old(self)@.available[0]),
    {
        let connection = match self.available.pop_front() {
            Some(c) => c,
            None => vstd::pervasive::unreached(),
        };
        assert(self@.available =~= old(self)@.available.drop_first());
        self.in_use.insert(self.id_counter, connection);
        self.id_counter = self.id_counter.wrapping_add(1);
        (self.id_counter, connection)
    }

    /// Puts the connection in use under `connection_id` back at the end of
    /// the idle queue; the table of connections in use is left as it is.
    pub fn return_connection(&mut self, connection_id: usize)
        requires
            old(self)@.in_use.contains_key(connection_id),
        ensures
            final(self)@ == after_return(old(self)@, connection_id),
    {
        let connection = match self.in_use.get(&connection_id) {
            Some(c) => *c,
            None => vstd::pervasive::unreached(),
        };
        self.available.push_back(connection);
    }
}


/// A connection handed out is recorded as in use under the id the counter
/// had before, and putting back the connection under that id moves it from
/// the front of the idle queue to its end.
pub proof fn lemma_get_then_return(p: TcpPoolView)
    requires
        p.available.len() > 0,
    ensures
        after_get(p).in_use.contains_key(p.id_counter),
        after_get(p).in_use[p.id_counter] == p.available[0],
        after_return(after_get(p), p.id_counter).available == p.available.drop_first().push(
            p.available[0],
        ),
        after_return(after_get(p), p.id_counter).available.to_multiset() == p.available.to_multiset(),
{
    let rotated = p.available.drop_first().push(p.available[0]);
    assert(p.available =~= seq![p.available[0]] + p.available.drop_first());
    assert(rotated =~= p.available.drop_first() + seq![p.available[0]]);
    vstd::seq_lib::lemma_seq_union_to_multiset_commutative(
        seq![p.available[0]],
        p.available.drop_first(),
    );
}

} // verus!
