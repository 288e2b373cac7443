//! The requests of one client that wait for their answers.

use crate::error::Error;
use crate::jsonrpc;
use std::collections::HashMap;
use vstd::prelude::*;
use vstd::std_specs::iter::IteratorSpec;

verus! {

/// How a request came to its end.
#[derive(Clone, Copy, Debug, PartialEq, Eq, Structural, Hash)]
pub enum Outcome {
    /// The server answered with a result.
    Response,
    /// The server answered with an error.
    ProtocolError,
    /// No answer came in time.
    Timeout,
    /// The server closed its output first.
    StreamClosed,
    /// Whoever asked gave up waiting.
    Cancelled,
}

/// The requests of one client: the identifier of the next one, and for
/// every request that waits for its answer the sink `S` to hand the answer
/// to.
pub struct PendingRequests<S> {
    next: u64,
    pending: HashMap<u64, S>,
    ended: Ghost<Map<u64, Outcome>>,
}

impl<S> PendingRequests<S> {
    /// The number of requests made so far, which is the identifier of the
    /// next one.
    pub closed spec fn started(&self) -> u64 {
        self.next
    }

    /// The sinks of the requests that wait, by their identifiers.
    pub closed spec fn waiting(&self) -> Map<u64, S> {
        self.pending@
    }

    /// The requests that came to an end, each with how it did.
    pub closed spec fn ended(&self) -> Map<u64, Outcome> {
        self.ended@
    }

    /// The requests in flight: those made that did not come to an end.
    pub open spec fn in_flight(&self) -> Set<u64> {
        Set::new(|id: u64| id < self.started() && !self.ended().contains_key(id))
    }

    /// The requests that wait are those in flight, and those that ended
    /// were made.
    pub closed spec fn wf(&self) -> bool {
        &&& forall|id: u64| #[trigger]
            self.pending@.contains_key(id) <==> id < self.next && !self.ended@.contains_key(id)
        &&& forall|id: u64| #[trigger] self.ended@.contains_key(id) ==> id < self.next
    }

    /// The table of waiting requests holds exactly the requests in flight.
    pub proof fn lemma_waiting_is_in_flight(&self)
        requires
            self.wf(),
        ensures
            self.waiting().dom() == self.in_flight(),
    {
        assert(self.waiting().dom() =~= self.in_flight());
    }

    /// Every request that was made is in flight or has come to one end,
    /// never both, and no other request is either.
    pub proof fn lemma_one_end(&self, id: u64)
        requires
            self.wf(),
        ensures
            id < self.started() ==> (self.in_flight().contains(id) != self.ended().contains_key(id)),
            id >= self.started() ==> !self.in_flight().contains(id) && !self.ended().contains_key(
                id,
            ),
    {
    }

    pub fn new() -> (r: Self)
        ensures
            r.wf(),
            r.started() == 0,
            r.waiting() == Map::<u64, S>::empty(),
            r.ended() == Map::<u64, Outcome>::empty(),
    {
        PendingRequests { next: 0, pending: HashMap::new(), ended: Ghost(Map::empty()) }
    }

    /// Whether no request is in flight.
    pub fn is_empty(&self) -> (b: bool)
        requires
            self.wf(),
        ensures
            b == (self.in_flight() =~= Set::<u64>::empty()),
    {
        proof {
            self.lemma_waiting_is_in_flight();
            assert(self.pending@.is_empty() == (self.pending@.dom() =~= Set::<u64>::empty()));
        }
        self.pending.is_empty()
    }

    /// Makes a request: gives it the next identifier and keeps its sink,
    /// before anything of it is sent. The identifier is above that of
    /// every request made before, waiting or ended. The sink comes back
    /// where no identifier is left.
    pub fn start(&mut self, sink: S) -> (r: Result<u64, S>)
        requires
            old(self).wf(),
        ensures
            final(self).wf(),
            final(self).ended() == old(self).ended(),
            r is Ok <==> old(self).started() < u64::MAX,
            r matches Ok(id) ==> id == old(self).started() && final(self).started() == id + 1
                && final(self).waiting() == old(self).waiting().insert(id, sink),
            r matches Ok(id) ==> forall|before: u64| #[trigger]
                old(self).waiting().contains_key(before) || old(self).ended().contains_key(before)
                    ==> before < id,
            r matches Err(s) ==> s == sink && final(self).started() == old(self).started()
                && final(self).waiting() == old(self).waiting(),
    {
        if self.next == u64::MAX {
            return Err(sink);
        }
        let id = self.next;
        self.pending.insert(id, sink);
        self.next = id + 1;
        Ok(id)
    }

    /// Ends a request in flight. The result is its sink; for a request
    /// that is not in flight nothing changes.
    fn end(&mut self, id: u64, outcome: Outcome) -> (sink: Option<S>)
        requires
            old(self).wf(),
        ensures
            final(self).wf(),
            final(self).started() == old(self).started(),
            sink is Some <==> old(self).in_flight().contains(id),
            sink matches Some(s) ==> s == old(self).waiting()[id] && final(self).ended() == old(self).ended().insert(id, outcome) && final(self).waiting() == old(self).waiting().remove(id),
            sink is None ==> final(self).ended() == old(self).ended() && final(self).waiting()
                == old(self).waiting(),
    {
        let sink = self.pending.remove(&id);
        if sink.is_some() {
            self.ended = Ghost(self.ended@.insert(id, outcome));
        }
        sink
    }

    /// Takes the answer of the server to the request `id`.
    ///
    /// For a request in flight the result is its sink and what to hand
    /// to it: the result of the server, or its error as a protocol error.
    /// An answer to any other request is for nobody, and nothing changes.
    pub fn respond(&mut self, id: u64, answer: Result<serde_json::Value, jsonrpc::Error>) -> (r:
        Option<(S, Result<serde_json::Value, Error>)>)
        requires
            old(self).wf(),
        ensures
            final(self).wf(),
            final(self).started() == old(self).started(),
            r is Some <==> old(self).in_flight().contains(id),
            r matches Some(pair) ==> {
                &&& pair.0 == old(self).waiting()[id]
                &&& pair.1 == match answer {
                    Ok(value) => Ok::<serde_json::Value, Error>(value),
                    Err(e) => Err::<serde_json::Value, Error>(Error::Rpc(e)),
                }
                &&& final(self).waiting() == old(self).waiting().remove(id)
                &&& final(self).ended() == old(self).ended().insert(
                    id,
                    if answer is Ok {
                        Outcome::Response
                    } else {
                        Outcome::ProtocolError
                    },
                )
            },
            r is None ==> final(self).ended() == old(self).ended() && final(self).waiting() == old(self).waiting(),
    {
        match answer {
            Ok(value) => match self.end(id, Outcome::Response) {
                Some(sink) => Some((sink, Ok(value))),
                None => None,
            },
            Err(e) => match self.end(id, Outcome::ProtocolError) {
                Some(sink) => Some((sink, Err(Error::Rpc(e)))),
                None => None,
            },
        }
    }

    /// Notes that the time for the request `id` is up.
    ///
    /// For a request in flight the result is its sink and the timeout to
    /// hand to it. For any other request nothing changes: its answer
    /// came first.
    pub fn expire(&mut self, id: u64) -> (r: Option<(S, Error)>)
        requires
            old(self).wf(),
        ensures
            final(self).wf(),
            final(self).started() == old(self).started(),
            r is Some <==> old(self).in_flight().contains(id),
            r matches Some(pair) ==> {
                &&& pair.0 == old(self).waiting()[id]
                &&& pair.1 == Error::Timeout(jsonrpc::Id::Num(id))
                &&& final(self).waiting() == old(self).waiting().remove(id)
                &&& final(self).ended() == old(self).ended().insert(id, Outcome::Timeout)
            },
            r is None ==> final(self).ended() == old(self).ended() && final(self).waiting() == old(self).waiting(),
    {
        match self.end(id, Outcome::Timeout) {
            Some(sink) => Some((sink, Error::Timeout(jsonrpc::Id::Num(id)))),
            None => None,
        }
    }

    /// Notes that whoever made the request `id` gave up waiting.
    ///
    /// The result says whether the server is to be told so: it is for a
    /// request in flight, whose sink is dropped. For any other request
    /// nothing changes.
    pub fn cancel(&mut self, id: u64) -> (notify: bool)
        requires
            old(self).wf(),
        ensures
            final(self).wf(),
            final(self).started() == old(self).started(),
            notify == old(self).in_flight().contains(id),
            notify ==> final(self).waiting() == old(self).waiting().remove(id) && final(self).ended() == old(self).ended().insert(id, Outcome::Cancelled),
            !notify ==> final(self).ended() == old(self).ended() && final(self).waiting() == old(self).waiting(),
    {
        self.end(id, Outcome::Cancelled).is_some()
    }

    /// The identifiers of the requests that wait, each once.
    fn waiting_ids(&self) -> (ids: Vec<u64>)
        ensures
            ids@.no_duplicates(),
            ids@.to_set() == self.pending@.dom(),
    {
        let mut ids: Vec<u64> = Vec::new();
        let ghost all = self.pending.keys().remaining().unref();
        for id in rest: self.pending.keys()
            invariant
                rest.seq().unref() == all,
                ids@ == all.take(rest.index() as int),
        {
            ids.push(*id);
            assert(ids@ =~= all.take(rest.index() + 1));
        }
        proof {
            assert(ids@ =~= all);
            let refs = self.pending.keys().remaining();
            assert forall|a: int, b: int|
                0 <= a < all.len() && 0 <= b < all.len() && a != b implies all[a] != all[b] by {
                assert(refs[a] != refs[b]);
            }
        }
        ids
    }

    /// Notes that the server closed its output.
    ///
    /// Every request in flight ends. The result holds the sink of each
    /// with its identifier; each is to be told that the stream was closed.
    pub fn close(&mut self) -> (sinks: Vec<(u64, S)>)
        requires
            old(self).wf(),
        ensures
            final(self).wf(),
            final(self).started() == old(self).started(),
            final(self).in_flight() =~= Set::<u64>::empty(),
            final(self).waiting() == Map::<u64, S>::empty(),
            forall|id: u64| #[trigger]
                final(self).ended().contains_key(id) <==> id < old(self).started(),
            forall|id: u64| #[trigger]
                final(self).ended().contains_key(id) ==> final(self).ended()[id] == (if old(self).ended().contains_key(id) {
                    old(self).ended()[id]
                } else {
                    Outcome::StreamClosed
                }),
            forall|i: int|
                0 <= i < sinks@.len() ==> old(self).in_flight().contains((#[trigger] sinks@[i]).0)
                    && old(self).waiting()[sinks@[i].0] == sinks@[i].1,
            forall|id: u64| #[trigger]
                old(self).in_flight().contains(id) ==> exists|i: int|
                    0 <= i < sinks@.len() && (#[trigger] sinks@[i]).0 == id,
    {
        let ids = self.waiting_ids();
        let ghost before = self.pending@;
        let mut sinks: Vec<(u64, S)> = Vec::new();
        let mut i: usize = 0;
        while i < ids.len()
            invariant
                i <= ids.len(),
                self.next == old(self).next,
                self.ended@ == old(self).ended@,
                before == old(self).pending@,
                old(self).wf(),
                ids@.no_duplicates(),
                ids@.to_set() == before.dom(),
                sinks@.len() == i,
                forall|j: int|
                    0 <= j < i ==> (#[trigger] sinks@[j]).0 == ids@[j] && sinks@[j].1
                        == before[ids@[j]],
                forall|id: u64|
                    self.pending@.contains_key(id) <==> exists|j: int|
                        i <= j < ids@.len() && #[trigger] ids@[j] == id,
                forall|id: u64| #[trigger]
                    self.pending@.contains_key(id) ==> self.pending@[id] == before[id],
            decreases ids.len() - i,
        {
            let id = ids[i];
            let ghost now = self.pending@;
            assert(now.contains_key(id)) by {
                assert(ids@[i as int] == id);
            }
            match self.pending.remove(&id) {
                Some(sink) => {
                    sinks.push((id, sink));
                },
                None => {},
            }
            proof {
                assert forall|k: u64|
                    self.pending@.contains_key(k) <==> exists|j: int|
                        i + 1 <= j < ids@.len() && #[trigger] ids@[j] == k by {
                    if self.pending@.contains_key(k) {
                        let j = choose|j: int| i <= j < ids@.len() && #[trigger] ids@[j] == k;
                        assert(j != i);
                    }
                    if exists|j: int| i + 1 <= j < ids@.len() && #[trigger] ids@[j] == k {
                        let j = choose|j: int| i + 1 <= j < ids@.len() && #[trigger] ids@[j] == k;
                        assert(ids@[j] != ids@[i as int]);
                        assert(now.contains_key(k));
                    }
                }
            }
            i += 1;
        }
        let ghost was = self.ended@;
        let ghost next = self.next;
        self.ended = Ghost(
            Map::new(
                |id: u64| id < next,
                |id: u64|
                    if was.contains_key(id) {
                        was[id]
                    } else {
                        Outcome::StreamClosed
                    },
            ),
        );
        proof {
            assert(self.pending@ =~= Map::<u64, S>::empty());
            assert(self.in_flight() =~= Set::<u64>::empty());
            assert forall|j: int| 0 <= j < sinks@.len() implies old(self).in_flight().contains(
                (#[trigger] sinks@[j]).0,
            ) && old(self).waiting()[sinks@[j].0] == sinks@[j].1 by {
                assert(ids@.to_set().contains(ids@[j]));
            }
            assert forall|id: u64| #[trigger] old(self).in_flight().contains(id) implies exists|
                j: int,
            | 0 <= j < sinks@.len() && (#[trigger] sinks@[j]).0 == id by {
                assert(ids@.to_set().contains(id));
                let j = choose|j: int| 0 <= j < ids@.len() && ids@[j] == id;
                assert(sinks@[j].0 == id);
            }
        }
        sinks
    }
}

} // verus!
