//! The table of requests that wait for their responses.
//!
//! Ids are handed out from a counter that starts at 0 and is never reset, so
//! no id is used twice by one table. Each waiting request holds a slot of
//! the caller's choosing (a channel sender, in a threaded client); a
//! response takes the slot out of the table as it is delivered, so no slot
//! is ever handed out twice.

use std::collections::HashMap;
use vstd::prelude::*;
use crate::error::{Error, ProtocolError};
use crate::jsonrpc::Request;

verus! {

broadcast use vstd::std_specs::hash::group_hash_axioms;

pub struct PendingTable<S> {
    next_id: u64,
    pending: HashMap<u64, S>,
}

/// What a decoded message from the server calls for: the slot to deliver it
/// to, `None` for a message that the server sent on its own, or the error
/// it is.
pub open spec fn routed<S>(waiting: Map<u64, S>, has_method: bool, id: Option<u64>) -> Result<
    Option<(u64, S)>,
    Error,
> {
    if has_method {
        Ok(None)
    } else {
        match id {
            None => Err(Error::Protocol(ProtocolError::MissingId)),
            Some(i) => if waiting.contains_key(i) {
                Ok(Some((i, waiting[i])))
            } else {
                Err(Error::Correlation(i))
            },
        }
    }
}

/// The requests still waiting after a message has been routed.
pub open spec fn after_route<S>(waiting: Map<u64, S>, has_method: bool, id: Option<u64>) -> Map<
    u64,
    S,
> {
    match routed(waiting, has_method, id) {
        Ok(Some((i, _))) => waiting.remove(i),
        _ => waiting,
    }
}

/// The outcomes of responses that arrive in `order`, one after the other,
/// starting from `waiting`.
pub open spec fn deliveries<S>(waiting: Map<u64, S>, order: Seq<u64>) -> Seq<
    Result<Option<(u64, S)>, Error>,
>
    decreases order.len(),
{
    if order.len() == 0 {
        seq![]
    } else {
        seq![routed(waiting, false, Some(order[0]))] + deliveries(
            after_route(waiting, false, Some(order[0])),
            order.drop_first(),
        )
    }
}

impl<S> PendingTable<S> {
    /// How many ids have been handed out; the next id is this number.
    pub closed spec fn issued(&self) -> nat {
        self.next_id as nat
    }

    /// The waiting requests, by id.
    pub closed spec fn waiting(&self) -> Map<u64, S> {
        self.pending@
    }

    /// Every waiting id was handed out before.
    pub closed spec fn wf(&self) -> bool {
        forall|i: u64| #[trigger] self.pending@.contains_key(i) ==> i < self.next_id
    }

    pub fn new() -> (r: PendingTable<S>)
        ensures
            r.wf(),
            r.issued() == 0,
            r.waiting() == Map::<u64, S>::empty(),
    {
        PendingTable { next_id: 0, pending: HashMap::new() }
    }

    /// Hands out the next id and files `slot` under it.
    pub fn register(&mut self, slot: S) -> (r: Result<u64, Error>)
        requires
            old(self).wf(),
        ensures
            final(self).wf(),
            match r {
                Ok(id) => {
                    &&& id == old(self).issued()
                    &&& !old(self).waiting().contains_key(id)
                    &&& final(self).issued() == old(self).issued() + 1
                    &&& final(self).waiting() == old(self).waiting().insert(id, slot)
                },
                Err(e) => {
                    &&& e == Error::IdsExhausted
                    &&& final(self).issued() == old(self).issued()
                    &&& final(self).waiting() == old(self).waiting()
                },
            },
            r is Err <==> old(self).issued() == u64::MAX,
    {
        if self.next_id == u64::MAX {
            return Err(Error::IdsExhausted);
        }
        let id = self.next_id;
        self.pending.insert(id, slot);
        self.next_id = id + 1;
        Ok(id)
    }

    /// Registers `slot` and builds the request that carries its id.
    pub fn issue<P>(&mut self, method: String, params: P, slot: S) -> (r: Result<Request<P>, Error>)
        requires
            old(self).wf(),
        ensures
            final(self).wf(),
            match r {
                Ok(req) => {
                    &&& req.id == Some(old(self).issued() as u64)
                    &&& req.method == method
                    &&& req.params == params
                    &&& !old(self).waiting().contains_key(old(self).issued() as u64)
                    &&& final(self).issued() == old(self).issued() + 1
                    &&& final(self).waiting() == old(self).waiting().insert(
                        old(self).issued() as u64,
                        slot,
                    )
                },
                Err(e) => {
                    &&& e == Error::IdsExhausted
                    &&& final(self).issued() == old(self).issued()
                    &&& final(self).waiting() == old(self).waiting()
                },
            },
            r is Err <==> old(self).issued() == u64::MAX,
    {
        let id = self.register(slot)?;
        Ok(Request::new(method, params, Some(id)))
    }

    /// Routes a decoded message, given whether it names a method and the
    /// integer id it carries, if any. A response for a waiting id takes that
    /// request's slot out of the table.
    pub fn route(&mut self, has_method: bool, id: Option<u64>) -> (r: Result<Option<(u64, S)>, Error>)
        requires
            old(self).wf(),
        ensures
            final(self).wf(),
            r == routed(old(self).waiting(), has_method, id),
            final(self).waiting() == after_route(old(self).waiting(), has_method, id),
            final(self).issued() == old(self).issued(),
    {
        if has_method {
            return Ok(None);
        }
        match id {
            None => Err(Error::Protocol(ProtocolError::MissingId)),
            Some(i) => match self.pending.remove(&i) {
                Some(slot) => Ok(Some((i, slot))),
                None => Err(Error::Correlation(i)),
            },
        }
    }

    /// Whether a request with this id still waits.
    pub fn is_waiting(&self, id: u64) -> (r: bool)
        ensures
            r == self.waiting().contains_key(id),
    {
        self.pending.contains_key(&id)
    }

    /// How many requests wait.
    pub fn in_flight(&self) -> (r: usize)
        ensures
            r == self.waiting().len(),
    {
        self.pending.len()
    }

    /// Takes every waiting slot out, for failing them all when the client
    /// stops. Ids handed out before stay used.
    pub fn close(&mut self) -> (r: HashMap<u64, S>)
        requires
            old(self).wf(),
        ensures
            final(self).wf(),
            r@ == old(self).waiting(),
            final(self).waiting() == Map::<u64, S>::empty(),
            final(self).issued() == old(self).issued(),
    {
        let mut taken: HashMap<u64, S> = HashMap::new();
        std::mem::swap(&mut taken, &mut self.pending);
        taken
    }
}

/// Responses to requests that wait, arriving in any order and each once,
/// reach exactly the slot filed under their own id, and leave the table
/// without those requests.
pub proof fn lemma_responses_reach_their_callers<S>(waiting: Map<u64, S>, order: Seq<u64>)
    requires
        order.no_duplicates(),
        forall|k: int| 0 <= k < order.len() ==> waiting.contains_key(#[trigger] order[k]),
    ensures
        deliveries(waiting, order).len() == order.len(),
        forall|k: int|
            0 <= k < order.len() ==> #[trigger] deliveries(waiting, order)[k] == Ok::<
                Option<(u64, S)>,
                Error,
            >(Some((order[k], waiting[order[k]]))),
    decreases order.len(),
{
    if order.len() > 0 {
        let first = order[0];
        let rest = order.drop_first();
        let next = waiting.remove(first);
        assert forall|k: int| 0 <= k < rest.len() implies next.contains_key(#[trigger] rest[k]) by {
            assert(rest[k] == order[k + 1]);
            assert(order[k + 1] != order[0]);
        }
        assert(rest.no_duplicates()) by {
            assert forall|i: int, j: int| 0 <= i < rest.len() && 0 <= j < rest.len() && i != j implies rest[i]
                != rest[j] by {
                assert(rest[i] == order[i + 1]);
                assert(rest[j] == order[j + 1]);
            }
        }
        lemma_responses_reach_their_callers(next, rest);
        assert forall|k: int| 0 <= k < order.len() implies #[trigger] deliveries(waiting, order)[k]
            == Ok::<Option<(u64, S)>, Error>(Some((order[k], waiting[order[k]]))) by {
            if k > 0 {
                assert(deliveries(waiting, order)[k] == deliveries(next, rest)[k - 1]);
                assert(rest[k - 1] == order[k]);
                assert(order[k] != first);
            }
        }
    }
}

} // verus!
