//! The client-side transport state: request correlation with a bounded
//! token pool for synchronous calls, a bounded callback table for
//! asynchronous calls, per-call timeouts, and the notice receiver.
//!
//! The socket, the condition variables and the periodic timer live with
//! the embedding program; every decision is here.  A synchronous call
//! takes one token (`begin_invoke`), sends its request, waits outside,
//! and gives the token back (`finish_invoke`); an asynchronous call
//! registers a callback record and completes on the matching response
//! or on a tick that finds it expired.

use futures::channel::mpsc::UnboundedSender;
use vstd::prelude::*;

use crate::codec::spec_decode_outcome;
use crate::oid::Context;
use crate::oid::Oid;
use crate::oid::ServantError;
use crate::oid::ServantErrorView;
use crate::servant::NotifyServant;
use crate::servant::Record;
use crate::servant::RecordView;
use crate::table::id_find;
use crate::table::id_keys_distinct;
use crate::table::id_map;
use crate::table::lemma_id_map_contains;
use crate::table::lemma_id_map_index;
use crate::table::lemma_id_map_push;
use crate::table::lemma_id_map_remove;

verus! {

/// One pending asynchronous call: when it started, how long it may
/// wait, and the id it addressed.  The completion function itself stays
/// with the embedding program, keyed by the request id.
pub struct CallbackRecord {
    pub start: u64,
    pub timeout_ms: u64,
    pub oid: Option<Oid>,
}

/// Whether a pending callback has outlived its timeout at `now_ms`.
pub open spec fn expired(rec: CallbackRecord, now_ms: u64) -> bool {
    rec.start + rec.timeout_ms <= now_ms
}

/// What the terminal decided about one received record.
pub enum Received {
    /// A notice was handed to the notify servant, or dropped without
    /// one; nothing else to do.
    Handled,
    /// A response matched a waiting synchronous call: take the entry's
    /// token slot, store `ret`, and wake the waiter.
    WakeToken { id: u64, ret: Result<Vec<u8>, ServantError> },
    /// A response matched a pending callback: run the completion
    /// function stored under `id` with these arguments.
    RunCallback { id: u64, oid: Option<Oid>, ret: Result<Vec<u8>, ServantError> },
    /// A response matched nothing; log and drop it.
    Unmatched { id: u64 },
    /// A report or a request arrived at the terminal: a protocol
    /// violation, fatal to the connection.
    Fatal,
}

/// The client-side handle of one connection.
pub struct Terminal<N> {
    addr: String,
    conn_id: Option<String>,
    req_id: u64,
    report_id: u64,
    invoke_timeout_ms: u64,
    sender: Option<UnboundedSender<Record>>,
    token_pool: usize,
    token_capacity: usize,
    token_map: Vec<(u64, ())>,
    max_count_of_callback: usize,
    callback_map: Vec<(u64, CallbackRecord)>,
    receiver: Option<N>,
}

impl<N: NotifyServant> Terminal<N> {
    /// How many tokens are free.
    pub closed spec fn pool(&self) -> int {
        self.token_pool as int
    }

    /// The fixed size of the token pool.
    pub closed spec fn capacity(&self) -> int {
        self.token_capacity as int
    }

    /// The ids of the synchronous calls in flight.
    pub closed spec fn tokens(&self) -> Set<u64> {
        id_map(self.token_map@).dom()
    }

    /// The pending asynchronous calls, by id.
    pub closed spec fn callbacks(&self) -> Map<u64, CallbackRecord> {
        id_map(self.callback_map@)
    }

    /// The capacity of the callback table.
    pub closed spec fn callback_capacity(&self) -> int {
        self.max_count_of_callback as int
    }

    /// How many callbacks are pending.
    pub closed spec fn callback_count(&self) -> int {
        self.callback_map@.len() as int
    }

    /// The highest request id handed out so far.
    pub closed spec fn last_req_id(&self) -> u64 {
        self.req_id
    }

    /// The highest report id handed out so far.
    pub closed spec fn last_report_id(&self) -> u64 {
        self.report_id
    }

    /// Whether an outbound channel is installed.
    pub closed spec fn connected(&self) -> bool {
        self.sender is Some
    }

    /// Whether a notify servant is installed.
    pub closed spec fn has_receiver(&self) -> bool {
        self.receiver is Some
    }

    /// The default timeout for synchronous calls.
    pub closed spec fn default_timeout(&self) -> u64 {
        self.invoke_timeout_ms
    }

    pub closed spec fn wf(&self) -> bool {
        &&& id_keys_distinct(self.token_map@)
        &&& id_keys_distinct(self.callback_map@)
        &&& forall|i: int, j: int|
            0 <= i < self.token_map@.len() && 0 <= j < self.callback_map@.len() ==> (
            #[trigger] self.token_map@[i].0) != (#[trigger] self.callback_map@[j].0)
        &&& forall|i: int|
            0 <= i < self.token_map@.len() ==> (#[trigger] self.token_map@[i].0)
                <= self.req_id
        &&& forall|i: int|
            0 <= i < self.callback_map@.len() ==> (#[trigger] self.callback_map@[i].0)
                <= self.req_id
        &&& self.token_pool <= self.token_capacity
        &&& self.callback_map@.len() <= self.max_count_of_callback
    }

    /// A fresh, unconnected terminal with a full token pool.
    pub fn new(
        addr: String,
        invoke_timeout_ms: u64,
        token_count_by_terminal: usize,
        max_count_of_callback: usize,
    ) -> (r: Self)
        ensures
            r.wf(),
            r.pool() == token_count_by_terminal,
            r.capacity() == token_count_by_terminal,
            r.tokens() == Set::<u64>::empty(),
            r.callbacks() == Map::<u64, CallbackRecord>::empty(),
            r.callback_capacity() == max_count_of_callback,
            r.last_req_id() == 0,
            r.last_report_id() == 0,
            !r.connected(),
            !r.has_receiver(),
            r.default_timeout() == invoke_timeout_ms,
    {
        let r = Terminal {
            addr,
            conn_id: None,
            req_id: 0,
            report_id: 0,
            invoke_timeout_ms,
            sender: None,
            token_pool: token_count_by_terminal,
            token_capacity: token_count_by_terminal,
            token_map: Vec::new(),
            max_count_of_callback,
            callback_map: Vec::new(),
            receiver: None,
        };
        proof {
            assert(r.tokens() =~= Set::<u64>::empty());
            assert(r.callbacks() =~= Map::<u64, CallbackRecord>::empty());
        }
        r
    }

    /// Drops the outbound channel; the connection's scope guard calls
    /// this when the loop exits.
    pub fn clean(&mut self)
        requires
            old(self).wf(),
        ensures
            final(self).wf(),
            !final(self).connected(),
            final(self).pool() == old(self).pool(),
            final(self).capacity() == old(self).capacity(),
            final(self).callback_capacity() == old(self).callback_capacity(),
            final(self).tokens() == old(self).tokens(),
            final(self).callbacks() == old(self).callbacks(),
            final(self).last_req_id() == old(self).last_req_id(),
    {
        let _ = self.sender.take();
    }

    /// Installs the notice sink.
    pub fn set_receiver(&mut self, receiver: N)
        requires
            old(self).wf(),
        ensures
            final(self).wf(),
            final(self).has_receiver(),
            final(self).pool() == old(self).pool(),
            final(self).capacity() == old(self).capacity(),
            final(self).callback_capacity() == old(self).callback_capacity(),
            final(self).tokens() == old(self).tokens(),
            final(self).callbacks() == old(self).callbacks(),
            final(self).connected() == old(self).connected(),
            final(self).last_req_id() == old(self).last_req_id(),
    {
        self.receiver = Some(receiver);
    }

    /// Installs (or clears) the outbound channel.
    pub fn set_tx(&mut self, tx: Option<UnboundedSender<Record>>)
        requires
            old(self).wf(),
        ensures
            final(self).wf(),
            final(self).connected() == (tx is Some),
            final(self).pool() == old(self).pool(),
            final(self).capacity() == old(self).capacity(),
            final(self).callback_capacity() == old(self).callback_capacity(),
            final(self).tokens() == old(self).tokens(),
            final(self).callbacks() == old(self).callbacks(),
            final(self).last_req_id() == old(self).last_req_id(),
    {
        self.sender = tx;
    }

    /// Records the local address of the connected socket.
    pub fn set_conn_id(&mut self, id: String)
        requires
            old(self).wf(),
        ensures
            final(self).wf(),
            final(self).pool() == old(self).pool(),
            final(self).tokens() == old(self).tokens(),
            final(self).callbacks() == old(self).callbacks(),
            final(self).connected() == old(self).connected(),
    {
        self.conn_id = Some(id);
    }

    /// How many request ids have been handed out now.
    pub fn requests_made(&self) -> (r: u64)
        ensures
            r == self.last_req_id(),
    {
        self.req_id
    }

    /// How many report ids have been handed out now.
    pub fn reports_made(&self) -> (r: u64)
        ensures
            r == self.last_report_id(),
    {
        self.report_id
    }

    /// How many tokens are free now.
    pub fn pool_size(&self) -> (r: usize)
        ensures
            r == self.pool(),
    {
        self.token_pool
    }

    /// How many callbacks are pending now.
    pub fn pending_callbacks(&self) -> (r: usize)
        ensures
            r == self.callback_count(),
    {
        self.callback_map.len()
    }

    /// Whether an outbound channel is installed now.
    pub fn is_connected(&self) -> (r: bool)
        ensures
            r == self.connected(),
    {
        self.sender.is_some()
    }

    /// The cached local address of the current socket, if any.
    pub fn conn_id(&self) -> (r: Option<String>) {
        match &self.conn_id {
            Some(s) => Some(s.clone()),
            None => None,
        }
    }

    /// The address this terminal connects to.
    pub closed spec fn spec_address(&self) -> Seq<char> {
        self.addr@
    }

    /// The configured address this terminal connects to.
    pub fn address(&self) -> (r: &str)
        ensures
            r@ == self.spec_address(),
    {
        self.addr.as_str()
    }

    /// The effective timeout of a call: the context's, or the default.
    pub fn timeout_value_in_context(&self, ctx: &Option<Context>) -> (r: u64)
        ensures
            r == (match ctx {
                Some(c) => match c.timeout_millisecond {
                    Some(t) => t,
                    None => self.default_timeout(),
                },
                None => self.default_timeout(),
            }),
    {
        match ctx {
            Some(c) => match c.timeout_millisecond {
                Some(t) => t,
                None => self.invoke_timeout_ms,
            },
            None => self.invoke_timeout_ms,
        }
    }

    /// Sends a fire-and-forget report.  The report counter always
    /// advances; without an installed channel the call fails and the
    /// caller may reconnect and try again.
    pub fn report(&mut self, oid: Oid, msg: Vec<u8>) -> (r: Result<(), ServantError>)
        requires
            old(self).wf(),
            old(self).last_report_id() < u64::MAX,
        ensures
            final(self).wf(),
            final(self).last_report_id() == old(self).last_report_id() + 1,
            final(self).last_req_id() == old(self).last_req_id(),
            final(self).pool() == old(self).pool(),
            final(self).capacity() == old(self).capacity(),
            final(self).callback_capacity() == old(self).callback_capacity(),
            final(self).tokens() == old(self).tokens(),
            final(self).callbacks() == old(self).callbacks(),
            final(self).connected() == old(self).connected(),
            !old(self).connected() ==> (r matches Err(e) && e@ == ServantErrorView::Other(
                "sender is none."@,
            )),
            old(self).connected() ==> (r matches Err(e) ==> e@ == ServantErrorView::Other(
                "send failed."@,
            )),
            r is Ok ==> old(self).connected(),
    {
        self.report_id = self.report_id + 1;
        let record = Record::Report { id: self.report_id, oid, msg };
        match &self.sender {
            None => Err(ServantError::other("sender is none.")),
            Some(tx) => {
                if crate::adapter::channel_send(tx, record) {
                    Ok(())
                } else {
                    Err(ServantError::other("send failed."))
                }
            },
        }
    }

    /// Starts a synchronous call: takes one token from the pool and
    /// registers a fresh request id for it.  With the pool empty the
    /// call fails at once, changing nothing.
    pub fn begin_invoke(&mut self, ctx: &Option<Context>) -> (r: Result<(u64, u64), ServantError>)
        requires
            old(self).wf(),
            old(self).last_req_id() < u64::MAX,
        ensures
            final(self).wf(),
            final(self).capacity() == old(self).capacity(),
            final(self).callback_capacity() == old(self).callback_capacity(),
            final(self).callbacks() == old(self).callbacks(),
            final(self).connected() == old(self).connected(),
            old(self).pool() == 0 ==> (r matches Err(e) && e@ == ServantErrorView::Other(
                "token pool is empty."@,
            )) && final(self).pool() == old(self).pool() && final(self).tokens() == old(self).tokens() && final(self).last_req_id() == old(self).last_req_id(),
            old(self).pool() > 0 ==> (r matches Ok(p) && p.0 == old(self).last_req_id() + 1 && p.1
                == (match ctx {
                Some(c) => match c.timeout_millisecond {
                    Some(t) => t,
                    None => old(self).default_timeout(),
                },
                None => old(self).default_timeout(),
            })) && final(self).pool() == old(self).pool() - 1 && final(self).tokens() == old(self).tokens().insert((old(self).last_req_id() + 1) as u64) && final(self).last_req_id()
                == old(self).last_req_id() + 1,
    {
        if self.token_pool == 0 {
            return Err(ServantError::other("token pool is empty."));
        }
        let timeout_ms = self.timeout_value_in_context(ctx);
        self.token_pool = self.token_pool - 1;
        self.req_id = self.req_id + 1;
        let id = self.req_id;
        let ghost pre = self.token_map@;
        proof {
            lemma_id_map_contains(pre, id);
        }
        self.token_map.push((id, ()));
        proof {
            lemma_id_map_push(pre, id, ());
            assert forall|j1: int, j2: int|
                0 <= j1 < self.token_map@.len() && 0 <= j2 < self.token_map@.len() && j1 != j2
                implies (#[trigger] self.token_map@[j1].0) != (
            #[trigger] self.token_map@[j2].0) by {
                if j1 == self.token_map@.len() - 1 {
                    assert(pre[j2] == self.token_map@[j2]);
                } else if j2 == self.token_map@.len() - 1 {
                    assert(pre[j1] == self.token_map@[j1]);
                } else {
                    assert(pre[j1] == self.token_map@[j1] && pre[j2] == self.token_map@[j2]);
                }
            }
            assert(self.tokens() =~= old(self).tokens().insert(id));
        }
        Ok((id, timeout_ms))
    }

    /// Builds and sends the request record of a call already begun.
    /// Failure leaves every table as it is; for a synchronous call the
    /// caller then finishes the invoke without waiting.
    pub fn send_request(
        &mut self,
        id: u64,
        ctx: Option<Context>,
        oid: Option<Oid>,
        req: Vec<u8>,
    ) -> (r: bool)
        requires
            old(self).wf(),
        ensures
            final(self).wf(),
            final(self).pool() == old(self).pool(),
            final(self).capacity() == old(self).capacity(),
            final(self).callback_capacity() == old(self).callback_capacity(),
            final(self).tokens() == old(self).tokens(),
            final(self).callbacks() == old(self).callbacks(),
            final(self).connected() == old(self).connected(),
            final(self).last_req_id() == old(self).last_req_id(),
            !old(self).connected() ==> !r,
            r ==> old(self).connected(),
    {
        let record = Record::Request { id, ctx, oid, req };
        match &self.sender {
            None => false,
            Some(tx) => crate::adapter::channel_send(tx, record),
        }
    }

    /// Finishes a synchronous call on any outcome: the token returns to
    /// the pool, and the id leaves the token map if a response has not
    /// already taken it out.
    pub fn finish_invoke(&mut self, id: u64)
        requires
            old(self).wf(),
            old(self).pool() < old(self).capacity(),
        ensures
            final(self).wf(),
            final(self).pool() == old(self).pool() + 1,
            final(self).capacity() == old(self).capacity(),
            final(self).callback_capacity() == old(self).callback_capacity(),
            final(self).tokens() == old(self).tokens().remove(id),
            final(self).callbacks() == old(self).callbacks(),
            final(self).connected() == old(self).connected(),
            final(self).last_req_id() == old(self).last_req_id(),
    {
        let ghost pre = self.token_map@;
        proof {
            lemma_id_map_contains(pre, id);
        }
        match id_find(&self.token_map, id) {
            Some(i) => {
                proof {
                    lemma_id_map_remove(pre, i as int);
                }
                let _ = self.token_map.remove(i);
            },
            None => {
                proof {
                    assert(self.tokens() =~= old(self).tokens().remove(id));
                }
            },
        }
        self.token_pool = self.token_pool + 1;
    }

    /// Starts an asynchronous call: registers a callback record under a
    /// fresh id and sends the request.  With the callback table full the
    /// call fails at once; with the send failing the record is taken out
    /// again and the call fails.  The completion function itself stays
    /// with the caller, keyed by the returned id.
    pub fn invoke_with_callback(
        &mut self,
        ctx: Option<Context>,
        oid: Option<Oid>,
        req: Vec<u8>,
        now_ms: u64,
    ) -> (r: Result<u64, ServantError>)
        requires
            old(self).wf(),
            old(self).last_req_id() < u64::MAX,
        ensures
            final(self).wf(),
            final(self).pool() == old(self).pool(),
            final(self).capacity() == old(self).capacity(),
            final(self).callback_capacity() == old(self).callback_capacity(),
            final(self).tokens() == old(self).tokens(),
            final(self).connected() == old(self).connected(),
            old(self).callback_count() >= old(self).callback_capacity() ==> (r matches Err(
                e,
            ) && e@ == ServantErrorView::Other("callback map is full."@)) && final(self).callbacks() == old(self).callbacks() && final(self).last_req_id() == old(self).last_req_id(),
            old(self).callback_count() < old(self).callback_capacity() ==> final(self).last_req_id() == old(self).last_req_id() + 1,
            (old(self).callback_count() < old(self).callback_capacity() && r is Err) ==> (
            r matches Err(e) && e@ == ServantErrorView::Other("send failed."@)) && final(self).callbacks() == old(self).callbacks(),
            (old(self).callback_count() < old(self).callback_capacity() && !old(self).connected()) ==> r is Err,
            r is Ok ==> old(self).connected(),
            r matches Ok(id) ==> id == old(self).last_req_id() + 1 && final(self).last_req_id()
                == id && final(self).callbacks().contains_key(id) && final(self).callbacks().remove(id) == old(self).callbacks() && ({
                let rec = final(self).callbacks()[id];
                rec.start == now_ms && rec.timeout_ms == (match ctx {
                    Some(c) => match c.timeout_millisecond {
                        Some(t) => t,
                        None => old(self).default_timeout(),
                    },
                    None => old(self).default_timeout(),
                })
            }),
            (r is Err && old(self).callback_count() < old(self).callback_capacity()) ==> final(self).callbacks() == old(self).callbacks(),
    {
        if self.callback_map.len() >= self.max_count_of_callback {
            return Err(ServantError::other("callback map is full."));
        }
        self.req_id = self.req_id + 1;
        let id = self.req_id;
        let timeout_ms = self.timeout_value_in_context(&ctx);
        let oid2 = match &oid {
            Some(o) => Some(o.clone()),
            None => None,
        };
        let ghost pre = self.callback_map@;
        proof {
            lemma_id_map_contains(pre, id);
        }
        self.callback_map.push(
            (id, CallbackRecord { start: now_ms, timeout_ms, oid: oid2 }),
        );
        proof {
            lemma_id_map_push(pre, id, self.callback_map@.last().1);
            assert forall|j1: int, j2: int|
                0 <= j1 < self.callback_map@.len() && 0 <= j2 < self.callback_map@.len() && j1 != j2
                implies (#[trigger] self.callback_map@[j1].0) != (
            #[trigger] self.callback_map@[j2].0) by {
                if j1 == self.callback_map@.len() - 1 {
                    assert(pre[j2] == self.callback_map@[j2]);
                } else if j2 == self.callback_map@.len() - 1 {
                    assert(pre[j1] == self.callback_map@[j1]);
                } else {
                    assert(pre[j1] == self.callback_map@[j1] && pre[j2] == self.callback_map@[j2]);
                }
            }
            assert(self.callbacks().remove(id) =~= old(self).callbacks());
        }
        let sent = self.send_request(id, ctx, oid, req);
        if sent {
            Ok(id)
        } else {
            let ghost mid = self.callback_map@;
            proof {
                lemma_id_map_contains(mid, id);
            }
            match id_find(&self.callback_map, id) {
                Some(i) => {
                    proof {
                        lemma_id_map_remove(mid, i as int);
                    }
                    let _ = self.callback_map.remove(i);
                },
                None => {
                    proof {
                        assert(id_map(mid).contains_key(id));
                        assert(false);
                    }
                },
            }
            proof {
                assert(self.callbacks() =~= old(self).callbacks());
            }
            Err(ServantError::other("send failed."))
        }
    }

    /// Takes one received record and decides its completion.  A notice
    /// goes to the notify servant.  A response wakes the matching
    /// synchronous waiter, or yields the matching callback's arguments;
    /// an id matching neither — a late response after its timeout — is
    /// reported unmatched.  A report or request here is fatal.
    pub fn received(&mut self, record: Record) -> (r: Received)
        requires
            old(self).wf(),
        ensures
            final(self).wf(),
            final(self).pool() == old(self).pool(),
            final(self).capacity() == old(self).capacity(),
            final(self).callback_capacity() == old(self).callback_capacity(),
            final(self).connected() == old(self).connected(),
            final(self).last_req_id() == old(self).last_req_id(),
            (record@ is Notice) ==> r is Handled && final(self).tokens() == old(self).tokens()
                && final(self).callbacks() == old(self).callbacks(),
            (record@ is Report || record@ is Request) ==> r is Fatal && final(self).tokens() == old(self).tokens() && final(self).callbacks() == old(self).callbacks(),
            ({
                match record@ {
                    RecordView::Response { id, oid, ret } => {
                if old(self).tokens().contains(id) {
                    &&& r matches Received::WakeToken { id: rid, ret: rr } && rid == id && (
                    match spec_decode_outcome(ret) {
                        Some(v) => (rr matches Ok(b) && v == Ok::<Seq<u8>, ServantErrorView>(b@))
                            || (rr matches Err(e) && v == Err::<Seq<u8>, ServantErrorView>(e@)),
                        None => rr is Err,
                    })
                    &&& final(self).tokens() == old(self).tokens().remove(id)
                    &&& final(self).callbacks() == old(self).callbacks()
                } else if old(self).callbacks().contains_key(id) {
                    &&& r matches Received::RunCallback { id: rid, oid: roid, ret: rr } && rid
                        == id
                    &&& final(self).callbacks() == old(self).callbacks().remove(id)
                    &&& final(self).tokens() == old(self).tokens()
                } else {
                    &&& r matches Received::Unmatched { id: rid } && rid == id
                    &&& final(self).tokens() == old(self).tokens()
                    &&& final(self).callbacks() == old(self).callbacks()
                }
                    },
                    _ => true,
                }
            }),
    {
        match record {
            Record::Notice { id: _, msg } => {
                match self.receiver.take() {
                    Some(mut n) => {
                        n.serve(msg);
                        self.receiver = Some(n);
                    },
                    None => {
                    },
                }
                Received::Handled
            },
            Record::Response { id, oid: _, ret } => {
                let outcome: Result<Vec<u8>, ServantError> = match crate::codec::decode_outcome(
                    &ret,
                ) {
                    Some(v) => v,
                    None => Err(ServantError::other("ret decode failed.")),
                };
                let ghost pre_tok = self.token_map@;
                let ghost pre_cb = self.callback_map@;
                proof {
                    lemma_id_map_contains(pre_tok, id);
                    lemma_id_map_contains(pre_cb, id);
                }
                match id_find(&self.token_map, id) {
                    Some(i) => {
                        proof {
                            lemma_id_map_remove(pre_tok, i as int);
                        }
                        let _ = self.token_map.remove(i);
                        proof {
                            assert(old(self).tokens().contains(id));
                        }
                        Received::WakeToken { id, ret: outcome }
                    },
                    None => {
                        match id_find(&self.callback_map, id) {
                            Some(i) => {
                                proof {
                                    lemma_id_map_remove(pre_cb, i as int);
                                    lemma_id_map_index(pre_cb, i as int);
                                }
                                let entry = self.callback_map.remove(i);
                                Received::RunCallback { id, oid: entry.1.oid, ret: outcome }
                            },
                            None => Received::Unmatched { id },
                        }
                    },
                }
            },
            Record::Report { id: _, oid: _, msg: _ } => Received::Fatal,
            Record::Request { id: _, ctx: _, oid: _, req: _ } => Received::Fatal,
        }
    }

    /// Applies a proxy builder to this terminal: glue for generated
    /// proxies.
    pub fn proxy<T, F: FnOnce(&str, &Terminal<N>) -> T>(&self, name: &str, f: F) -> (r: T)
        requires
            call_requires(f, (name, self)),
        ensures
            call_ensures(f, (name, self), r),
    {
        f(name, self)
    }

    /// Applies a proxy builder with a fixed per-call context.
    pub fn proxy_with_context<T, F: FnOnce(Context, &str, &Terminal<N>) -> T>(
        &self,
        ctx: Context,
        name: &str,
        f: F,
    ) -> (r: T)
        requires
            call_requires(f, (ctx, name, self)),
        ensures
            call_ensures(f, (ctx, name, self), r),
    {
        f(ctx, name, self)
    }

    /// Finds one expired callback, takes it out of the table, and
    /// yields its id and addressed id; `None` when nothing has expired.
    #[verifier::loop_isolation(false)]
    fn pop_expired(&mut self, now_ms: u64) -> (r: Option<(u64, Option<Oid>)>)
        requires
            old(self).wf(),
        ensures
            final(self).wf(),
            final(self).pool() == old(self).pool(),
            final(self).tokens() == old(self).tokens(),
            final(self).connected() == old(self).connected(),
            final(self).last_req_id() == old(self).last_req_id(),
            final(self).capacity() == old(self).capacity(),
            final(self).callback_capacity() == old(self).callback_capacity(),
            r matches Some(p) ==> old(self).callbacks().contains_key(p.0) && expired(
                old(self).callbacks()[p.0],
                now_ms,
            ) && p.1 == old(self).callbacks()[p.0].oid && final(self).callbacks() == old(self).callbacks().remove(p.0) && final(self).callback_count() == old(self).callback_count() - 1,
            r is None ==> final(self).callbacks() == old(self).callbacks() && final(self).callback_count() == old(self).callback_count() && (forall|k: u64|
                #[trigger] old(self).callbacks().contains_key(k) ==> !expired(
                    old(self).callbacks()[k],
                    now_ms,
                )),
    {
        let ghost pre = self.callback_map@;
        let mut i: usize = 0;
        while i < self.callback_map.len()
            invariant
                *self == *old(self),
                i <= pre.len(),
                forall|j: int| 0 <= j < i ==> !expired((#[trigger] pre[j]).1, now_ms),
            decreases pre.len() - i,
        {
            let start = self.callback_map[i].1.start;
            let timeout_ms = self.callback_map[i].1.timeout_ms;
            if start <= now_ms && now_ms - start >= timeout_ms {
                proof {
                    lemma_id_map_index(pre, i as int);
                    lemma_id_map_remove(pre, i as int);
                }
                let entry = self.callback_map.remove(i);
                proof {
                    let cur = self.callback_map@;
                    assert(cur == pre.remove(i as int));
                    assert(cur.len() == pre.len() - 1);
                    assert forall|i2: int, j2: int|
                        0 <= i2 < self.token_map@.len() && 0 <= j2 < cur.len() implies (
                    #[trigger] self.token_map@[i2].0) != (#[trigger] cur[j2].0) by {
                        let jo = if j2 < i as int {
                            j2
                        } else {
                            j2 + 1
                        };
                        assert(cur[j2] == pre[jo]);
                        assert(cur[j2].0 == pre[jo].0);
                        assert(self.token_map@[i2].0 != pre[jo].0);
                    }
                    assert forall|j2: int| 0 <= j2 < cur.len() implies (#[trigger] cur[j2].0)
                        <= self.req_id by {
                        let jo = if j2 < i as int {
                            j2
                        } else {
                            j2 + 1
                        };
                        assert(cur[j2] == pre[jo]);
                        assert(cur[j2].0 == pre[jo].0);
                        assert(pre[jo].0 <= self.req_id);
                    }
                }
                return Some((entry.0, entry.1.oid));
            }
            i = i + 1;
        }
        proof {
            assert(self.callback_map@ == pre);
            assert forall|k: u64| #[trigger] id_map(pre).contains_key(k) implies !expired(
                id_map(pre)[k],
                now_ms,
            ) by {
                lemma_id_map_contains(pre, k);
                let j = choose|j: int| 0 <= j < pre.len() && (#[trigger] pre[j].0) == k;
                lemma_id_map_index(pre, j);
            }
        }
        None
    }

    /// The periodic tick: takes every expired callback out of the table
    /// and yields their ids and addressed ids, for the embedding program
    /// to complete each with a timeout error.
    pub fn tick(&mut self, now_ms: u64) -> (r: Vec<(u64, Option<Oid>)>)
        requires
            old(self).wf(),
        ensures
            final(self).wf(),
            final(self).pool() == old(self).pool(),
            final(self).capacity() == old(self).capacity(),
            final(self).callback_capacity() == old(self).callback_capacity(),
            final(self).tokens() == old(self).tokens(),
            final(self).connected() == old(self).connected(),
            final(self).last_req_id() == old(self).last_req_id(),
            forall|i: int|
                0 <= i < r@.len() ==> (#[trigger] r@[i]).1 == old(self).callbacks()[r@[i].0].oid,
            forall|i: int, j: int|
                0 <= i < r@.len() && 0 <= j < r@.len() && i != j ==> (#[trigger] r@[i]).0 != (
                #[trigger] r@[j]).0,
            forall|k: u64|
                #[trigger] final(self).callbacks().contains_key(k) ==> old(self).callbacks().contains_key(k) && final(self).callbacks()[k] == old(self).callbacks()[k] && !expired(old(self).callbacks()[k], now_ms),
            forall|k: u64|
                #[trigger] old(self).callbacks().contains_key(k) && !expired(
                    old(self).callbacks()[k],
                    now_ms,
                ) ==> final(self).callbacks().contains_key(k),
            forall|i: int|
                0 <= i < r@.len() ==> old(self).callbacks().contains_key((#[trigger] r@[i]).0)
                    && expired(old(self).callbacks()[r@[i].0], now_ms),
            forall|k: u64|
                #[trigger] old(self).callbacks().contains_key(k) && expired(
                    old(self).callbacks()[k],
                    now_ms,
                ) ==> exists|i: int| 0 <= i < r@.len() && (#[trigger] r@[i]).0 == k,
    {
        let mut fired: Vec<(u64, Option<Oid>)> = Vec::new();
        let mut done = false;
        while !done
            invariant
                self.wf(),
                self.pool() == old(self).pool(),
                self.capacity() == old(self).capacity(),
                self.callback_capacity() == old(self).callback_capacity(),
                self.tokens() == old(self).tokens(),
                self.connected() == old(self).connected(),
                self.last_req_id() == old(self).last_req_id(),
                forall|k: u64|
                    #[trigger] self.callbacks().contains_key(k) ==> old(self).callbacks().contains_key(k) && self.callbacks()[k] == old(self).callbacks()[k],
                forall|k: u64|
                    #[trigger] old(self).callbacks().contains_key(k) && !expired(
                        old(self).callbacks()[k],
                        now_ms,
                    ) ==> self.callbacks().contains_key(k),
                forall|i: int|
                    0 <= i < fired@.len() ==> old(self).callbacks().contains_key((
                    #[trigger] fired@[i]).0) && expired(old(self).callbacks()[fired@[i].0], now_ms)
                        && fired@[i].1 == old(self).callbacks()[fired@[i].0].oid,
                forall|i: int|
                    0 <= i < fired@.len() ==> !self.callbacks().contains_key((
                    #[trigger] fired@[i]).0),
                forall|i: int, j: int|
                    0 <= i < fired@.len() && 0 <= j < fired@.len() && i != j ==> (
                    #[trigger] fired@[i]).0 != (#[trigger] fired@[j]).0,
                forall|k: u64|
                    #[trigger] old(self).callbacks().contains_key(k)
                        && !self.callbacks().contains_key(k) ==> exists|i: int|
                        0 <= i < fired@.len() && (#[trigger] fired@[i]).0 == k,
                done ==> forall|k: u64|
                    #[trigger] self.callbacks().contains_key(k) ==> !expired(
                        self.callbacks()[k],
                        now_ms,
                    ),
            decreases (if done {
                0int
            } else {
                self.callback_count() + 1
            }),
        {
            let ghost snap = *self;
            match self.pop_expired(now_ms) {
                None => {
                    done = true;
                },
                Some(p) => {
                    let ghost fired_pre = fired@;
                    fired.push(p);
                    proof {
                        assert(snap.callbacks().contains_key(p.0));
                        assert(old(self).callbacks().contains_key(p.0) && old(self).callbacks()[p.0] == snap.callbacks()[p.0]);
                        assert forall|k: u64|
                            #[trigger] old(self).callbacks().contains_key(k)
                                && !self.callbacks().contains_key(k) implies exists|i: int|
                            0 <= i < fired@.len() && (#[trigger] fired@[i]).0 == k by {
                            if k == p.0 {
                                assert(fired@[fired@.len() - 1].0 == k);
                            } else {
                                assert(snap.callbacks().contains_key(k)
                                    == self.callbacks().contains_key(k));
                                let i = choose|i: int|
                                    0 <= i < fired_pre.len() && (#[trigger] fired_pre[i]).0 == k;
                                assert(fired@[i].0 == k);
                            }
                        }
                    }
                },
            }
        }
        fired
    }
}


/// The free tokens never exceed the pool's fixed capacity: after
/// `begin_invoke` takes a token the pool sits strictly below capacity,
/// which is exactly what `finish_invoke` asks for.
pub proof fn law_pool_bounds<N: NotifyServant>(t: &Terminal<N>)
    requires
        t.wf(),
    ensures
        0 <= t.pool() <= t.capacity(),
{
}

/// An id is pending in at most one of the token map and the callback
/// map: a response is completed exactly once.
pub proof fn law_correlation_unique<N: NotifyServant>(t: Terminal<N>, id: u64)
    requires
        t.wf(),
    ensures
        !(t.tokens().contains(id) && t.callbacks().contains_key(id)),
{
    if t.tokens().contains(id) && t.callbacks().contains_key(id) {
        lemma_id_map_contains(t.token_map@, id);
        lemma_id_map_contains(t.callback_map@, id);
        let i = choose|i: int| 0 <= i < t.token_map@.len() && (#[trigger] t.token_map@[i].0) == id;
        let j = choose|j: int|
            0 <= j < t.callback_map@.len() && (#[trigger] t.callback_map@[j].0) == id;
        assert(t.token_map@[i].0 != t.callback_map@[j].0);
        assert(false);
    }
}

/// A synchronous call restores the token pool: `begin_invoke` takes one
/// token and `finish_invoke` gives one back, whatever happened between
/// them.
pub proof fn law_token_pool_restored<N: NotifyServant>(
    before: Terminal<N>,
    during: Terminal<N>,
    after: Terminal<N>,
)
    requires
        during.pool() == before.pool() - 1,
        after.pool() == during.pool() + 1,
    ensures
        after.pool() == before.pool(),
{
}

} // verus!
