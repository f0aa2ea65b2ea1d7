//! The server side of one connection, and the process-wide register of
//! accepted connections.
//!
//! The adapter's event loop itself performs socket I/O and lives with
//! the embedding program; everything it decides is here: the bounded
//! admission counter, the dispatch of an incoming record to the right
//! servant, and the synthesized reply when admission is exhausted.

use futures::channel::mpsc::UnboundedSender;
use vstd::prelude::*;

use crate::codec::encode_outcome;
use crate::codec::spec_encode_outcome;
use crate::oid::Oid;
use crate::oid::ServantError;
use crate::oid::ServantErrorView;
use crate::registry::ServantRegister;
use crate::servant::Record;
use crate::servant::RecordView;
use crate::servant::Rehydrator;
use crate::servant::Servant;
use crate::servant::ReportServant;
use crate::servant::WatchServant;
use crate::table::lemma_str_map_contains;
use crate::table::lemma_str_map_index;
use crate::table::lemma_str_map_push;
use crate::table::lemma_str_map_remove;
use crate::table::str_find;
use crate::table::str_keys_distinct;
use crate::table::str_map;

verus! {

/// The channel sender of the `futures` crate, so that the register can
/// hold the outbound channel of every accepted connection.
#[verifier::external_type_specification]
#[verifier::external_body]
#[verifier::reject_recursive_types(T)]
pub struct ExUnboundedSender<T>(UnboundedSender<T>);

/// Relies on `UnboundedSender::unbounded_send`: queues one value on the
/// in-memory channel, failing only when the receiving side is gone.
/// Nothing is assumed about the channel's state.
#[verifier::external_body]
pub(crate) fn channel_send<T>(tx: &UnboundedSender<T>, value: T) -> (ok: bool) {
    tx.unbounded_send(value).is_ok()
}

/// The process-wide table of accepted connections: peer address to
/// outbound channel, a monotonic notice counter, and the accept loop's
/// shutdown channel.
pub struct AdapterRegister {
    id: u64,
    accept_tx: Option<UnboundedSender<()>>,
    senders: Vec<(String, UnboundedSender<Record>)>,
}

impl AdapterRegister {
    /// The addresses of the registered connections.
    pub closed spec fn connections(&self) -> Set<Seq<char>> {
        str_map(self.senders@).dom()
    }

    /// How many connections are registered.
    pub closed spec fn connection_count(&self) -> nat {
        self.senders@.len()
    }

    /// The notice counter: how many notices have been broadcast.
    pub closed spec fn notice_count(&self) -> u64 {
        self.id
    }

    /// Whether the accept loop's shutdown channel is wired.
    pub closed spec fn has_accept(&self) -> bool {
        self.accept_tx is Some
    }

    pub closed spec fn wf(&self) -> bool {
        str_keys_distinct(self.senders@)
    }

    pub fn new() -> (r: Self)
        ensures
            r.wf(),
            r.connections() == Set::<Seq<char>>::empty(),
            r.connection_count() == 0,
            r.notice_count() == 0,
            !r.has_accept(),
    {
        let r = AdapterRegister { id: 0, accept_tx: None, senders: Vec::new() };
        proof {
            assert(r.connections() =~= Set::<Seq<char>>::empty());
        }
        r
    }

    /// Drops the accept channel and clears the sender table; the
    /// server's shutdown path.
    pub fn clean(&mut self)
        requires
            old(self).wf(),
        ensures
            final(self).wf(),
            final(self).connections() == Set::<Seq<char>>::empty(),
            final(self).connection_count() == 0,
            !final(self).has_accept(),
            final(self).notice_count() == old(self).notice_count(),
    {
        let _ = self.accept_tx.take();
        self.senders.clear();
        proof {
            assert(self.connections() =~= Set::<Seq<char>>::empty());
        }
    }

    /// How many notices have been broadcast now.
    pub fn notices_sent(&self) -> (r: u64)
        ensures
            r == self.notice_count(),
    {
        self.id
    }

    pub fn count(&self) -> (r: usize)
        requires
            self.wf(),
        ensures
            r == self.connection_count(),
    {
        self.senders.len()
    }

    /// Wires the accept loop's shutdown channel.
    pub fn set_accept(&mut self, tx: UnboundedSender<()>)
        requires
            old(self).wf(),
        ensures
            final(self).wf(),
            final(self).has_accept(),
            final(self).connections() == old(self).connections(),
            final(self).connection_count() == old(self).connection_count(),
            final(self).notice_count() == old(self).notice_count(),
    {
        self.accept_tx = Some(tx);
    }

    /// Whether a fresh connection may be accepted under the configured
    /// cap; at the cap, the stream is dropped.
    pub fn may_accept(&self, max_count_of_connection: usize) -> (r: bool)
        requires
            self.wf(),
        ensures
            r == (self.connection_count() != max_count_of_connection),
    {
        self.senders.len() != max_count_of_connection
    }

    /// Registers a connection's outbound channel under its peer address;
    /// an address already present is replaced.
    pub fn insert(&mut self, addr: String, tx: UnboundedSender<Record>)
        requires
            old(self).wf(),
        ensures
            final(self).wf(),
            final(self).connections() == old(self).connections().insert(addr@),
            final(self).connection_count() <= old(self).connection_count() + 1,
            final(self).connection_count() >= old(self).connection_count(),
            final(self).notice_count() == old(self).notice_count(),
            final(self).has_accept() == old(self).has_accept(),
    {
        let ghost pre = self.senders@;
        proof {
            lemma_str_map_contains(pre, addr@);
        }
        match str_find(&self.senders, &addr) {
            Some(i) => {
                proof {
                    lemma_str_map_remove(pre, i as int);
                }
                let _ = self.senders.remove(i);
            },
            None => {
            },
        }
        let ghost mid = self.senders@;
        self.senders.push((addr, tx));
        proof {
            lemma_str_map_push(mid, self.senders@.last().0, self.senders@.last().1);
            assert forall|j1: int, j2: int|
                0 <= j1 < self.senders@.len() && 0 <= j2 < self.senders@.len() && j1 != j2 implies (
            #[trigger] self.senders@[j1].0@) != (#[trigger] self.senders@[j2].0@) by {
                if j1 == self.senders@.len() - 1 {
                    assert(mid[j2] == self.senders@[j2]);
                    if mid[j2].0@ == self.senders@[j1].0@ {
                        lemma_str_map_contains(mid, mid[j2].0@);
                        lemma_str_map_contains(pre, mid[j2].0@);
                    }
                } else if j2 == self.senders@.len() - 1 {
                    assert(mid[j1] == self.senders@[j1]);
                    if mid[j1].0@ == self.senders@[j2].0@ {
                        lemma_str_map_contains(mid, mid[j1].0@);
                        lemma_str_map_contains(pre, mid[j1].0@);
                    }
                } else {
                    assert(mid[j1] == self.senders@[j1] && mid[j2] == self.senders@[j2]);
                }
            }
            assert(self.connections() =~= old(self).connections().insert(
                self.senders@.last().0@,
            ));
        }
    }

    /// Removes a connection; the scope guard of a closing adapter calls
    /// this.
    pub fn remove(&mut self, addr: &String)
        requires
            old(self).wf(),
        ensures
            final(self).wf(),
            final(self).connections() == old(self).connections().remove(addr@),
            final(self).connection_count() <= old(self).connection_count(),
            final(self).notice_count() == old(self).notice_count(),
            final(self).has_accept() == old(self).has_accept(),
    {
        let ghost pre = self.senders@;
        proof {
            lemma_str_map_contains(pre, addr@);
        }
        match str_find(&self.senders, addr) {
            Some(i) => {
                proof {
                    lemma_str_map_remove(pre, i as int);
                }
                let _ = self.senders.remove(i);
            },
            None => {
                proof {
                    assert(self.connections() =~= old(self).connections().remove(addr@));
                }
            },
        }
    }

    /// The addresses of the registered connections.
    pub fn list(&self) -> (r: Vec<String>)
        requires
            self.wf(),
        ensures
            r@.len() == self.connection_count(),
            forall|i: int| 0 <= i < r@.len() ==> self.connections().contains((#[trigger] r@[i])@),
    {
        let mut out: Vec<String> = Vec::new();
        let mut i: usize = 0;
        while i < self.senders.len()
            invariant
                self.wf(),
                i <= self.senders@.len(),
                out@.len() == i,
                forall|j: int|
                    0 <= j < out@.len() ==> self.connections().contains((#[trigger] out@[j])@),
            decreases self.senders@.len() - i,
        {
            proof {
                lemma_str_map_index(self.senders@, i as int);
            }
            out.push(self.senders[i].0.clone());
            i = i + 1;
        }
        out
    }

    /// Broadcasts a notice to every registered connection.  The notice
    /// counter grows by one and the new count rides on the notice; a
    /// send that fails is ignored, the connection's own loop reaps it.
    pub fn send(&mut self, msg: Vec<u8>)
        requires
            old(self).wf(),
            old(self).notice_count() < u64::MAX,
        ensures
            final(self).wf(),
            final(self).notice_count() == old(self).notice_count() + 1,
            final(self).connections() == old(self).connections(),
            final(self).connection_count() == old(self).connection_count(),
            final(self).has_accept() == old(self).has_accept(),
    {
        self.id = self.id + 1;
        let notice = Record::Notice { id: self.id, msg };
        let mut i: usize = 0;
        while i < self.senders.len()
            invariant
                self.wf(),
                i <= self.senders@.len(),
            decreases self.senders@.len() - i,
        {
            let _ = channel_send(&self.senders[i].1, notice.clone());
            i = i + 1;
        }
    }
}

/// Accepting below the cap keeps the register at or below the cap: the
/// accept loop checks `count != max` before it registers one more
/// connection.
pub proof fn lemma_accept_preserves_cap(
    pre: AdapterRegister,
    post: AdapterRegister,
    addr: Seq<char>,
    max: int,
)
    requires
        pre.connection_count() <= max,
        pre.connection_count() != max,
        post.connections() == pre.connections().insert(addr),
        post.connection_count() <= pre.connection_count() + 1,
    ensures
        post.connection_count() <= max,
{
}

/// The per-connection serve counter: at most `max_serve_count` dispatch
/// workers run at once for one connection.
pub struct Adapter {
    serve_count: usize,
    max_serve_count: usize,
}

impl Adapter {
    /// How many more workers may be admitted.
    pub closed spec fn remaining(&self) -> int {
        self.serve_count as int
    }

    /// The configured bound on concurrent workers.
    pub closed spec fn max(&self) -> int {
        self.max_serve_count as int
    }

    /// How many workers are in flight.
    pub open spec fn in_flight(&self) -> int {
        self.max() - self.remaining()
    }

    pub closed spec fn wf(&self) -> bool {
        self.serve_count <= self.max_serve_count
    }

    pub fn new(max_serve_count: usize) -> (r: Self)
        ensures
            r.wf(),
            r.max() == max_serve_count,
            r.remaining() == max_serve_count,
            r.in_flight() == 0,
    {
        Adapter { serve_count: max_serve_count, max_serve_count }
    }

    /// How many serve slots are free now.
    pub fn available(&self) -> (r: usize)
        ensures
            r == self.remaining(),
    {
        self.serve_count
    }

    /// Takes one serve slot; refused when the counter is exhausted, and
    /// the caller then synthesizes the out-of-service reply instead of
    /// spawning a worker.
    pub fn acquire(&mut self) -> (r: bool)
        requires
            old(self).wf(),
        ensures
            final(self).wf(),
            final(self).max() == old(self).max(),
            r == (old(self).remaining() > 0),
            r ==> final(self).in_flight() == old(self).in_flight() + 1,
            !r ==> final(self).in_flight() == old(self).in_flight(),
    {
        if self.serve_count == 0 {
            false
        } else {
            self.serve_count = self.serve_count - 1;
            true
        }
    }

    /// Restores one serve slot; a worker's scope guard must call this on
    /// every exit path.
    pub fn release(&mut self)
        requires
            old(self).wf(),
            old(self).in_flight() > 0,
        ensures
            final(self).wf(),
            final(self).max() == old(self).max(),
            final(self).in_flight() == old(self).in_flight() - 1,
    {
        self.serve_count = self.serve_count + 1;
    }
}

/// The in-flight worker count never exceeds the configured bound.
pub proof fn lemma_serve_slots_cap(a: Adapter)
    requires
        a.wf(),
    ensures
        0 <= a.in_flight() <= a.max(),
{
}

/// The user-level error for a request whose object id is not known:
/// `Oid(name: category) doesn't exist.`
fn oid_missing_error(o: &Oid) -> (r: ServantError)
    ensures
        r@ == ServantErrorView::Other(
            "Oid("@ + o@.name + ": "@ + o@.category + ") doesn't exist."@,
        ),
{
    let mut s = String::from_str("Oid(");
    s.append(o.name());
    s.append(": ");
    s.append(o.category());
    s.append(") doesn't exist.");
    ServantError::Other(s)
}

/// The reply when the serve counter is exhausted: a request gets a
/// synthesized error response, a report is dropped; a notice or response on the
/// server's read path is a protocol violation and yields nothing.
pub fn out_of_service(record: &Record) -> (r: Option<Record>)
    ensures
        ({
            match record@ {
                RecordView::Request { id, ctx, oid, req } => r matches Some(resp) && resp@ == (
                RecordView::Response {
                    id,
                    oid,
                    ret: spec_encode_outcome(Err(ServantErrorView::Other("serve count is 0"@))),
                }),
                _ => r is None,
            }
        }),
{
    match record {
        Record::Request { id, ctx, oid, req } => {
            let outcome: Result<Vec<u8>, ServantError> = Err(
                ServantError::other("serve count is 0"),
            );
            let ret = encode_outcome(&outcome);
            let oid2 = match oid {
                Some(o) => Some(o.clone()),
                None => None,
            };
            Some(Record::Response { id: *id, oid: oid2, ret })
        },
        _ => None,
    }
}

/// Dispatches one record that took a serve slot.
///
/// A report goes to its report servant and yields no reply.  A request
/// goes to the addressed servant, or to the watch servant when it has no
/// object id — the registry's regular servants are untouched on that
/// path — and yields a response that echoes the request's id and object
/// id and carries the encoded outcome.  A missing servant or missing watch
/// servant yields the matching user-level error.  A notice or response
/// on the server's read path yields nothing and changes nothing.
pub fn dispatch<P: ReportServant, W: WatchServant, R: Rehydrator>(
    sr: &mut ServantRegister<P, W, R>,
    record: Record,
) -> (r: Option<Record>)
    requires
        old(sr).wf(),
    ensures
        final(sr).wf(),
        final(sr).hist() == old(sr).hist(),
        final(sr).enrolled() == old(sr).enrolled(),
        final(sr).max() == old(sr).max(),
        final(sr).evicts_on_add() == old(sr).evicts_on_add(),
        final(sr).reports().dom() == old(sr).reports().dom(),
        ({
            match record@ {
                RecordView::Request { id, ctx, oid, req } => r matches Some(resp) && resp@
                    is Response && resp@->Response_id == id && resp@->Response_oid == oid,
                _ => r is None,
            }
        }),
        (record@ matches RecordView::Request { id, ctx, oid: None, req }) ==> final(sr).live()
            == old(sr).live() && final(sr).lru() == old(sr).lru() && final(sr).frozen() == old(sr).frozen(),
        (record@ is Notice || record@ is Response) ==> final(sr).live() == old(sr).live() && final(sr).lru() == old(sr).lru() && final(sr).frozen() == old(sr).frozen() && final(sr).reports()
            == old(sr).reports(),
        ({
            match record@ {
                RecordView::Request { id, ctx, oid, req } => {
                    match oid {
                        Some(o) => {
                            let live_hit = old(sr).live().contains_key(o);
                            let rehydratable = !live_hit && old(sr).frozen().contains_key(o)
                                && old(sr).enrolled().contains(o.category);
                            &&& final(sr).reports() == old(sr).reports()
                            &&& final(sr).spec_watch() == old(sr).spec_watch()
                            &&& (live_hit ==> (r matches Some(resp) && resp@->Response_ret
                                == spec_encode_outcome(
                                Ok(old(sr).live()[o].servant.serve_result(ctx, req)),
                            )) && final(sr).live().dom() == old(sr).live().dom() && final(sr).frozen() == old(sr).frozen() && final(sr).live()[o].servant == old(
                                sr,
                            ).live()[o].servant.serve_update(ctx, req) && (old(sr).live()[o].node
                                is Some ==> final(sr).lru() == seq![o] + old(sr).lru().remove(
                                old(sr).lru().index_of(o),
                            )) && (old(sr).live()[o].node is None ==> final(sr).lru() == old(
                                sr,
                            ).lru()))
                            &&& (rehydratable ==> (exists|s: <R as Rehydrator>::Output|
                                {
                                    &&& s.spec_name() == o.name
                                    &&& s.serializable()
                                    &&& (#[trigger] s.dump_bytes()) == old(sr).frozen()[o]
                                    &&& (r matches Some(resp) && resp@->Response_ret
                                        == spec_encode_outcome(Ok(s.serve_result(ctx, req))))
                                }))
                            &&& ((!live_hit && !rehydratable) ==> (r matches Some(resp)
                                && resp@->Response_ret == spec_encode_outcome(
                                Err(
                                    ServantErrorView::Other(
                                        "Oid("@ + o.name + ": "@ + o.category
                                            + ") doesn't exist."@,
                                    ),
                                ),
                            )) && final(sr).live() == old(sr).live() && final(sr).lru() == old(
                                sr,
                            ).lru() && final(sr).frozen() == old(sr).frozen())
                        },
                        None => {
                            &&& final(sr).reports() == old(sr).reports()
                            &&& (match old(sr).spec_watch() {
                                Some(w) => (r matches Some(resp) && resp@->Response_ret
                                    == spec_encode_outcome(Ok(w.serve_result(req)))) && final(sr).spec_watch() == Some(w.serve_update(req)),
                                None => (r matches Some(resp) && resp@->Response_ret
                                    == spec_encode_outcome(
                                    Err(
                                        ServantErrorView::Other(
                                            "watch servant doesn't exist."@,
                                        ),
                                    ),
                                )) && final(sr).spec_watch() is None,
                            })
                        },
                    }
                },
                RecordView::Report { id, oid, msg } => {
                    &&& final(sr).live() == old(sr).live() && final(sr).lru() == old(sr).lru()
                        && final(sr).frozen() == old(sr).frozen() && final(sr).spec_watch()
                        == old(sr).spec_watch()
                    &&& (old(sr).reports().contains_key(oid) ==> final(sr).reports() == old(
                        sr,
                    ).reports().insert(oid, old(sr).reports()[oid].after_serve(msg)))
                    &&& (!old(sr).reports().contains_key(oid) ==> final(sr).reports() == old(
                        sr,
                    ).reports())
                },
                _ => true,
            }
        }),
    {
    match record {
        Record::Report { id: _, oid, msg } => {
            let _ = sr.serve_report(&oid, msg);
            None
        },
        Record::Request { id, ctx, oid, req } => {
            let ghost pre = *sr;
            let ghost ctxv = (match ctx {
                Some(ref c) => Some(c@),
                None => None,
            });
            let ghost reqv = req@;
            let outcome: Result<Vec<u8>, ServantError> = match &oid {
                Some(o) => {
                    match sr.serve_request(o, ctx, req) {
                        Some(bytes) => Ok(bytes),
                        None => Err(oid_missing_error(o)),
                    }
                },
                None => {
                    match sr.serve_watch(req) {
                        Some(bytes) => Ok(bytes),
                        None => Err(ServantError::other("watch servant doesn't exist.")),
                    }
                },
            };
            let ret = encode_outcome(&outcome);
            proof {
                match oid {
                    Some(ref o) => {
                        let ov = o@;
                        if !pre.live().contains_key(ov) && pre.frozen().contains_key(ov)
                            && pre.enrolled().contains(ov.category) {
                            let s = choose|s: <R as Rehydrator>::Output|
                                {
                                    &&& s.spec_name() == ov.name
                                    &&& s.serializable()
                                    &&& (#[trigger] s.dump_bytes()) == pre.frozen()[ov]
                                    &&& (outcome matches Ok(b) && b@ == s.serve_result(
                                        ctxv,
                                        reqv,
                                    ))
                                    &&& sr.live().contains_key(ov)
                                    &&& sr.live()[ov].servant == s.serve_update(ctxv, reqv)
                                };
                            assert(s.spec_name() == ov.name && s.serializable()
                                && s.dump_bytes() == pre.frozen()[ov] && ret@
                                == spec_encode_outcome(Ok(s.serve_result(ctxv, reqv))));
                        }
                    },
                    None => {
                    },
                }
            }
            Some(Record::Response { id, oid, ret })
        },
        _ => None,
    }
}

} // verus!
