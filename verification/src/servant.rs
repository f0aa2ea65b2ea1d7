//! The servant traits and the wire record.
//!
//! A *servant* is a named server-side object that serves two-way calls; a
//! *report servant* takes one-way messages; the *watch servant* is the
//! process-singleton endpoint reached by requests without an object id;
//! a *notify servant* is the client-side sink for notices.

use vstd::prelude::*;

use crate::oid::Context;
use crate::oid::Oid;
use crate::oid::OidView;
use crate::oid::ServantError;
use crate::oid::ServantErrorView;

verus! {

/// A two-way servant.  `spec_name` and `serializable` are fixed for the
/// servant's lifetime: the registry records at registration whether a
/// servant may be passivated, and relies on `dump` succeeding later.
/// `serve_result`, `serve_update` and `dump_bytes` describe what the
/// servant computes, so that the registry's and the dispatcher's
/// contracts can carry the answer all the way to the response payload;
/// a servant is thereby a function of its state and its inputs.
pub trait Servant: Sized {
    /// The servant's name.
    spec fn spec_name(&self) -> Seq<char>;

    /// Whether the servant opts into serialization (passivation).
    spec fn serializable(&self) -> bool;

    /// What `serve` answers, as a function of state, context and
    /// request.
    spec fn serve_result(&self, ctx: Option<crate::oid::ContextView>, req: Seq<u8>) -> Seq<u8>;

    /// The servant's state after `serve`.
    spec fn serve_update(&self, ctx: Option<crate::oid::ContextView>, req: Seq<u8>) -> Self;

    /// What `dump` emits for a serializable servant.
    spec fn dump_bytes(&self) -> Seq<u8>;

    fn name(&self) -> (r: &str)
        ensures
            r@ == self.spec_name(),
    ;

    fn dump(&self) -> (r: Result<Vec<u8>, ServantError>)
        ensures
            r is Ok <==> self.serializable(),
            r matches Ok(b) ==> b@ == self.dump_bytes(),
            r matches Err(e) ==> e@ == ServantErrorView::NoSupportSerializable,
    ;

    fn serve(&mut self, ctx: Option<Context>, req: Vec<u8>) -> (r: Vec<u8>)
        ensures
            final(self).spec_name() == old(self).spec_name(),
            final(self).serializable() == old(self).serializable(),
            r@ == old(self).serve_result(
                match ctx {
                    Some(ref c) => Some(c@),
                    None => None,
                },
                req@,
            ),
            *final(self) == old(self).serve_update(
                match ctx {
                    Some(ref c) => Some(c@),
                    None => None,
                },
                req@,
            ),
    ;
}

/// The process-singleton endpoint reached by requests with no object id;
/// the per-call context is deliberately not forwarded to it.
pub trait WatchServant: Sized {
    /// What `serve` answers, as a function of state and request.
    spec fn serve_result(&self, req: Seq<u8>) -> Seq<u8>;

    /// The servant's state after `serve`.
    spec fn serve_update(&self, req: Seq<u8>) -> Self;

    fn serve(&mut self, req: Vec<u8>) -> (r: Vec<u8>)
        ensures
            r@ == old(self).serve_result(req@),
            *final(self) == old(self).serve_update(req@),
    ;
}

/// A one-way servant for fire-and-forget reports.
pub trait ReportServant: Sized {
    /// The servant's name.
    spec fn spec_name(&self) -> Seq<char>;

    /// The servant's state after taking one message.
    spec fn after_serve(&self, msg: Seq<u8>) -> Self;

    fn name(&self) -> (r: &str)
        ensures
            r@ == self.spec_name(),
    ;

    fn serve(&mut self, msg: Vec<u8>)
        ensures
            *final(self) == old(self).after_serve(msg@),
    ;
}

/// The client-side sink that receives notices.
pub trait NotifyServant: Sized {
    fn serve(&mut self, msg: Vec<u8>);
}

/// Rebuilds a servant of one category from its name and its dumped
/// bytes.  The rebuilt servant carries the given name, opts into
/// serialization again (so that the registry may passivate it anew),
/// and dumps back to exactly the bytes it was built from: rehydration
/// restores the passivated state.
pub trait Rehydrator: Sized {
    type Output: Servant;

    fn build(&self, name: &str, bytes: &Vec<u8>) -> (r: Self::Output)
        ensures
            r.spec_name() == name@,
            r.serializable(),
            r.dump_bytes() == bytes@,
    ;
}

/// The wire entity: every frame carries exactly one record.
#[derive(Debug, Clone)]
pub enum Record {
    /// Server-to-client broadcast; `id` counts notices per adapter
    /// register.
    Notice { id: u64, msg: Vec<u8> },
    /// Client-to-server fire-and-forget; `id` is advisory, scoped to one
    /// terminal.
    Report { id: u64, oid: Oid, msg: Vec<u8> },
    /// Client-to-server two-way call; `oid == None` routes to the watch
    /// servant.  `id` is unique within the issuing terminal.
    Request { id: u64, ctx: Option<Context>, oid: Option<Oid>, req: Vec<u8> },
    /// Server-to-client reply; `id` echoes the request, `ret` is the
    /// encoded outcome.
    Response { id: u64, oid: Option<Oid>, ret: Vec<u8> },
}

/// Mathematical image of a `Record`.
#[verifier::ext_equal]
pub enum RecordView {
    Notice { id: u64, msg: Seq<u8> },
    Report { id: u64, oid: OidView, msg: Seq<u8> },
    Request { id: u64, ctx: Option<crate::oid::ContextView>, oid: Option<OidView>, req: Seq<u8> },
    Response { id: u64, oid: Option<OidView>, ret: Seq<u8> },
}

impl View for Record {
    type V = RecordView;

    open spec fn view(&self) -> RecordView {
        match self {
            Record::Notice { id, msg } => RecordView::Notice { id: *id, msg: msg@ },
            Record::Report { id, oid, msg } => RecordView::Report {
                id: *id,
                oid: oid@,
                msg: msg@,
            },
            Record::Request { id, ctx, oid, req } => RecordView::Request {
                id: *id,
                ctx: match ctx {
                    Some(c) => Some(c@),
                    None => None,
                },
                oid: match oid {
                    Some(o) => Some(o@),
                    None => None,
                },
                req: req@,
            },
            Record::Response { id, oid, ret } => RecordView::Response {
                id: *id,
                oid: match oid {
                    Some(o) => Some(o@),
                    None => None,
                },
                ret: ret@,
            },
        }
    }
}

impl Default for Record {
    /// An empty notice, as a neutral placeholder.
    fn default() -> (r: Self)
        ensures
            r@ == (RecordView::Notice { id: 0u64, msg: Seq::<u8>::empty() }),
    {
        let r = Record::Notice { id: 0, msg: Vec::new() };
        proof {
            assert(r@->Notice_msg =~= Seq::<u8>::empty());
        }
        r
    }
}

} // verus!
