//! Reference servants: small verified implementations of the servant
//! traits, enough to run the core end to end — an echoing two-way
//! servant that can be passivated and rehydrated, a fixed-answer watch
//! servant, a counting report sink, and a notify sink that forwards
//! each notice into a channel.

use futures::channel::mpsc::UnboundedSender;
use vstd::prelude::*;

use crate::oid::Context;
use crate::oid::ServantError;
use crate::servant::NotifyServant;
use crate::servant::Rehydrator;
use crate::servant::ReportServant;
use crate::servant::Servant;
use crate::servant::WatchServant;

verus! {

/// A serializable servant that answers every request with the request
/// itself; its dumped state is its payload.
pub struct EchoEntity {
    pub name: String,
    pub payload: Vec<u8>,
}

impl EchoEntity {
    pub fn new(name: &str, payload: Vec<u8>) -> (r: Self)
        ensures
            r.spec_name() == name@,
            r.payload == payload,
    {
        EchoEntity { name: name.to_owned(), payload }
    }
}

impl Servant for EchoEntity {
    open spec fn spec_name(&self) -> Seq<char> {
        self.name@
    }

    open spec fn serializable(&self) -> bool {
        true
    }

    /// Echo: the reply is the request.
    open spec fn serve_result(&self, ctx: Option<crate::oid::ContextView>, req: Seq<u8>) -> Seq<
        u8,
    > {
        req
    }

    open spec fn serve_update(&self, ctx: Option<crate::oid::ContextView>, req: Seq<u8>) -> Self {
        *self
    }

    open spec fn dump_bytes(&self) -> Seq<u8> {
        self.payload@
    }

    fn name(&self) -> (r: &str) {
        self.name.as_str()
    }

    fn dump(&self) -> (r: Result<Vec<u8>, ServantError>)
        ensures
            r matches Ok(b) && b@ == self.payload@,
    {
        Ok(vstd::slice::slice_to_vec(self.payload.as_slice()))
    }

    fn serve(&mut self, ctx: Option<Context>, req: Vec<u8>) -> (r: Vec<u8>)
        ensures
            r == req,
    {
        let _ = ctx;
        req
    }
}

/// Rebuilds an [`EchoEntity`] from its name and dumped payload.
pub struct EchoRehydrator {}

impl Rehydrator for EchoRehydrator {
    type Output = EchoEntity;

    fn build(&self, name: &str, bytes: &Vec<u8>) -> (r: EchoEntity)
        ensures
            r.payload@ == bytes@,
    {
        EchoEntity::new(name, vstd::slice::slice_to_vec(bytes.as_slice()))
    }
}

/// A watch servant with a fixed answer.
pub struct FixedWatch {
    pub answer: Vec<u8>,
}

impl WatchServant for FixedWatch {
    /// The fixed answer, whatever the request.
    open spec fn serve_result(&self, req: Seq<u8>) -> Seq<u8> {
        self.answer@
    }

    open spec fn serve_update(&self, req: Seq<u8>) -> Self {
        *self
    }

    fn serve(&mut self, req: Vec<u8>) -> (r: Vec<u8>)
        ensures
            r@ == old(self).answer@,
    {
        let _ = req;
        vstd::slice::slice_to_vec(self.answer.as_slice())
    }
}

/// A report servant that counts what it is handed.
pub struct CountingReport {
    pub name: String,
    pub count: u64,
}

impl CountingReport {
    pub fn new(name: &str) -> (r: Self)
        ensures
            r.spec_name() == name@,
            r.count == 0,
    {
        CountingReport { name: name.to_owned(), count: 0 }
    }
}

impl ReportServant for CountingReport {
    open spec fn spec_name(&self) -> Seq<char> {
        self.name@
    }

    /// One more message counted, saturating at the top.
    open spec fn after_serve(&self, msg: Seq<u8>) -> Self {
        CountingReport {
            name: self.name,
            count: if self.count < u64::MAX {
                (self.count + 1) as u64
            } else {
                self.count
            },
        }
    }

    fn name(&self) -> (r: &str) {
        self.name.as_str()
    }

    fn serve(&mut self, msg: Vec<u8>)
        ensures
            old(self).count < u64::MAX ==> final(self).count == old(self).count + 1,
    {
        let _ = msg;
        if self.count < u64::MAX {
            self.count = self.count + 1;
        }
    }
}

/// A notify sink that forwards every notice into a channel, where the
/// embedding program (or a test) can observe it.
pub struct ChannelNotify {
    pub tx: UnboundedSender<Vec<u8>>,
}

impl NotifyServant for ChannelNotify {
    fn serve(&mut self, msg: Vec<u8>) {
        let _ = crate::adapter::channel_send(&self.tx, msg);
    }
}

/// Builds fresh echo servants with an empty payload, for the factory.
pub struct EchoCreator {}

impl crate::factory::Creator for EchoCreator {
    type Output = EchoEntity;

    fn make(&self, name: &str) -> (r: EchoEntity) {
        EchoEntity::new(name, Vec::new())
    }
}

} // verus!