//! The gateway endpoint: exports the registered ids, and a toy login.

use vstd::prelude::*;

use crate::oid::Oid;
use crate::oid::UserCookie;
use crate::registry::ServantRegister;
use crate::servant::Rehydrator;
use crate::servant::ReportServant;
use crate::servant::WatchServant;

verus! {

/// The interface of the gateway endpoint, for generated proxies.
pub trait Gateway: Sized {
    fn export_servants(&self) -> Vec<Oid>;

    fn export_report_servants(&self) -> Vec<Oid>;

    fn login(&self, name: String, password: String) -> UserCookie;

    fn version(&self) -> String;
}

pub struct GatewayEntity {}

impl GatewayEntity {
    pub fn new() -> (r: Self) {
        GatewayEntity {  }
    }

    /// The ids of the live servants of `sr`.
    pub fn export_servants<P: ReportServant, W: WatchServant, R: Rehydrator>(
        &self,
        sr: &ServantRegister<P, W, R>,
    ) -> (r: Vec<Oid>)
        requires
            sr.wf(),
        ensures
            forall|i: int| 0 <= i < r@.len() ==> sr.live().contains_key((#[trigger] r@[i])@),
    {
        sr.servants()
    }

    /// The ids of the report servants of `sr`.
    pub fn export_report_servants<P: ReportServant, W: WatchServant, R: Rehydrator>(
        &self,
        sr: &ServantRegister<P, W, R>,
    ) -> (r: Vec<Oid>)
        requires
            sr.wf(),
        ensures
            forall|i: int| 0 <= i < r@.len() ==> sr.reports().contains_key((#[trigger] r@[i])@),
    {
        sr.report_servants()
    }

    /// The toy login of the original: every caller gets the same cookie.
    pub fn login(&self, name: String, password: String) -> (r: UserCookie)
        ensures
            r == 238,
    {
        let _ = name;
        let _ = password;
        238
    }

    pub fn version(&self) -> (r: String)
        ensures
            r@ == "Version 1.0"@,
    {
        String::from_str("Version 1.0")
    }
}

} // verus!
