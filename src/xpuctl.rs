//! The accelerator inventory as the command line tools read it.
use vstd::prelude::*;

use crate::xpu;

verus! {

/// One accelerator's BMC as the inventory names it; the credentials may be
/// left to the inventory's defaults.
pub struct BMC {
    pub name: String,
    pub vendor: String,
    pub address: String,
    pub username: Option<String>,
    pub password: Option<String>,
}

/// The inventory: default credentials and the BMCs.
pub struct Context {
    pub username: String,
    pub password: String,
    pub bmc: Vec<BMC>,
}

impl BMC {
    /// The address and credentials of this BMC; both credentials must be set.
    pub fn to_bmc(&self) -> (r: xpu::BMC)
        requires
            self.username is Some,
            self.password is Some,
        ensures
            r.address == self.address,
            r.username == self.username.unwrap(),
            r.password == self.password.unwrap(),
    {
        let username = match &self.username {
            Some(u) => u.clone(),
            None => String::new(),
        };
        let password = match &self.password {
            Some(p) => p.clone(),
            None => String::new(),
        };
        xpu::BMC { username, address: self.address.clone(), password }
    }
}

} // verus!
