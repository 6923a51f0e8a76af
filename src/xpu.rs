//! Accelerators and their BMCs: the Redfish requests of the Bluefield vendor,
//! the BMC error taxonomy, and the credential bootstrap protocol.
use vstd::prelude::*;
use vstd::string::StringExecFns;

use crate::rest::{client_error_text, host_port, quoted, rest_error_text, url_host, url_parses, url_port_or_https, RestCall, RestClient, RestConfig, RestError, RestMethod};

verus! {

/// The state of an accelerator.
#[derive(Clone, Copy, Debug, PartialEq, Eq, Structural)]
pub enum XPUStatus {
    Ready,
    Error,
    Unknown,
}

impl XPUStatus {
    /// The name of the state.
    pub fn to_string(&self) -> (r: String)
        ensures
            r@ == match *self {
                XPUStatus::Ready => "Ready"@,
                XPUStatus::Error => "Error"@,
                XPUStatus::Unknown => "Unknown"@,
            },
    {
        proof {
            reveal_strlit("Ready");
            reveal_strlit("Error");
            reveal_strlit("Unknown");
        }
        match self {
            XPUStatus::Error => String::from_str("Error"),
            XPUStatus::Ready => String::from_str("Ready"),
            XPUStatus::Unknown => String::from_str("Unknown"),
        }
    }
}

/// The errors of the accelerator domain.
pub enum XPUError {
    Internal(String),
    NotFound(String),
    InvalidConfig(String),
}

/// The errors of a Redfish client.
pub enum RedfishError {
    RestError(String),
    IOError(String),
    Json(String),
    NotFound(String),
    InvalidConfig(String),
}

/// The diagnostic text of a Redfish error.
pub open spec fn redfish_error_text(e: RedfishError) -> Seq<char> {
    match e {
        RedfishError::RestError(m) => m@,
        RedfishError::IOError(m) => m@,
        RedfishError::Json(m) => m@,
        RedfishError::NotFound(m) => m@,
        RedfishError::InvalidConfig(m) => m@,
    }
}

/// `r` is what the transport error `e` becomes for a Redfish client, carrying
/// the text of `e`: not-found stays not-found, auth failures and bad
/// configuration become invalid configuration, the rest transport errors.
pub open spec fn redfish_error_of(e: RestError, r: RedfishError) -> bool {
    &&& redfish_error_text(r) == rest_error_text(e)
    &&& match e {
        RestError::NotFound(_) => r is NotFound,
        RestError::AuthFailure(_) => r is InvalidConfig,
        RestError::InvalidConfig(_) => r is InvalidConfig,
        _ => r is RestError,
    }
}

/// `r` is what the Redfish error `e` becomes in the accelerator domain,
/// carrying the text of `e`: not-found and invalid configuration keep their
/// kind, every other error is internal.
pub open spec fn xpu_error_of(e: RedfishError, r: XPUError) -> bool {
    &&& xpu_error_text(r) == redfish_error_text(e)
    &&& match e {
        RedfishError::NotFound(_) => r is NotFound,
        RedfishError::InvalidConfig(_) => r is InvalidConfig,
        _ => r is Internal,
    }
}

/// The text that an accelerator error carries.
pub open spec fn xpu_error_text(e: XPUError) -> Seq<char> {
    match e {
        XPUError::Internal(m) => m@,
        XPUError::NotFound(m) => m@,
        XPUError::InvalidConfig(m) => m@,
    }
}

/// The kinds of accelerator error.
#[derive(Clone, Copy, Debug, PartialEq, Eq, Structural)]
pub enum XpuErrorKind {
    Internal,
    NotFound,
    InvalidConfig,
}

/// The kind of accelerator error that a transport error becomes.
pub open spec fn xpu_kind_of(e: RestError) -> XpuErrorKind {
    match e {
        RestError::NotFound(_) => XpuErrorKind::NotFound,
        RestError::AuthFailure(_) => XpuErrorKind::InvalidConfig,
        RestError::InvalidConfig(_) => XpuErrorKind::InvalidConfig,
        _ => XpuErrorKind::Internal,
    }
}

impl XPUError {
    pub open spec fn kind(self) -> XpuErrorKind {
        match self {
            XPUError::Internal(_) => XpuErrorKind::Internal,
            XPUError::NotFound(_) => XpuErrorKind::NotFound,
            XPUError::InvalidConfig(_) => XpuErrorKind::InvalidConfig,
        }
    }

    /// The accelerator error that a Redfish error becomes.
    pub fn from(e: RedfishError) -> (r: XPUError)
        ensures
            xpu_error_of(e, r),
    {
        match e {
            RedfishError::NotFound(m) => XPUError::NotFound(m),
            RedfishError::InvalidConfig(m) => XPUError::InvalidConfig(m),
            RedfishError::RestError(m) => XPUError::Internal(m),
            RedfishError::IOError(m) => XPUError::Internal(m),
            RedfishError::Json(m) => XPUError::Internal(m),
        }
    }
}

impl RedfishError {
    /// The Redfish error that a transport error becomes.
    pub fn from(e: RestError) -> (r: RedfishError)
        ensures
            redfish_error_of(e, r),
    {
        let m = e.message();
        match e {
            RestError::NotFound(_) => RedfishError::NotFound(m),
            RestError::AuthFailure(_) => RedfishError::InvalidConfig(m),
            RestError::InvalidConfig(_) => RedfishError::InvalidConfig(m),
            _ => RedfishError::RestError(m),
        }
    }
}

/// Every transport error that reaches the accelerator domain through a Redfish
/// client becomes exactly one kind of accelerator error, the one that
/// `xpu_kind_of` names, and keeps its text.
pub proof fn lemma_bmc_error_total(e: RestError, f: RedfishError, x: XPUError)
    requires
        redfish_error_of(e, f),
        xpu_error_of(f, x),
    ensures
        x.kind() == xpu_kind_of(e),
        xpu_error_text(x) == rest_error_text(e),
{
}

/// The address and credentials of a BMC.
pub struct BMC {
    pub address: String,
    pub username: String,
    pub password: String,
}

impl BMC {
    /// A copy of these credentials.
    pub fn duplicate(&self) -> (r: BMC)
        ensures
            r == *self,
    {
        BMC { address: self.address.clone(), username: self.username.clone(), password: self.password.clone() }
    }
}

/// The firmware record of a BMC.
pub struct BMCVersion {
    pub description: String,
    pub id: String,
    pub version: String,
}

/// A new password for a BMC account.
pub struct PasswordChange {
    pub password: String,
}

/// The user that Bluefield BMCs ship with.
pub const DEFAULT_USER: &'static str = "root";

/// The password that Bluefield BMCs ship with.
pub const DEFAULT_PASSWORD: &'static str = "0penBmc";

/// The vendor tag of Bluefield accelerators.
pub const VENDOR: &'static str = "bluefield";

/// Whether a client can be made for the BMC at `address`.
pub open spec fn reachable_address(address: Seq<char>) -> bool {
    url_parses(address) && url_host(address) is Some
}

/// `c` sends to the host and port of `bmc`'s address (443 when it names
/// none), with `bmc`'s user name and password.
pub open spec fn client_for(bmc: BMC, c: RestClient) -> bool {
    &&& c.address_view() == host_port(url_host(bmc.address@).unwrap(), url_port_or_https(bmc.address@))
    &&& c.user_view() == bmc.username@
    &&& c.password_view() == bmc.password@
}

/// `r` is the outcome of making a client of `bmc`: a client that talks to
/// `bmc` with its credentials, accepting any certificate exactly when
/// `accept_invalid_certs`; or, when the address is not a URL with a host,
/// an invalid configuration that says so.
pub open spec fn client_built(bmc: BMC, accept_invalid_certs: bool, r: Result<Bluefield, RedfishError>) -> bool {
    &&& (r is Ok <==> reachable_address(bmc.address@))
    &&& (r matches Ok(b) ==> b.wf() && b.bmc_view() == bmc && b.rest_view().accepts_invalid_certs()
        == accept_invalid_certs)
    &&& (r matches Err(e) ==> e matches RedfishError::InvalidConfig(m) && m@ == "invalid configuration "@
        + quoted(client_error_text(bmc.address@)))
}

/// A Redfish client of a Bluefield BMC.
pub struct Bluefield {
    rest: RestClient,
    bmc: BMC,
}

impl Bluefield {
    pub closed spec fn bmc_view(&self) -> BMC {
        self.bmc
    }

    /// The client talks to this BMC with its credentials.
    pub open spec fn wf(&self) -> bool {
        reachable_address(self.bmc_view().address@) && client_for(self.bmc_view(), self.rest_view())
    }

    /// The client of the BMC `bmc`; fails when its address is not a URL with a
    /// host. Any server certificate is accepted when `accept_invalid_certs`,
    /// for BMCs with self-signed ones.
    pub fn new(bmc: &BMC, accept_invalid_certs: bool) -> (r: Result<Bluefield, RedfishError>)
        ensures
            client_built(*bmc, accept_invalid_certs, r),
    {
        proof {
            reveal_strlit("invalid configuration ");
        }
        let config = RestConfig {
            address: bmc.address.clone(),
            password: bmc.password.clone(),
            username: bmc.username.clone(),
            accept_invalid_certs,
        };
        match RestClient::new(&config) {
            Ok(rest) => Ok(Bluefield { rest, bmc: bmc.duplicate() }),
            Err(e) => Err(RedfishError::from(e)),
        }
    }

    /// The credentials that a Bluefield BMC at `addr` ships with.
    fn default_bmc(name: &str, addr: &str) -> (r: BMC)
        ensures
            r.address@ == addr@,
            r.username@ == DEFAULT_USER@,
            r.password@ == DEFAULT_PASSWORD@,
    {
        BMC {
            address: String::from_str(addr),
            password: String::from_str(DEFAULT_PASSWORD),
            username: String::from_str(DEFAULT_USER),
        }
    }

    /// The credentials of this client.
    pub fn bmc(&self) -> (r: &BMC)
        ensures
            *r == self.bmc_view(),
    {
        &self.bmc
    }

    pub closed spec fn rest_view(&self) -> RestClient {
        self.rest
    }

    /// The transport client of this BMC.
    pub fn rest(&self) -> (r: &RestClient)
        ensures
            *r == self.rest_view(),
    {
        &self.rest
    }

    /// The request that sets the root account's password to `passwd`.
    pub fn change_password(&self, passwd: String) -> (r: (RestCall, PasswordChange))
        ensures
            r.0.method == RestMethod::Patch,
            r.0.path@ == "/redfish/v1/AccountService/Accounts/root"@,
            r.1.password == passwd,
    {
        (
            RestCall { method: RestMethod::Patch, path: String::from_str("/redfish/v1/AccountService/Accounts/root") },
            PasswordChange { password: passwd },
        )
    }

    /// The request for the BMC's firmware record.
    pub fn bmc_version(&self) -> (r: RestCall)
        ensures
            r.method == RestMethod::Get,
            r.path@ == "redfish/v1/UpdateService/FirmwareInventory/BMC_Firmware"@,
    {
        RestCall {
            method: RestMethod::Get,
            path: String::from_str("redfish/v1/UpdateService/FirmwareInventory/BMC_Firmware"),
        }
    }
}

/// Where the bootstrap of a BMC's credentials stands.
#[derive(Clone, Copy, Debug, PartialEq, Eq, Structural)]
pub enum DiscoverState {
    /// The firmware record is being read with the caller's credentials.
    Probing,
    /// The shipped credentials are setting the caller's password.
    Recovering,
    /// The firmware record is being read again with the caller's credentials.
    Retrying,
    /// The caller's credentials work.
    Ready,
    /// The bootstrap failed; nothing more is tried.
    Failed,
}

/// What the caller does next in a bootstrap.
pub enum DiscoverAction {
    /// Read the firmware record through the client being bootstrapped.
    QueryVersion,
    /// Send `request` through `client`, a client with the shipped credentials.
    ChangePassword { client: Bluefield, request: RestCall, body: PasswordChange },
    /// The bootstrap is over, with this outcome.
    Finish(Result<(), RedfishError>),
}

/// The state that follows `s` when its step succeeded (`ok`) or failed.
pub open spec fn discover_next(s: DiscoverState, ok: bool) -> DiscoverState {
    match s {
        DiscoverState::Probing => if ok {
            DiscoverState::Ready
        } else {
            DiscoverState::Recovering
        },
        DiscoverState::Recovering => if ok {
            DiscoverState::Retrying
        } else {
            DiscoverState::Failed
        },
        DiscoverState::Retrying => if ok {
            DiscoverState::Ready
        } else {
            DiscoverState::Failed
        },
        DiscoverState::Ready => DiscoverState::Ready,
        DiscoverState::Failed => DiscoverState::Failed,
    }
}

/// The state after the step outcomes `outcomes`, from `s`.
pub open spec fn discover_run(s: DiscoverState, outcomes: Seq<bool>) -> DiscoverState
    decreases outcomes.len(),
{
    if outcomes.len() == 0 {
        s
    } else {
        discover_run(discover_next(s, outcomes[0]), outcomes.drop_first())
    }
}

/// How many times a run from `s` enters the state `t`.
pub open spec fn entries(s: DiscoverState, outcomes: Seq<bool>, t: DiscoverState) -> nat
    decreases outcomes.len(),
{
    if outcomes.len() == 0 {
        0
    } else {
        let n = discover_next(s, outcomes[0]);
        entries(n, outcomes.drop_first(), t) + if n == t && n != s {
            1nat
        } else {
            0nat
        }
    }
}

proof fn lemma_failed_stays(outcomes: Seq<bool>)
    ensures
        discover_run(DiscoverState::Failed, outcomes) == DiscoverState::Failed,
        entries(DiscoverState::Failed, outcomes, DiscoverState::Recovering) == 0,
    decreases outcomes.len(),
{
    if outcomes.len() > 0 {
        lemma_failed_stays(outcomes.drop_first());
    }
}

/// A probe that fails, a fallback that succeeds and a retry that succeeds end
/// ready, after one fallback and one retry. A fallback that fails ends the
/// bootstrap: whatever follows, it stays failed and no second fallback comes.
pub proof fn lemma_bootstrap(rest: Seq<bool>)
    ensures
        discover_run(DiscoverState::Probing, seq![false, true, true]) == DiscoverState::Ready,
        entries(DiscoverState::Probing, seq![false, true, true], DiscoverState::Recovering) == 1,
        entries(DiscoverState::Probing, seq![false, true, true], DiscoverState::Retrying) == 1,
        discover_run(DiscoverState::Probing, seq![false, false] + rest) == DiscoverState::Failed,
        entries(DiscoverState::Probing, seq![false, false] + rest, DiscoverState::Recovering) == 1,
{
    let a = seq![false, true, true];
    assert(a.drop_first() =~= seq![true, true]);
    assert(seq![true, true].drop_first() =~= seq![true]);
    assert(seq![true].drop_first() =~= Seq::<bool>::empty());
    let e = Seq::<bool>::empty();
    assert(discover_run(DiscoverState::Ready, e) == DiscoverState::Ready);
    assert(entries(DiscoverState::Ready, e, DiscoverState::Recovering) == 0);
    assert(entries(DiscoverState::Ready, e, DiscoverState::Retrying) == 0);
    assert(discover_run(DiscoverState::Retrying, seq![true]) == DiscoverState::Ready);
    assert(entries(DiscoverState::Retrying, seq![true], DiscoverState::Recovering) == 0);
    assert(entries(DiscoverState::Retrying, seq![true], DiscoverState::Retrying) == 0);
    assert(discover_run(DiscoverState::Recovering, seq![true, true]) == DiscoverState::Ready);
    assert(entries(DiscoverState::Recovering, seq![true, true], DiscoverState::Recovering) == 0);
    assert(entries(DiscoverState::Recovering, seq![true, true], DiscoverState::Retrying) == 1);
    let b = seq![false, false] + rest;
    assert(b.drop_first() =~= seq![false] + rest);
    assert((seq![false] + rest).drop_first() =~= rest);
    lemma_failed_stays(rest);
    let b1 = seq![false] + rest;
    assert(b[0] == false && b1[0] == false);
    assert(discover_run(DiscoverState::Recovering, b1) == DiscoverState::Failed);
    assert(entries(DiscoverState::Recovering, b1, DiscoverState::Recovering) == 0);
    assert(discover_run(DiscoverState::Probing, b) == DiscoverState::Failed);
    assert(entries(DiscoverState::Probing, b, DiscoverState::Recovering) == 1);
}

/// The step's action fits the state it leads to: a query on entering a
/// probe, a password change on entering recovery, the end otherwise.
pub open spec fn action_fits(s: DiscoverState, a: DiscoverAction) -> bool {
    match s {
        DiscoverState::Probing => a is QueryVersion,
        DiscoverState::Retrying => a is QueryVersion,
        DiscoverState::Recovering => a is ChangePassword,
        DiscoverState::Ready => a matches DiscoverAction::Finish(Ok(_)),
        DiscoverState::Failed => a matches DiscoverAction::Finish(Err(_)),
    }
}

impl Bluefield {
    /// The start of a bootstrap: read the firmware record with the caller's
    /// credentials.
    pub fn discover_start(&self) -> (r: (DiscoverState, DiscoverAction))
        ensures
            r.0 == DiscoverState::Probing,
            action_fits(r.0, r.1),
    {
        (DiscoverState::Probing, DiscoverAction::QueryVersion)
    }

    /// The next step of a bootstrap in state `s`, whose last step ended with
    /// `outcome`. A failed probe falls back to a client with the shipped
    /// credentials, which sets the caller's password; the probe is then
    /// retried once. A failure of the fallback or of the retry ends it.
    pub fn discover_step(&self, s: DiscoverState, outcome: Result<(), RedfishError>) -> (r: (
        DiscoverState,
        DiscoverAction,
    ))
        requires
            self.wf(),
            s != DiscoverState::Ready && s != DiscoverState::Failed,
        ensures
            r.0 == discover_next(s, outcome is Ok),
            action_fits(r.0, r.1),
            r.0 == DiscoverState::Failed ==> (outcome matches Err(e) && r.1 == DiscoverAction::Finish(
                Err(e),
            )),
            r.1 matches DiscoverAction::ChangePassword { client, request, body } ==> {
                &&& client.bmc_view().address@ == self.bmc_view().address@
                &&& client.bmc_view().username@ == DEFAULT_USER@
                &&& client.bmc_view().password@ == DEFAULT_PASSWORD@
                &&& client.wf()
                &&& client.rest_view().accepts_invalid_certs() == self.rest_view().accepts_invalid_certs()
                &&& request.method == RestMethod::Patch
                &&& request.path@ == "/redfish/v1/AccountService/Accounts/root"@
                &&& body.password == self.bmc_view().password
            },
    {
        match (s, outcome) {
            (DiscoverState::Probing, Err(_)) => {
                let fallback = Bluefield::default_bmc(self.bmc.username.as_str(), self.bmc.address.as_str());
                match Bluefield::new(&fallback, self.rest.accept_invalid_certs()) {
                    Ok(client) => {
                        let (request, body) = client.change_password(self.bmc.password.clone());
                        (DiscoverState::Recovering, DiscoverAction::ChangePassword { client, request, body })
                    },
                    Err(e) => {
                        proof {
                            assert(reachable_address(fallback.address@));
                        }
                        (DiscoverState::Failed, DiscoverAction::Finish(Err(e)))
                    },
                }
            },
            (DiscoverState::Recovering, Ok(())) => (DiscoverState::Retrying, DiscoverAction::QueryVersion),
            (DiscoverState::Probing, Ok(())) => (DiscoverState::Ready, DiscoverAction::Finish(Ok(()))),
            (DiscoverState::Retrying, Ok(())) => (DiscoverState::Ready, DiscoverAction::Finish(Ok(()))),
            (_, Err(e)) => (DiscoverState::Failed, DiscoverAction::Finish(Err(e))),
            (_, Ok(())) => (DiscoverState::Ready, DiscoverAction::Finish(Ok(()))),
        }
    }
}

/// An accelerator whose BMC answers.
pub struct XPU {
    pub redfish: Bluefield,
    pub vendor: String,
    pub serial_number: String,
    pub firmware_version: String,
    pub bmc: BMC,
    pub bmc_version: String,
    pub status: XPUStatus,
}

impl XPU {
    /// The accelerator whose BMC `bmc` reported the firmware record `version`:
    /// ready, with unknown vendor, serial number and firmware (`-`). It fails
    /// with `InvalidConfig` when no client can be made for the BMC's address.
    pub fn new(bmc: &BMC, accept_invalid_certs: bool, version: BMCVersion) -> (r: Result<XPU, XPUError>)
        ensures
            r is Ok <==> reachable_address(bmc.address@),
            r matches Err(e) ==> e matches XPUError::InvalidConfig(m) && m@ == "invalid configuration "@
                + quoted(client_error_text(bmc.address@)),
            r matches Ok(x) ==> {
                &&& x.redfish.wf()
                &&& x.redfish.bmc_view() == *bmc
                &&& x.redfish.rest_view().accepts_invalid_certs() == accept_invalid_certs
                &&& x.bmc == *bmc
                &&& x.bmc_version == version.version
                &&& x.status == XPUStatus::Ready
                &&& x.vendor@ == "-"@
                &&& x.serial_number@ == "-"@
                &&& x.firmware_version@ == "-"@
            },
    {
        let redfish = match build(bmc, accept_invalid_certs) {
            Ok(b) => b,
            Err(e) => {
                return Err(XPUError::from(e));
            },
        };
        proof {
            reveal_strlit("-");
        }
        Ok(XPU {
            redfish,
            vendor: String::from_str("-"),
            serial_number: String::from_str("-"),
            firmware_version: String::from_str("-"),
            bmc_version: version.version,
            bmc: bmc.duplicate(),
            status: XPUStatus::Ready,
        })
    }
}

/// What the bootstrap needs of a vendor's Redfish client: the request that
/// sets the root password and the request for the firmware record.
pub trait Redfish {
    /// The request that sets the root account's password to `passwd`.
    fn change_password(&self, passwd: String) -> (r: (RestCall, PasswordChange))
        ensures
            r.0.method == RestMethod::Patch,
            r.1.password == passwd,
    ;

    /// The request for the BMC's firmware record.
    fn bmc_version(&self) -> (r: RestCall)
        ensures
            r.method == RestMethod::Get,
    ;
}

impl Redfish for Bluefield {
    fn change_password(&self, passwd: String) -> (r: (RestCall, PasswordChange)) {
        Bluefield::change_password(self, passwd)
    }

    fn bmc_version(&self) -> (r: RestCall) {
        Bluefield::bmc_version(self)
    }
}

/// The Redfish client for a BMC: Bluefield's, the one vendor supported.
pub fn build(bmc: &BMC, accept_invalid_certs: bool) -> (r: Result<Bluefield, RedfishError>)
    ensures
        client_built(*bmc, accept_invalid_certs, r),
{
    Bluefield::new(bmc, accept_invalid_certs)
}

} // verus!
