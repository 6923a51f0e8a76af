//! The subnet manager domain: its errors, partitions and port bindings, the
//! requests for each operation, and the reconciliation of a partition's
//! configured GUIDs against the physical port inventory.
use vstd::prelude::*;
use vstd::string::StringExecFns;

pub mod pkey;
pub mod types;

pub use pkey::PartitionKey;
pub use types::{Configuration, PhysicalPort, Port, PortType, VirtualPort};

use crate::rest::{
    host_port, parse_url, url_host, url_parses, url_port, RestCall, HTTPS_PORT, RestClient, RestConfig, RestError, RestMethod,
};
use vstd::string::StrSliceExecFns;
use pkey::{key_text, parse_key};
use types::{port_of_physical, unknown_port};

verus! {

/// The errors of the subnet manager domain.
pub enum UFMError {
    Unknown(String),
    NotFound(String),
    InvalidPKey(String),
    InvalidConfig(String),
}

/// `r` is what the transport error `e` becomes in this domain: not-found stays
/// not-found, auth failures and bad configuration become invalid
/// configuration, and every other kind becomes unknown.
pub open spec fn ufm_error_of(e: RestError, r: UFMError) -> bool {
    match e {
        RestError::NotFound(m) => r == UFMError::NotFound(m),
        RestError::AuthFailure(m) => r == UFMError::InvalidConfig(m),
        RestError::InvalidConfig(m) => r == UFMError::InvalidConfig(m),
        _ => r matches UFMError::Unknown(t) && t@ == "Unknown Rest Error"@,
    }
}

/// The kinds of subnet manager error.
#[derive(Clone, Copy, Debug, PartialEq, Eq, Structural)]
pub enum UfmErrorKind {
    Unknown,
    NotFound,
    InvalidPKey,
    InvalidConfig,
}

/// The kind of subnet manager error that a transport error becomes.
pub open spec fn ufm_kind_of(e: RestError) -> UfmErrorKind {
    match e {
        RestError::NotFound(_) => UfmErrorKind::NotFound,
        RestError::AuthFailure(_) => UfmErrorKind::InvalidConfig,
        RestError::InvalidConfig(_) => UfmErrorKind::InvalidConfig,
        _ => UfmErrorKind::Unknown,
    }
}

/// Every transport error maps to exactly one kind of subnet manager error,
/// never to an invalid partition key.
pub proof fn lemma_ufm_error_total(e: RestError, r: UFMError)
    requires
        ufm_error_of(e, r),
    ensures
        r.kind() == ufm_kind_of(e),
        ufm_kind_of(e) != UfmErrorKind::InvalidPKey,
{
}

impl UFMError {
    pub open spec fn kind(self) -> UfmErrorKind {
        match self {
            UFMError::Unknown(_) => UfmErrorKind::Unknown,
            UFMError::NotFound(_) => UfmErrorKind::NotFound,
            UFMError::InvalidPKey(_) => UfmErrorKind::InvalidPKey,
            UFMError::InvalidConfig(_) => UfmErrorKind::InvalidConfig,
        }
    }

    /// The subnet manager error that a transport error becomes.
    pub fn from(e: RestError) -> (r: UFMError)
        ensures
            ufm_error_of(e, r),
    {
        proof {
            reveal_strlit("Unknown Rest Error");
        }
        match e {
            RestError::NotFound(m) => UFMError::NotFound(m),
            RestError::AuthFailure(m) => UFMError::InvalidConfig(m),
            RestError::InvalidConfig(m) => UFMError::InvalidConfig(m),
            _ => UFMError::Unknown(String::from_str("Unknown Rest Error")),
        }
    }
}

/// Whether a member can talk to every other member of its partition, or only
/// to full members.
#[derive(Clone, Copy, Debug, PartialEq, Eq, Structural)]
pub enum PortMembership {
    Limited,
    Full,
}

/// What `str::to_lowercase` gives for a text.
pub uninterp spec fn lower_of(s: Seq<char>) -> Seq<char>;

/// Relies on `str::to_lowercase`: the lowercase form depends on the text alone.
#[verifier::external_body]
pub(crate) fn lowercase(s: &str) -> (r: String)
    ensures
        r@ == lower_of(s@),
{
    s.to_lowercase()
}

impl PortMembership {
    /// The membership that a lowercase text names: `full` or `limited`;
    /// `InvalidConfig` for any other text.
    pub fn from_lowercase(t: &String) -> (r: Result<PortMembership, UFMError>)
        ensures
            t@ == "full"@ <==> r matches Ok(PortMembership::Full),
            t@ == "limited"@ <==> r matches Ok(PortMembership::Limited),
            r matches Err(e) ==> e is InvalidConfig,
    {
        proof {
            reveal_strlit("full");
            reveal_strlit("limited");
        }
        assert("full"@.len() != "limited"@.len());
        if *t == String::from_str("full") {
            Ok(PortMembership::Full)
        } else if *t == String::from_str("limited") {
            Ok(PortMembership::Limited)
        } else {
            Err(UFMError::InvalidConfig(String::from_str("invalid membership")))
        }
    }

    /// The membership that a text names in any case: `full` or `limited`;
    /// `InvalidConfig` for any other text.
    pub fn parse(s: &str) -> (r: Result<PortMembership, UFMError>)
        ensures
            lower_of(s@) == "full"@ <==> r matches Ok(PortMembership::Full),
            lower_of(s@) == "limited"@ <==> r matches Ok(PortMembership::Limited),
            r matches Err(e) ==> e is InvalidConfig,
    {
        PortMembership::from_lowercase(&lowercase(s))
    }
}

/// A port to bind into a partition.
pub struct PortConfig {
    /// The GUID of the port.
    pub guid: String,
    /// Store the key at index 0 of the port's key table.
    pub index0: bool,
    pub membership: PortMembership,
}

/// The quality of service of a partition.
#[derive(Clone, Copy, Debug)]
pub struct PartitionQoS {
    /// 2048 or 4096: the MTU of the partition's services.
    pub mtu_limit: u16,
    /// 0 to 15.
    pub service_level: u8,
    /// The rate limit in tenths of Gb/s (2.5 Gb/s is 25); the subnet manager
    /// decides which rates it accepts.
    pub rate_limit: u32,
}

/// The quality of service of the partition `pkey`, as the subnet manager takes it.
pub struct PKeyQoS {
    pub pkey: String,
    pub mtu_limit: u16,
    pub service_level: u8,
    /// In tenths of Gb/s.
    pub rate_limit: u32,
}

/// A fabric partition.
pub struct Partition {
    pub name: String,
    pub pkey: PartitionKey,
    /// Whether IP over the fabric runs in the partition.
    pub ipoib: bool,
    pub qos: Option<PartitionQoS>,
}

/// A request to bind ports into a partition: every GUID gets one membership
/// and one index-0 setting.
pub struct PkeyBinding {
    pub pkey: String,
    pub ip_over_ib: bool,
    pub membership: PortMembership,
    pub index0: bool,
    pub guids: Vec<String>,
}

/// A request to remove ports from a partition.
pub struct PkeyGuids {
    pub pkey: String,
    pub guids: Vec<String>,
}

/// A partition as the subnet manager reports it.
pub struct PartitionRecord {
    pub partition: String,
    pub ip_over_ib: bool,
    pub qos_conf: PartitionQoS,
}

/// The GUIDs of a list of port bindings, in order.
pub open spec fn binding_guids(ports: Seq<PortConfig>) -> Seq<Seq<char>> {
    ports.map_values(|p: PortConfig| p.guid@)
}

pub open spec fn texts(v: Seq<String>) -> Seq<Seq<char>> {
    v.map_values(|s: String| s@)
}

/// The membership that a bind request gives all its ports: the last
/// binding's, or full when there is none.
pub open spec fn binding_membership(ports: Seq<PortConfig>) -> PortMembership {
    if ports.len() == 0 {
        PortMembership::Full
    } else {
        ports.last().membership
    }
}

/// The index-0 setting that a bind request gives all its ports: the last
/// binding's, or true when there is none.
pub open spec fn binding_index0(ports: Seq<PortConfig>) -> bool {
    if ports.len() == 0 {
        true
    } else {
        ports.last().index0
    }
}

/// The index of the last inventory record of the port `guid`, or -1.
pub open spec fn last_index_of(inv: Seq<PhysicalPort>, guid: Seq<char>) -> int
    decreases inv.len(),
{
    if inv.len() == 0 {
        -1
    } else if inv.last().guid@ == guid {
        inv.len() - 1
    } else {
        last_index_of(inv.drop_last(), guid)
    }
}

/// No later inventory record has the GUID of record `i`.
pub open spec fn last_of_guid(inv: Seq<PhysicalPort>, i: int) -> bool {
    forall|j: int| i < j < inv.len() ==> (#[trigger] inv[j]).guid@ != inv[i].guid@
}

/// The indices of the first `n` inventory records that are the last of their
/// GUID, in order.
pub open spec fn distinct_indices(inv: Seq<PhysicalPort>, n: int) -> Seq<int>
    decreases n,
{
    if n <= 0 {
        Seq::empty()
    } else if last_of_guid(inv, n - 1) {
        distinct_indices(inv, n - 1).push(n - 1)
    } else {
        distinct_indices(inv, n - 1)
    }
}

/// The ports of a partition: for the default partition, the inventory with
/// one record per GUID (the last), in inventory order; for any other, one port
/// per configured GUID in order, the inventory's last record of that GUID or,
/// where it has none, the placeholder for that GUID.
pub open spec fn reconciled(
    key: int,
    configured: Seq<PortConfig>,
    inv: Seq<PhysicalPort>,
    r: Seq<Port>,
) -> bool {
    if key == 0x7fff {
        let idx = distinct_indices(inv, inv.len() as int);
        &&& r.len() == idx.len()
        &&& forall|i: int| 0 <= i < r.len() ==> #[trigger] r[i] == port_of_physical(inv[idx[i]])
    } else {
        &&& r.len() == configured.len()
        &&& forall|i: int|
            0 <= i < r.len() ==> {
                let j = last_index_of(inv, configured[i].guid@);
                if j >= 0 {
                    #[trigger] r[i] == port_of_physical(inv[j])
                } else {
                    unknown_port(r[i], configured[i].guid@)
                }
            }
    }
}

proof fn lemma_last_index_is_last(inv: Seq<PhysicalPort>, guid: Seq<char>)
    requires
        last_index_of(inv, guid) >= 0,
    ensures
        last_of_guid(inv, last_index_of(inv, guid)),
    decreases inv.len(),
{
    lemma_last_index_range(inv, guid);
    if inv.last().guid@ != guid {
        let t = inv.drop_last();
        lemma_last_index_is_last(t, guid);
        lemma_last_index_range(t, guid);
        let m = last_index_of(t, guid);
        assert forall|j: int| m < j < inv.len() implies (#[trigger] inv[j]).guid@ != inv[m].guid@ by {
            if j < t.len() {
                assert(inv[j] == t[j]);
            }
        }
    }
}

proof fn lemma_last_index_at_least(inv: Seq<PhysicalPort>, i: int)
    requires
        0 <= i < inv.len(),
    ensures
        last_index_of(inv, inv[i].guid@) >= i,
    decreases inv.len(),
{
    if i < inv.len() - 1 && inv.last().guid@ != inv[i].guid@ {
        let t = inv.drop_last();
        assert(t[i] == inv[i]);
        lemma_last_index_at_least(t, i);
    }
}

proof fn lemma_distinct_indices(inv: Seq<PhysicalPort>, n: int, m: int)
    requires
        0 <= m < n <= inv.len(),
        last_of_guid(inv, m),
    ensures
        distinct_indices(inv, n).contains(m),
    decreases n,
{
    if m < n - 1 {
        lemma_distinct_indices(inv, n - 1, m);
        let p = distinct_indices(inv, n - 1);
        if last_of_guid(inv, n - 1) {
            let k = choose|k: int| 0 <= k < p.len() && p[k] == m;
            assert(p.push(n - 1)[k] == m);
        }
    } else {
        assert(distinct_indices(inv, n).last() == m);
    }
}

/// Listing the default partition gives exactly the inventory: each port is
/// an inventory record, and each GUID of the inventory is listed, whatever
/// ports the partition is configured with.
pub proof fn lemma_default_lists_inventory(
    configured: Seq<PortConfig>,
    other: Seq<PortConfig>,
    inv: Seq<PhysicalPort>,
    r: Seq<Port>,
)
    requires
        reconciled(0x7fff, configured, inv, r),
    ensures
        reconciled(0x7fff, other, inv, r),
        forall|i: int| 0 <= i < r.len() ==> exists|j: int| 0 <= j < inv.len() && #[trigger] r[i] == port_of_physical(inv[j]),
        forall|j: int| 0 <= j < inv.len() ==> exists|i: int| 0 <= i < r.len() && (#[trigger] r[i]).guid@ == (#[trigger] inv[j]).guid@,
{
    let idx = distinct_indices(inv, inv.len() as int);
    lemma_distinct_range(inv, inv.len() as int);
    assert forall|i: int| 0 <= i < r.len() implies exists|j: int| 0 <= j < inv.len() && #[trigger] r[i] == port_of_physical(inv[j]) by {
        assert(r[i] == port_of_physical(inv[idx[i]]));
    }
    assert forall|j: int| 0 <= j < inv.len() implies exists|i: int| 0 <= i < r.len() && (#[trigger] r[i]).guid@ == (#[trigger] inv[j]).guid@ by {
        let g = inv[j].guid@;
        lemma_last_index_at_least(inv, j);
        lemma_last_index_range(inv, g);
        lemma_last_index_is_last(inv, g);
        let m = last_index_of(inv, g);
        lemma_distinct_indices(inv, inv.len() as int, m);
        let k = choose|k: int| 0 <= k < idx.len() && idx[k] == m;
        assert(r[k] == port_of_physical(inv[idx[k]]));
    }
}

proof fn lemma_distinct_range(inv: Seq<PhysicalPort>, n: int)
    requires
        0 <= n <= inv.len(),
    ensures
        forall|k: int| 0 <= k < distinct_indices(inv, n).len() ==> 0 <= #[trigger] distinct_indices(inv, n)[k] < n,
    decreases n,
{
    if n > 0 {
        lemma_distinct_range(inv, n - 1);
        let p = distinct_indices(inv, n - 1);
        if last_of_guid(inv, n - 1) {
            assert(distinct_indices(inv, n) == p.push(n - 1));
        } else {
            assert(distinct_indices(inv, n) == p);
        }
    } else {
        assert(distinct_indices(inv, n).len() == 0);
    }
}

proof fn lemma_last_index_range(inv: Seq<PhysicalPort>, guid: Seq<char>)
    ensures
        -1 <= last_index_of(inv, guid) < inv.len(),
        last_index_of(inv, guid) >= 0 ==> inv[last_index_of(inv, guid)].guid@ == guid,
    decreases inv.len(),
{
    if inv.len() > 0 {
        lemma_last_index_range(inv.drop_last(), guid);
    }
}

/// The index of the last inventory record of the port `guid`.
fn find_port(inv: &Vec<PhysicalPort>, guid: &String) -> (r: Option<usize>)
    ensures
        r matches Some(j) ==> j as int == last_index_of(inv@, guid@),
        r is None ==> last_index_of(inv@, guid@) == -1,
{
    let mut found: Option<usize> = None;
    let mut i: usize = 0;
    while i < inv.len()
        invariant
            i <= inv@.len(),
            found matches Some(j) ==> j as int == last_index_of(inv@.subrange(0, i as int), guid@),
            found is None ==> last_index_of(inv@.subrange(0, i as int), guid@) == -1,
        decreases inv@.len() - i,
    {
        let ghost pre = inv@.subrange(0, i as int);
        assert(inv@.subrange(0, i + 1).drop_last() =~= pre);
        if inv[i].guid == *guid {
            found = Some(i);
        }
        i = i + 1;
    }
    assert(inv@.subrange(0, inv@.len() as int) =~= inv@);
    found
}

/// Whether no record after `i` has the GUID of record `i`.
fn is_last_of_guid(inv: &Vec<PhysicalPort>, i: usize) -> (r: bool)
    requires
        i < inv@.len(),
    ensures
        r == last_of_guid(inv@, i as int),
{
    let n = inv.len();
    let mut j: usize = i + 1;
    while j < inv.len()
        invariant
            i < j <= inv@.len(),
            forall|k: int| i < k < j ==> (#[trigger] inv@[k]).guid@ != inv@[i as int].guid@,
        decreases inv@.len() - j,
    {
        if inv[j].guid == inv[i].guid {
            return false;
        }
        j = j + 1;
    }
    true
}

/// The reconciled view of an inventory record.
fn port_of_record(pp: &PhysicalPort) -> (r: Port)
    ensures
        r == port_of_physical(*pp),
{
    Port::from_physical(pp.duplicate())
}

/// The inventory with one record per GUID, the last of each, in order.
fn distinct_ports(inv: &Vec<PhysicalPort>) -> (r: Vec<Port>)
    ensures
        r@.len() == distinct_indices(inv@, inv@.len() as int).len(),
        forall|i: int|
            0 <= i < r@.len() ==> #[trigger] r@[i] == port_of_physical(
                inv@[distinct_indices(inv@, inv@.len() as int)[i]],
            ),
{
    let mut res: Vec<Port> = Vec::new();
    let mut i: usize = 0;
    while i < inv.len()
        invariant
            i <= inv@.len(),
            res@.len() == distinct_indices(inv@, i as int).len(),
            forall|k: int|
                0 <= k < res@.len() ==> #[trigger] res@[k] == port_of_physical(
                    inv@[distinct_indices(inv@, i as int)[k]],
                ),
            forall|k: int|
                0 <= k < distinct_indices(inv@, i as int).len() ==> 0 <= #[trigger] distinct_indices(
                    inv@,
                    i as int,
                )[k] < i,
        decreases inv@.len() - i,
    {
        if is_last_of_guid(inv, i) {
            res.push(port_of_record(&inv[i]));
        }
        i = i + 1;
    }
    res
}

/// Reconciles a partition's configured ports against the physical port
/// inventory (see `reconciled`).
pub fn reconcile_ports(key: PartitionKey, configured: Vec<PortConfig>, inventory: Vec<PhysicalPort>) -> (r: Vec<Port>)
    ensures
        reconciled(key@, configured@, inventory@, r@),
{
    if key.is_default() {
        return distinct_ports(&inventory);
    }
    let mut res: Vec<Port> = Vec::new();
    let mut i: usize = 0;
    while i < configured.len()
        invariant
            key@ != 0x7fff,
            i <= configured@.len(),
            res@.len() == i,
            forall|k: int|
                0 <= k < i ==> {
                    let j = last_index_of(inventory@, configured@[k].guid@);
                    if j >= 0 {
                        #[trigger] res@[k] == port_of_physical(inventory@[j])
                    } else {
                        unknown_port(res@[k], configured@[k].guid@)
                    }
                },
        decreases configured@.len() - i,
    {
        let guid = &configured[i].guid;
        proof {
            lemma_last_index_range(inventory@, guid@);
        }
        match find_port(&inventory, guid) {
            Some(j) => res.push(port_of_record(&inventory[j])),
            None => res.push(Port::unknown(guid.clone())),
        }
        i = i + 1;
    }
    res
}

/// Where a subnet manager is and how to log in to it.
pub struct UFMConfig {
    pub address: String,
    pub username: Option<String>,
    pub password: Option<String>,
    pub token: Option<String>,
    pub cert: Option<UFMCert>,
    /// Accept any server certificate, for subnet managers with self-signed ones.
    pub accept_invalid_certs: bool,
}

/// TLS material for a subnet manager.
#[derive(Clone, Debug)]
pub struct UFMCert {
    pub ca_crt: String,
    pub tls_key: String,
    pub tls_crt: String,
}

/// A connection to a subnet manager.
pub struct Ufm {
    client: RestClient,
}

/// The host that a subnet manager's address names, when it names one.
pub open spec fn config_host(conf: UFMConfig) -> Option<Seq<char>> {
    if url_parses(conf.address@) {
        url_host(conf.address@)
    } else {
        None
    }
}

/// Connects to the subnet manager of `conf`. It fails with `InvalidConfig`
/// when the address is not a URL with a host, or when the user name or the
/// password is missing. Requests go to the URL's host and port (443 when it
/// names none), accepting any certificate exactly when the configuration says so.
pub fn connect(conf: UFMConfig) -> (r: Result<Ufm, UFMError>)
    ensures
        r is Ok <==> config_host(conf) is Some && conf.password is Some && conf.username is Some,
        r matches Err(e) ==> e is InvalidConfig,
        r matches Ok(u) ==> {
            &&& u.client_view().address_view() == host_port(
                config_host(conf).unwrap(),
                match url_port(conf.address@) {
                    Some(p) => p,
                    None => HTTPS_PORT,
                },
            )
            &&& u.client_view().user_view() == conf.username.unwrap()@
            &&& u.client_view().password_view() == conf.password.unwrap()@
            &&& u.client_view().accepts_invalid_certs() == conf.accept_invalid_certs
        },
{
    let parts = match parse_url(conf.address.as_str()) {
        Some(p) => p,
        None => {
            return Err(UFMError::InvalidConfig(String::from_str("invalid UFM url")));
        },
    };
    if parts.host.is_none() {
        return Err(UFMError::InvalidConfig(String::from_str("invalid UFM host")));
    }
    let password = match conf.password {
        Some(p) => p,
        None => {
            return Err(UFMError::InvalidConfig(String::from_str("password is empty")));
        },
    };
    let username = match conf.username {
        Some(u) => u,
        None => {
            return Err(UFMError::InvalidConfig(String::from_str("username is empty")));
        },
    };
    match RestClient::new(
        &RestConfig { address: conf.address, password, username, accept_invalid_certs: conf.accept_invalid_certs },
    ) {
        Ok(client) => Ok(Ufm { client }),
        Err(e) => Err(UFMError::from(e)),
    }
}

/// `"/resources/pkeys/"`, the key's text, then `suffix`.
pub open spec fn pkey_path(key: int, suffix: Seq<char>) -> Seq<char> {
    "/resources/pkeys/"@ + key_text(key as nat) + suffix
}

impl Ufm {
    pub closed spec fn client_view(&self) -> RestClient {
        self.client
    }

    /// The client that requests go through.
    pub fn client(&self) -> (r: &RestClient)
        ensures
            *r == self.client_view(),
    {
        &self.client
    }

    /// The request for the subnet manager's settings.
    pub fn get_configuration(&self) -> (r: RestCall)
        ensures
            r.method == RestMethod::Get,
            r.path@ == "/app/smconf"@,
    {
        RestCall { method: RestMethod::Get, path: String::from_str("/app/smconf") }
    }

    /// The request that sets the quality of service of `p`; `InvalidConfig`
    /// when `p` has none.
    pub fn update_partition_qos(&self, p: Partition) -> (r: Result<(RestCall, PKeyQoS), UFMError>)
        ensures
            r is Ok <==> p.qos is Some,
            r matches Err(e) ==> e is InvalidConfig,
            r matches Ok((c, q)) ==> {
                &&& c.method == RestMethod::Put
                &&& c.path@ == "/resources/pkeys/qos_conf"@
                &&& q.pkey@ == key_text(p.pkey@ as nat)
                &&& q.mtu_limit == p.qos.unwrap().mtu_limit
                &&& q.service_level == p.qos.unwrap().service_level
                &&& q.rate_limit == p.qos.unwrap().rate_limit
            },
    {
        let qos = match p.qos {
            Some(q) => q,
            None => {
                return Err(UFMError::InvalidConfig(String::from_str("no partition qos")));
            },
        };
        let body = PKeyQoS {
            pkey: p.pkey.to_string(),
            mtu_limit: qos.mtu_limit,
            service_level: qos.service_level,
            rate_limit: qos.rate_limit,
        };
        Ok((RestCall { method: RestMethod::Put, path: String::from_str("/resources/pkeys/qos_conf") }, body))
    }

    /// The request that binds `ports` into `p`. All the ports get the last
    /// binding's membership and index-0 setting (full and true for none).
    pub fn bind_ports(&self, p: Partition, ports: Vec<PortConfig>) -> (r: (RestCall, PkeyBinding))
        ensures
            r.0.method == RestMethod::Post,
            r.0.path@ == "/resources/pkeys"@,
            r.1.pkey@ == key_text(p.pkey@ as nat),
            r.1.ip_over_ib == p.ipoib,
            texts(r.1.guids@) == binding_guids(ports@),
            r.1.membership == binding_membership(ports@),
            r.1.index0 == binding_index0(ports@),
    {
        let mut membership = PortMembership::Full;
        let mut index0 = true;
        let mut guids: Vec<String> = Vec::new();
        let mut i: usize = 0;
        while i < ports.len()
            invariant
                i <= ports@.len(),
                texts(guids@) == binding_guids(ports@.subrange(0, i as int)),
                membership == binding_membership(ports@.subrange(0, i as int)),
                index0 == binding_index0(ports@.subrange(0, i as int)),
            decreases ports@.len() - i,
        {
            let ghost old_guids = guids@;
            let ghost pre = ports@.subrange(0, i as int);
            membership = ports[i].membership;
            index0 = ports[i].index0;
            guids.push(ports[i].guid.clone());
            assert(ports@.subrange(0, i + 1) =~= pre.push(ports@[i as int]));
            assert(texts(old_guids.push(ports@[i as int].guid)) =~= texts(old_guids).push(ports@[i as int].guid@));
            assert(binding_guids(pre.push(ports@[i as int])) =~= binding_guids(pre).push(ports@[i as int].guid@));
            i = i + 1;
        }
        assert(ports@.subrange(0, ports@.len() as int) =~= ports@);
        let body = PkeyBinding { pkey: p.pkey.to_string(), ip_over_ib: p.ipoib, membership, index0, guids };
        (RestCall { method: RestMethod::Post, path: String::from_str("/resources/pkeys") }, body)
    }

    /// The request that removes the ports `guids` from the partition `pkey`.
    pub fn unbind_ports(&self, pkey: PartitionKey, guids: Vec<String>) -> (r: (RestCall, PkeyGuids))
        ensures
            r.0.method == RestMethod::Post,
            r.0.path@ == "/actions/remove_guids_from_pkey"@,
            r.1.pkey@ == key_text(pkey@ as nat),
            r.1.guids == guids,
    {
        let body = PkeyGuids { pkey: pkey.to_string(), guids };
        (RestCall { method: RestMethod::Post, path: String::from_str("/actions/remove_guids_from_pkey") }, body)
    }

    /// The request for the partition named by the text `pkey`, with the key;
    /// `InvalidPKey` when the text names no key.
    pub fn get_partition(&self, pkey: &str) -> (r: Result<(PartitionKey, RestCall), UFMError>)
        ensures
            r is Ok <==> parse_key(pkey@) is Some,
            r matches Err(e) ==> e is InvalidPKey,
            r matches Ok((k, c)) ==> {
                &&& Some(k@) == parse_key(pkey@)
                &&& c.method == RestMethod::Get
                &&& c.path@ == pkey_path(k@, "?qos_conf=true"@)
            },
    {
        let key = match PartitionKey::parse(pkey) {
            Ok(k) => k,
            Err(e) => {
                return Err(e);
            },
        };
        let path = String::from_str("/resources/pkeys/").concat(key.to_string().as_str()).concat("?qos_conf=true");
        proof {
            reveal_strlit("/resources/pkeys/");
            reveal_strlit("?qos_conf=true");
        }
        assert(path@ =~= pkey_path(key@, "?qos_conf=true"@));
        Ok((key, RestCall { method: RestMethod::Get, path }))
    }

    /// The request that lists every partition.
    pub fn list_partition(&self) -> (r: RestCall)
        ensures
            r.method == RestMethod::Get,
            r.path@ == "/resources/pkeys?qos_conf=true"@,
    {
        RestCall { method: RestMethod::Get, path: String::from_str("/resources/pkeys?qos_conf=true") }
    }

    /// The request that deletes the partition whose key text is `pkey`, as given.
    pub fn delete_partition(&self, pkey: &str) -> (r: RestCall)
        ensures
            r.method == RestMethod::Delete,
            r.path@ == "/resources/pkeys/"@ + pkey@,
    {
        proof {
            reveal_strlit("/resources/pkeys/");
        }
        RestCall { method: RestMethod::Delete, path: String::from_str("/resources/pkeys/").concat(pkey) }
    }

    /// The two requests of a port listing: the partition's configured GUIDs,
    /// then the physical port inventory.
    pub fn list_port(&self, pkey: PartitionKey) -> (r: (RestCall, RestCall))
        ensures
            r.0.method == RestMethod::Get,
            r.0.path@ == pkey_path(pkey@, "?guids_data=true"@),
            r.1.method == RestMethod::Get,
            r.1.path@ == "/resources/ports?sys_type=Computer"@,
    {
        proof {
            reveal_strlit("/resources/pkeys/");
            reveal_strlit("?guids_data=true");
        }
        let path = String::from_str("/resources/pkeys/").concat(pkey.to_string().as_str()).concat("?guids_data=true");
        assert(path@ =~= pkey_path(pkey@, "?guids_data=true"@));
        (
            RestCall { method: RestMethod::Get, path },
            RestCall { method: RestMethod::Get, path: String::from_str("/resources/ports?sys_type=Computer") },
        )
    }

    /// The request for the subnet manager's release version.
    pub fn version(&self) -> (r: RestCall)
        ensures
            r.method == RestMethod::Get,
            r.path@ == "/app/ufm_version"@,
    {
        RestCall { method: RestMethod::Get, path: String::from_str("/app/ufm_version") }
    }
}

/// The partition `key` from its record.
pub fn partition_from_record(key: PartitionKey, rec: PartitionRecord) -> (r: Partition)
    ensures
        r.name == rec.partition,
        r.pkey == key,
        r.ipoib == rec.ip_over_ib,
        r.qos == Some(rec.qos_conf),
{
    Partition { name: rec.partition, pkey: key, ipoib: rec.ip_over_ib, qos: Some(rec.qos_conf) }
}

/// Whether every key text of a listing names a key.
pub open spec fn all_keys_valid(records: Seq<(String, PartitionRecord)>) -> bool {
    forall|i: int| 0 <= i < records.len() ==> (#[trigger] parse_key(records[i].0@)) is Some
}

/// The partitions of a listing, keyed by their key texts, in order; the first
/// key text that names no key fails the whole listing with `InvalidPKey`.
pub fn partitions_from_records(records: Vec<(String, PartitionRecord)>) -> (r: Result<Vec<Partition>, UFMError>)
    ensures
        r is Ok <==> all_keys_valid(records@),
        r matches Err(e) ==> e is InvalidPKey,
        r matches Ok(v) ==> v@.len() == records@.len() && forall|i: int|
            0 <= i < v@.len() ==> {
                &&& Some((#[trigger] v@[i]).pkey@) == parse_key(records@[i].0@)
                &&& v@[i].name == records@[i].1.partition
                &&& v@[i].ipoib == records@[i].1.ip_over_ib
                &&& v@[i].qos == Some(records@[i].1.qos_conf)
            },
{
    let mut parts: Vec<Partition> = Vec::new();
    let mut rest = records;
    let ghost all = records@;
    let ghost n = all.len();
    assert(rest@ =~= all.subrange(0, n as int));
    while rest.len() > 0
        invariant
            n == all.len(),
            all == records@,
            rest@.len() + parts@.len() == n,
            rest@ == all.subrange(parts@.len() as int, n as int),
            forall|k: int| 0 <= k < parts@.len() ==> (#[trigger] parse_key(all[k].0@)) is Some,
            forall|i: int|
                0 <= i < parts@.len() ==> {
                    &&& Some((#[trigger] parts@[i]).pkey@) == parse_key(all[i].0@)
                    &&& parts@[i].name == all[i].1.partition
                    &&& parts@[i].ipoib == all[i].1.ip_over_ib
                    &&& parts@[i].qos == Some(all[i].1.qos_conf)
                },
        decreases rest@.len(),
    {
        let ghost i = parts@.len() as int;
        let (k, v) = rest.remove(0);
        assert((k, v) == all[i]);
        assert(rest@ =~= all.subrange(i + 1, n as int));
        let key = match PartitionKey::parse(k.as_str()) {
            Ok(key) => key,
            Err(e) => {
                assert(parse_key(all[i].0@) is None);
                assert(!all_keys_valid(all));
                return Err(e);
            },
        };
        parts.push(partition_from_record(key, v));
    }
    Ok(parts)
}

} // verus!
