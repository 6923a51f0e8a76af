//! Ports and subnet-manager settings as the subnet manager reports them.
use vstd::prelude::*;
use vstd::string::StringExecFns;

verus! {

/// Whether a port is a physical port or a virtual one.
#[derive(Clone, Copy, Debug, PartialEq, Eq, Structural)]
pub enum PortType {
    Physical,
    Virtual,
}

/// A fabric port in the reconciled view.
pub struct Port {
    pub guid: String,
    pub name: Option<String>,
    pub system_id: String,
    pub lid: i32,
    pub system_name: String,
    pub logical_state: String,
    pub parent_guid: Option<String>,
    pub port_type: Option<PortType>,
}

/// A physical port as the port inventory lists it.
pub struct PhysicalPort {
    pub guid: String,
    pub name: String,
    pub system_id: String,
    pub lid: i32,
    pub system_name: String,
    pub logical_state: String,
}

/// A virtual port as the subnet manager lists it.
pub struct VirtualPort {
    pub virtual_port_guid: String,
    pub system_guid: String,
    pub virtual_port_lid: i32,
    pub system_name: String,
    pub virtual_port_state: String,
    pub port_guid: String,
}

/// The subnet manager's own settings.
pub struct Configuration {
    pub subnet_prefix: String,
    pub m_key: String,
    pub m_key_per_port: bool,
    pub sm_key: String,
    pub sa_key: String,
    pub log_file: String,
    pub qos: i32,
}

/// The LID of a port whose inventory record is unknown.
pub const UNKNOWN_LID: i32 = 65535;

/// `p` is the placeholder for the port `guid` of which nothing else is known:
/// empty texts, LID 65535 and logical state `Unknown`.
pub open spec fn unknown_port(p: Port, guid: Seq<char>) -> bool {
    &&& p.guid@ == guid
    &&& p.name is None
    &&& p.system_id@ == Seq::<char>::empty()
    &&& p.lid == UNKNOWN_LID
    &&& p.system_name@ == Seq::<char>::empty()
    &&& p.logical_state@ == "Unknown"@
    &&& p.parent_guid is None
    &&& p.port_type is None
}

/// The reconciled view of a physical port.
pub open spec fn port_of_physical(pp: PhysicalPort) -> Port {
    Port {
        guid: pp.guid,
        name: Some(pp.name),
        system_id: pp.system_id,
        lid: pp.lid,
        system_name: pp.system_name,
        logical_state: pp.logical_state,
        parent_guid: None,
        port_type: Some(PortType::Physical),
    }
}

/// The reconciled view of a virtual port.
pub open spec fn port_of_virtual(vp: VirtualPort) -> Port {
    Port {
        guid: vp.virtual_port_guid,
        name: None,
        system_id: vp.system_guid,
        lid: vp.virtual_port_lid,
        system_name: vp.system_name,
        logical_state: vp.virtual_port_state,
        parent_guid: Some(vp.port_guid),
        port_type: Some(PortType::Virtual),
    }
}

impl Port {
    /// The placeholder for the port `guid`, of which nothing else is known.
    pub fn unknown(guid: String) -> (r: Port)
        ensures
            unknown_port(r, guid@),
    {
        proof {
            reveal_strlit("Unknown");
        }
        Port {
            guid,
            name: None,
            system_id: String::new(),
            lid: UNKNOWN_LID,
            system_name: String::new(),
            logical_state: String::from_str("Unknown"),
            parent_guid: None,
            port_type: None,
        }
    }

    /// The reconciled view of a physical port.
    pub fn from_physical(pp: PhysicalPort) -> (r: Port)
        ensures
            r == port_of_physical(pp),
    {
        Port {
            guid: pp.guid,
            name: Some(pp.name),
            system_id: pp.system_id,
            lid: pp.lid,
            system_name: pp.system_name,
            logical_state: pp.logical_state,
            parent_guid: None,
            port_type: Some(PortType::Physical),
        }
    }

    /// The reconciled view of a virtual port.
    pub fn from_virtual(vp: VirtualPort) -> (r: Port)
        ensures
            r == port_of_virtual(vp),
    {
        Port {
            guid: vp.virtual_port_guid,
            name: None,
            system_id: vp.system_guid,
            lid: vp.virtual_port_lid,
            system_name: vp.system_name,
            logical_state: vp.virtual_port_state,
            parent_guid: Some(vp.port_guid),
            port_type: Some(PortType::Virtual),
        }
    }
}

impl Default for Port {
    /// The placeholder port with an empty GUID.
    fn default() -> (r: Port)
        ensures
            unknown_port(r, Seq::<char>::empty()),
    {
        Port::unknown(String::new())
    }
}

impl PhysicalPort {
    /// A copy of this record.
    pub fn duplicate(&self) -> (r: PhysicalPort)
        ensures
            r == *self,
    {
        PhysicalPort {
            guid: self.guid.clone(),
            name: self.name.clone(),
            system_id: self.system_id.clone(),
            lid: self.lid,
            system_name: self.system_name.clone(),
            logical_state: self.logical_state.clone(),
        }
    }
}

} // verus!
