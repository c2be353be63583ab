//! The kinds of node and what each instance is configured with.

use vstd::prelude::*;
use vstd::string::StringExecFns;
use crate::predicate::Params;

verus! {

/// A named service port.
#[derive(Debug)]
pub struct Profile {
    pub name: String,
    pub port: u16,
}

impl Clone for Profile {
    fn clone(&self) -> (copy: Self)
        ensures
            copy.name@ == self.name@,
            copy.port == self.port,
    {
        Profile { name: self.name.clone(), port: self.port }
    }
}

/// The kind of a node together with its configuration.
#[derive(Debug)]
pub enum NFNodeData {
    /// Matches addresses listed in a file; the file may not be chosen yet.
    FileIpList(Option<String>),
    SourceAddressFilter(String),
    DestinationAddressFilter(String),
    SourcePortFilter(String),
    DestinationPortFilter(String),
    ProtocolFilter(String),
    /// Splits traffic by network-layer family.
    FamilySplitter,
    InterfaceFilter(String),
    /// Where inbound traffic enters the graph.
    Source,
    /// Rewrites the destination to the configured target.
    DestinationNAT(String),
    /// The local machine: inbound traffic ends here, outbound traffic starts.
    Localhost,
    /// Rewrites the source to the configured target.
    SourceNAT(String),
    Drop,
    Accept,
    /// A kind added by an extension, with the values of its parameters.
    Custom { plugin: String, id: String, data: Params },
}

impl NFNodeData {
    /// The identifier of the kind: `core:` and a fixed name for the built-in
    /// kinds, the extension's and the node's identifiers joined by a colon
    /// for the others.
    pub open spec fn id_spec(&self) -> Seq<char> {
        match self {
            NFNodeData::Source => "core:source"@,
            NFNodeData::FileIpList(_) => "core:file_ip_list"@,
            NFNodeData::SourceAddressFilter(_) => "core:source_address_filter"@,
            NFNodeData::DestinationAddressFilter(_) => "core:destination_address_filter"@,
            NFNodeData::SourcePortFilter(_) => "core:source_port_filter"@,
            NFNodeData::DestinationPortFilter(_) => "core:destination_port_filter"@,
            NFNodeData::ProtocolFilter(_) => "core:protocol_filter"@,
            NFNodeData::FamilySplitter => "core:family_splitter"@,
            NFNodeData::SourceNAT(_) => "core:source_nat"@,
            NFNodeData::DestinationNAT(_) => "core:destination_nat"@,
            NFNodeData::Drop => "core:drop"@,
            NFNodeData::Accept => "core:accept"@,
            NFNodeData::Custom { plugin, id, .. } => plugin@ + ":"@ + id@,
            NFNodeData::Localhost => "core:localhost"@,
            NFNodeData::InterfaceFilter(_) => "core:interface_filter"@,
        }
    }

    /// The identifier of the kind.
    pub fn get_id(&self) -> (id: String)
        ensures
            id@ == self.id_spec(),
    {
        match self {
            NFNodeData::Source => "core:source".to_string(),
            NFNodeData::FileIpList(_) => "core:file_ip_list".to_string(),
            NFNodeData::SourceAddressFilter(_) => "core:source_address_filter".to_string(),
            NFNodeData::DestinationAddressFilter(_) => "core:destination_address_filter".to_string(),
            NFNodeData::SourcePortFilter(_) => "core:source_port_filter".to_string(),
            NFNodeData::DestinationPortFilter(_) => "core:destination_port_filter".to_string(),
            NFNodeData::ProtocolFilter(_) => "core:protocol_filter".to_string(),
            NFNodeData::FamilySplitter => "core:family_splitter".to_string(),
            NFNodeData::SourceNAT(_) => "core:source_nat".to_string(),
            NFNodeData::DestinationNAT(_) => "core:destination_nat".to_string(),
            NFNodeData::Drop => "core:drop".to_string(),
            NFNodeData::Accept => "core:accept".to_string(),
            NFNodeData::Custom { plugin, id, .. } => plugin.clone().concat(":").concat(id.as_str()),
            NFNodeData::Localhost => "core:localhost".to_string(),
            NFNodeData::InterfaceFilter(_) => "core:interface_filter".to_string(),
        }
    }

    /// Whether the user may delete a node of this kind: every node but the
    /// source and the local machine.
    pub fn can_delete(&self) -> (allowed: bool)
        ensures
            allowed == !(self is Source || self is Localhost),
    {
        match self {
            NFNodeData::Source | NFNodeData::Localhost => false,
            _ => true,
        }
    }

    /// The name shown for a built-in kind; extension kinds have none of their own.
    pub open spec fn label_spec(&self) -> Option<Seq<char>> {
        match self {
            NFNodeData::FileIpList(_) => Some("IP File Filter"@),
            NFNodeData::SourceAddressFilter(_) => Some("Source Address Filter"@),
            NFNodeData::DestinationAddressFilter(_) => Some("Destination Address Filter"@),
            NFNodeData::SourcePortFilter(_) => Some("Source Port Filter"@),
            NFNodeData::DestinationPortFilter(_) => Some("Destination Port Filter"@),
            NFNodeData::ProtocolFilter(_) => Some("Protocol Filter"@),
            NFNodeData::FamilySplitter => Some("Family Splitter"@),
            NFNodeData::SourceNAT(_) => Some("Source Address Translation"@),
            NFNodeData::DestinationNAT(_) => Some("Destination Address Translation"@),
            NFNodeData::InterfaceFilter(_) => Some("Interface Filter"@),
            NFNodeData::Source => Some("Incoming Source"@),
            NFNodeData::Localhost => Some("Local Machine"@),
            NFNodeData::Drop => Some("Drop"@),
            NFNodeData::Accept => Some("Accept"@),
            NFNodeData::Custom { .. } => None,
        }
    }

    /// The name shown for a built-in kind.
    pub fn label(&self) -> (text: Option<String>)
        ensures
            match text {
                Some(t) => self.label_spec() == Some(t@),
                None => self.label_spec() is None,
            },
    {
        match self {
            NFNodeData::FileIpList(_) => Some("IP File Filter".to_string()),
            NFNodeData::SourceAddressFilter(_) => Some("Source Address Filter".to_string()),
            NFNodeData::DestinationAddressFilter(_) => Some(
                "Destination Address Filter".to_string(),
            ),
            NFNodeData::SourcePortFilter(_) => Some("Source Port Filter".to_string()),
            NFNodeData::DestinationPortFilter(_) => Some("Destination Port Filter".to_string()),
            NFNodeData::ProtocolFilter(_) => Some("Protocol Filter".to_string()),
            NFNodeData::FamilySplitter => Some("Family Splitter".to_string()),
            NFNodeData::SourceNAT(_) => Some("Source Address Translation".to_string()),
            NFNodeData::DestinationNAT(_) => Some("Destination Address Translation".to_string()),
            NFNodeData::InterfaceFilter(_) => Some("Interface Filter".to_string()),
            NFNodeData::Source => Some("Incoming Source".to_string()),
            NFNodeData::Localhost => Some("Local Machine".to_string()),
            NFNodeData::Drop => Some("Drop".to_string()),
            NFNodeData::Accept => Some("Accept".to_string()),
            NFNodeData::Custom { .. } => None,
        }
    }

    /// Whether two values are the same kind with the same configuration.
    pub open spec fn same(&self, other: &NFNodeData) -> bool {
        match (self, other) {
            (NFNodeData::FileIpList(a), NFNodeData::FileIpList(b)) => match (a, b) {
                (Some(x), Some(y)) => x@ == y@,
                (None, None) => true,
                _ => false,
            },
            (NFNodeData::SourceAddressFilter(a), NFNodeData::SourceAddressFilter(b)) => a@ == b@,
            (
                NFNodeData::DestinationAddressFilter(a),
                NFNodeData::DestinationAddressFilter(b),
            ) => a@ == b@,
            (NFNodeData::SourcePortFilter(a), NFNodeData::SourcePortFilter(b)) => a@ == b@,
            (NFNodeData::DestinationPortFilter(a), NFNodeData::DestinationPortFilter(b)) => a@
                == b@,
            (NFNodeData::ProtocolFilter(a), NFNodeData::ProtocolFilter(b)) => a@ == b@,
            (NFNodeData::FamilySplitter, NFNodeData::FamilySplitter) => true,
            (NFNodeData::InterfaceFilter(a), NFNodeData::InterfaceFilter(b)) => a@ == b@,
            (NFNodeData::Source, NFNodeData::Source) => true,
            (NFNodeData::DestinationNAT(a), NFNodeData::DestinationNAT(b)) => a@ == b@,
            (NFNodeData::Localhost, NFNodeData::Localhost) => true,
            (NFNodeData::SourceNAT(a), NFNodeData::SourceNAT(b)) => a@ == b@,
            (NFNodeData::Drop, NFNodeData::Drop) => true,
            (NFNodeData::Accept, NFNodeData::Accept) => true,
            (
                NFNodeData::Custom { plugin: plugin_a, id: id_a, data: data_a },
                NFNodeData::Custom { plugin: plugin_b, id: id_b, data: data_b },
            ) => plugin_a@ == plugin_b@ && id_a@ == id_b@ && data_a@ == data_b@,
            _ => false,
        }
    }
}

impl Clone for NFNodeData {
    fn clone(&self) -> (copy: Self)
        ensures
            copy.same(self),
    {
        match self {
            NFNodeData::FileIpList(path) => NFNodeData::FileIpList(
                match path {
                    Some(p) => Some(p.clone()),
                    None => None,
                },
            ),
            NFNodeData::SourceAddressFilter(v) => NFNodeData::SourceAddressFilter(v.clone()),
            NFNodeData::DestinationAddressFilter(v) => NFNodeData::DestinationAddressFilter(
                v.clone(),
            ),
            NFNodeData::SourcePortFilter(v) => NFNodeData::SourcePortFilter(v.clone()),
            NFNodeData::DestinationPortFilter(v) => NFNodeData::DestinationPortFilter(v.clone()),
            NFNodeData::ProtocolFilter(v) => NFNodeData::ProtocolFilter(v.clone()),
            NFNodeData::FamilySplitter => NFNodeData::FamilySplitter,
            NFNodeData::InterfaceFilter(v) => NFNodeData::InterfaceFilter(v.clone()),
            NFNodeData::Source => NFNodeData::Source,
            NFNodeData::DestinationNAT(v) => NFNodeData::DestinationNAT(v.clone()),
            NFNodeData::Localhost => NFNodeData::Localhost,
            NFNodeData::SourceNAT(v) => NFNodeData::SourceNAT(v.clone()),
            NFNodeData::Drop => NFNodeData::Drop,
            NFNodeData::Accept => NFNodeData::Accept,
            NFNodeData::Custom { plugin, id, data } => NFNodeData::Custom {
                plugin: plugin.clone(),
                id: id.clone(),
                data: data.clone(),
            },
        }
    }
}

} // verus!
