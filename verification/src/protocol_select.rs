use vstd::prelude::*;

verus! {

/// What the service knows of one protocol: its name and the versions of it
/// that this node speaks.
#[derive(Debug, PartialEq, Eq)]
pub struct ProtocolInfo {
    /// The protocol's name.
    pub name: String,
    /// The supported versions, most preferred first.
    pub support_versions: Vec<String>,
}

impl ProtocolInfo {
    /// The metadata of the protocol `name` in the given versions.
    pub fn new(name: String, support_versions: Vec<String>) -> (info: Self)
        ensures
            info.name == name,
            info.support_versions == support_versions,
    {
        ProtocolInfo { name, support_versions }
    }
}

} // verus!
