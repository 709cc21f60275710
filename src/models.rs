use vstd::prelude::*;

verus! {

/// The commands on generic resources.
#[derive(Debug)]
pub enum ResourceCommands {
    /// Remove existing resources.
    Remove(ResourceRemoveOpts),
    /// List existing resources.
    List,
    /// Inspect a resource.
    Inspect(ResourceInspectOpts),
}

/// The arguments of the resource commands.
#[derive(Debug)]
pub struct ResourceArgs {
    pub commands: ResourceCommands,
}

/// Which resources to remove.
#[derive(Debug)]
pub struct ResourceRemoveOpts {
    /// The names of the resources to delete.
    pub names: Vec<String>,
}

/// Which resource to inspect.
#[derive(Debug)]
pub struct ResourceInspectOpts {
    /// The name of the resource to inspect.
    pub name: String,
}

/// A node of the cluster as the store keeps it.
#[derive(Debug, Clone)]
pub struct NodeDbModel {
    pub name: String,
    pub ip_address: String,
}

} // verus!
