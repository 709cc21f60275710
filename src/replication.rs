use vstd::prelude::*;

verus! {

/// How many instances a workload asks for, and how they are placed.
#[derive(Clone, Copy, Debug, PartialEq, Eq, Structural)]
pub enum ReplicationMode {
    /// A fixed number of instances.
    Static(u64),
    /// Placement left to the scheduler.
    Auto,
    /// A single instance.
    Unique,
    /// One instance, placed by the scheduler on each node.
    UniqueByNode,
}

/// The number of instances that a replication policy asks for; a workload
/// without a policy runs one instance.
pub open spec fn instance_count(mode: Option<ReplicationMode>) -> nat {
    match mode {
        Some(ReplicationMode::Static(n)) => n as nat,
        _ => 1,
    }
}

/// Resolves a replication policy to the number of instances to create.
pub fn resolve_replication(mode: &Option<ReplicationMode>) -> (r: u64)
    ensures
        r as nat == instance_count(*mode),
{
    match mode {
        Some(ReplicationMode::Static(n)) => *n,
        Some(ReplicationMode::Auto) => 1,
        Some(ReplicationMode::Unique) => 1,
        Some(ReplicationMode::UniqueByNode) => 1,
        None => 1,
    }
}

/// A static policy asks for exactly its count, every other policy (and no
/// policy) for one instance.
pub proof fn law_resolution(n: u64)
    ensures
        instance_count(Some(ReplicationMode::Static(n))) == n as nat,
        instance_count(Some(ReplicationMode::Auto)) == 1,
        instance_count(Some(ReplicationMode::Unique)) == 1,
        instance_count(Some(ReplicationMode::UniqueByNode)) == 1,
        instance_count(None) == 1,
{
}

} // verus!
