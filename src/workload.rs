use vstd::prelude::*;

use crate::labels::label_view;
use crate::replication::ReplicationMode;

verus! {

/// The characters of each string of a sequence.
pub open spec fn strs(v: Seq<String>) -> Seq<Seq<char>> {
    v.map_values(|s: String| s@)
}

/// The characters of an optional string.
pub open spec fn opt_str(o: Option<String>) -> Option<Seq<char>> {
    match o {
        Some(s) => Some(s@),
        None => None,
    }
}

/// The characters of each string of an optional list.
pub open spec fn opt_strs(o: Option<Vec<String>>) -> Option<Seq<Seq<char>>> {
    match o {
        Some(v) => Some(strs(v@)),
        None => None,
    }
}

/// The container that an instance runs: image, command, environment,
/// volume binds, the user's labels and resource limits. Absent
/// environment, binds or labels are empty lists.
#[derive(Clone, Debug)]
pub struct ContainerConfig {
    pub image: Option<String>,
    pub cmd: Option<Vec<String>>,
    pub env: Vec<String>,
    pub binds: Vec<String>,
    pub labels: Vec<(String, String)>,
    /// Memory limit in bytes.
    pub memory: Option<i64>,
    /// Relative CPU weight.
    pub cpu_shares: Option<i64>,
    /// CPU quota in units of 10^-9 CPUs.
    pub nano_cpus: Option<i64>,
}

/// A container configuration with each string seen as its characters.
pub struct ContainerView {
    pub image: Option<Seq<char>>,
    pub cmd: Option<Seq<Seq<char>>>,
    pub env: Seq<Seq<char>>,
    pub binds: Seq<Seq<char>>,
    pub labels: Seq<(Seq<char>, Seq<char>)>,
    pub memory: Option<i64>,
    pub cpu_shares: Option<i64>,
    pub nano_cpus: Option<i64>,
}

impl View for ContainerConfig {
    type V = ContainerView;

    open spec fn view(&self) -> ContainerView {
        ContainerView {
            image: opt_str(self.image),
            cmd: opt_strs(self.cmd),
            env: strs(self.env@),
            binds: strs(self.binds@),
            labels: label_view(self.labels@),
            memory: self.memory,
            cpu_shares: self.cpu_shares,
            nano_cpus: self.nano_cpus,
        }
    }
}

/// The desired state of a workload: its container, an optional init
/// container, its replication policy, secrets and metadata tags.
#[derive(Clone, Debug)]
pub struct WorkloadSpec {
    pub name: String,
    pub container: ContainerConfig,
    pub init_container: Option<ContainerConfig>,
    pub replication: Option<ReplicationMode>,
    pub secrets: Option<Vec<String>>,
    pub metadata: Option<Vec<String>>,
}

/// A workload spec with each string seen as its characters.
pub struct WorkloadView {
    pub name: Seq<char>,
    pub container: ContainerView,
    pub init_container: Option<ContainerView>,
    pub replication: Option<ReplicationMode>,
    pub secrets: Option<Seq<Seq<char>>>,
    pub metadata: Option<Seq<Seq<char>>>,
}

pub open spec fn opt_container(o: Option<ContainerConfig>) -> Option<ContainerView> {
    match o {
        Some(c) => Some(c@),
        None => None,
    }
}

impl View for WorkloadSpec {
    type V = WorkloadView;

    open spec fn view(&self) -> WorkloadView {
        WorkloadView {
            name: self.name@,
            container: self.container@,
            init_container: opt_container(self.init_container),
            replication: self.replication,
            secrets: opt_strs(self.secrets),
            metadata: opt_strs(self.metadata),
        }
    }
}

/// The container part of a partial update: each field present replaces or
/// merges into the current one.
#[derive(Clone, Debug)]
pub struct ContainerPatch {
    pub image: Option<String>,
    pub cmd: Option<Vec<String>>,
    pub env: Option<Vec<String>>,
    pub binds: Option<Vec<String>>,
}

/// A partial update of a workload spec.
#[derive(Clone, Debug)]
pub struct SpecPatch {
    pub container: Option<ContainerPatch>,
    pub init_container: Option<ContainerConfig>,
    pub replication: Option<ReplicationMode>,
    pub secrets: Option<Vec<String>>,
    pub metadata: Option<Vec<String>>,
}

/// A copy of a list of strings.
pub fn copy_strings(v: &Vec<String>) -> (r: Vec<String>)
    ensures
        r@ == v@,
{
    let mut r: Vec<String> = Vec::new();
    let mut i: usize = 0;
    while i < v.len()
        invariant
            i <= v@.len(),
            r@ == v@.subrange(0, i as int),
        decreases v@.len() - i,
    {
        r.push(v[i].clone());
        i = i + 1;
    }
    assert(r@ =~= v@);
    r
}

/// A copy of a list of labels.
pub fn copy_labels(v: &Vec<(String, String)>) -> (r: Vec<(String, String)>)
    ensures
        label_view(r@) == label_view(v@),
{
    let mut r: Vec<(String, String)> = Vec::new();
    let mut i: usize = 0;
    while i < v.len()
        invariant
            i <= v@.len(),
            label_view(r@) == label_view(v@).take(i as int),
        decreases v@.len() - i,
    {
        let a = v[i].0.clone();
        let b = v[i].1.clone();
        let ghost before = label_view(r@);
        r.push((a, b));
        assert(label_view(r@) =~= before.push(label_view(v@)[i as int]));
        assert(label_view(v@).take(i as int + 1) =~= label_view(v@).take(i as int).push(label_view(v@)[i as int]));
        i = i + 1;
    }
    assert(label_view(v@).take(v@.len() as int) =~= label_view(v@));
    r
}

/// A copy of an optional list of strings.
pub fn copy_opt_strings(o: &Option<Vec<String>>) -> (r: Option<Vec<String>>)
    ensures
        opt_strs(r) == opt_strs(*o),
{
    match o {
        Some(v) => Some(copy_strings(v)),
        None => None,
    }
}

/// A copy of an optional string.
pub fn copy_opt_string(o: &Option<String>) -> (r: Option<String>)
    ensures
        opt_str(r) == opt_str(*o),
{
    match o {
        Some(s) => Some(s.clone()),
        None => None,
    }
}

impl ContainerConfig {
    /// A copy of this configuration.
    pub fn copy(&self) -> (r: ContainerConfig)
        ensures
            r@ == self@,
    {
        ContainerConfig {
            image: copy_opt_string(&self.image),
            cmd: copy_opt_strings(&self.cmd),
            env: copy_strings(&self.env),
            binds: copy_strings(&self.binds),
            labels: copy_labels(&self.labels),
            memory: self.memory,
            cpu_shares: self.cpu_shares,
            nano_cpus: self.nano_cpus,
        }
    }
}

/// A copy of an optional container configuration.
pub fn copy_opt_container(o: &Option<ContainerConfig>) -> (r: Option<ContainerConfig>)
    ensures
        opt_container(r) == opt_container(*o),
{
    match o {
        Some(c) => Some(c.copy()),
        None => None,
    }
}

impl WorkloadSpec {
    /// A copy of this spec.
    pub fn copy(&self) -> (r: WorkloadSpec)
        ensures
            r@ == self@,
    {
        WorkloadSpec {
            name: self.name.clone(),
            container: self.container.copy(),
            init_container: copy_opt_container(&self.init_container),
            replication: self.replication,
            secrets: copy_opt_strings(&self.secrets),
            metadata: copy_opt_strings(&self.metadata),
        }
    }
}

} // verus!
