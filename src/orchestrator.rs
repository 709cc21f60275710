use vstd::prelude::*;

use crate::labels::{hook_labels, hooked, label_keys_unique, label_view};
use crate::workload::{ContainerConfig, WorkloadSpec};

verus! {

/// What the runtime is asked to create for a workload: the container's
/// name, its configuration, its labels and whether it always restarts.
#[derive(Debug)]
pub struct ContainerPlan {
    pub name: String,
    pub config: ContainerConfig,
    pub labels: Vec<(String, String)>,
    pub restart_always: bool,
}

/// The key of a workload in a namespace: `{name}.{namespace}`.
pub open spec fn workload_key(name: Seq<char>, namespace: Seq<char>) -> Seq<char> {
    name + "."@ + namespace
}

/// The key of a workload in a namespace: `{name}.{namespace}`.
pub fn workload_key_of(name: &str, namespace: &str) -> (r: String)
    ensures
        r@ == workload_key(name@, namespace@),
{
    let mut key = String::from_str(name);
    key.append(".");
    key.append(namespace);
    key
}

/// Whether no two labels share a key.
pub fn labels_unique(v: &Vec<(String, String)>) -> (r: bool)
    ensures
        r == label_keys_unique(label_view(v@)),
{
    let ghost lv = label_view(v@);
    let mut i: usize = 0;
    while i < v.len()
        invariant
            lv == label_view(v@),
            i <= v@.len(),
            forall|a: int, b: int| 0 <= a < i && 0 <= b < i && a != b ==> #[trigger] lv[a].0 != #[trigger] lv[b].0,
        decreases v@.len() - i,
    {
        let mut j: usize = 0;
        while j < i
            invariant
                lv == label_view(v@),
                i < v@.len(),
                j <= i,
                forall|a: int| 0 <= a < j ==> #[trigger] lv[a].0 != lv[i as int].0,
            decreases i - j,
        {
            if v[j].0 == v[i].0 {
                assert(lv[j as int].0 == lv[i as int].0);
                return false;
            }
            j = j + 1;
        }
        i = i + 1;
    }
    true
}

/// The container to create for a workload spec in a namespace: named
/// `{key}.c`, with the orchestrator's labels set over the container's own
/// and a restart policy that always restarts it.
pub fn plan_container(spec: &WorkloadSpec, namespace: &str) -> (r: ContainerPlan)
    requires
        label_keys_unique(spec.container@.labels),
    ensures
        r.name@ == workload_key(spec.name@, namespace@) + ".c"@,
        r.config@ == spec.container@,
        label_view(r.labels@) == hooked(spec.container@.labels, workload_key(spec.name@, namespace@), namespace@),
        label_keys_unique(label_view(r.labels@)),
        r.restart_always,
{
    let key = workload_key_of(spec.name.as_str(), namespace);
    let hooked_labels = hook_labels(key.as_str(), namespace, &spec.container.labels);
    let mut name = key.clone();
    name.append(".c");
    ContainerPlan {
        name,
        config: spec.container.copy(),
        labels: hooked_labels,
        restart_always: true,
    }
}

/// The container name of one replica of the workload `key`: `{key}-{tag}.c`.
pub fn replica_name(key: &str, tag: &str) -> (r: String)
    ensures
        r@ == key@ + "-"@ + tag@ + ".c"@,
{
    let mut name = String::from_str(key);
    name.append("-");
    name.append(tag);
    name.append(".c");
    name
}

/// What to do with one status line of an image pull.
#[derive(Debug, Clone, Copy, PartialEq, Eq, Structural)]
pub enum PullAction {
    /// Update the progress of the layer.
    Progress,
    /// Mark the layer as fully downloaded.
    Complete,
    /// Print the status, unless the layer is tracked.
    Message,
}

/// The action for a status line of an image pull: layers being pulled,
/// downloaded or extracted report progress, a completed download completes
/// its layer, anything else is a message.
pub fn pull_action(status: &String) -> (r: PullAction)
    ensures
        r == if status@ == "Pulling fs layer"@ || status@ == "Downloading"@ || status@ == "Extracting"@ {
            PullAction::Progress
        } else if status@ == "Download complete"@ {
            PullAction::Complete
        } else {
            PullAction::Message
        },
{
    if *status == String::from_str("Pulling fs layer") || *status == String::from_str("Downloading")
        || *status == String::from_str("Extracting") {
        PullAction::Progress
    } else if *status == String::from_str("Download complete") {
        PullAction::Complete
    } else {
        PullAction::Message
    }
}

/// How far a layer has come, in percent of its total size, at most 100; a
/// layer of unknown size is at 0.
pub fn layer_percent(current: u64, total: u64) -> (r: u64)
    ensures
        r == if total == 0 {
            0
        } else if current >= total {
            100
        } else {
            current as int * 100 / total as int
        },
        r <= 100,
{
    if total == 0 {
        0
    } else if current >= total {
        100
    } else {
        let p = (current as u128) * 100 / (total as u128);
        assert(p <= 100) by (nonlinear_arith)
            requires
                p == current as int * 100 / total as int,
                current < total,
                total > 0,
        ;
        p as u64
    }
}

} // verus!
