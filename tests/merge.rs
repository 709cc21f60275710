use nanocl::labels::hook_labels;
use nanocl::merge::{merge_env_vars, merge_spec, merge_volume_binds};
use nanocl::replication::{resolve_replication, ReplicationMode};
use nanocl::workload::{ContainerConfig, ContainerPatch, SpecPatch, WorkloadSpec};

fn strings(v: &[&str]) -> Vec<String> {
    v.iter().map(|s| s.to_string()).collect()
}

fn spec(env: &[&str], binds: &[&str]) -> WorkloadSpec {
    WorkloadSpec {
        name: "web".to_string(),
        container: ContainerConfig {
            image: Some("nginx:1".to_string()),
            cmd: Some(strings(&["run"])),
            env: strings(env),
            binds: strings(binds),
            labels: vec![("tier".to_string(), "front".to_string())],
            memory: Some(1024),
            cpu_shares: Some(512),
            nano_cpus: None,
        },
        init_container: None,
        replication: Some(ReplicationMode::Static(2)),
        secrets: Some(strings(&["s1"])),
        metadata: None,
    }
}

fn empty_patch() -> SpecPatch {
    SpecPatch { container: None, init_container: None, replication: None, secrets: None, metadata: None }
}

#[test]
fn resolve_static_counts() {
    assert_eq!(resolve_replication(&Some(ReplicationMode::Static(3))), 3);
    assert_eq!(resolve_replication(&Some(ReplicationMode::Static(0))), 0);
    assert_eq!(resolve_replication(&Some(ReplicationMode::Static(u64::MAX))), u64::MAX);
}

#[test]
fn resolve_other_policies_give_one() {
    assert_eq!(resolve_replication(&Some(ReplicationMode::Auto)), 1);
    assert_eq!(resolve_replication(&Some(ReplicationMode::Unique)), 1);
    assert_eq!(resolve_replication(&Some(ReplicationMode::UniqueByNode)), 1);
    assert_eq!(resolve_replication(&None), 1);
}

#[test]
fn env_empty_patch_is_identity() {
    let cur = strings(&["B=2", "A=1", "C=x=y"]);
    assert_eq!(merge_env_vars(&cur, &vec![]), cur);
}

#[test]
fn env_override() {
    let r = merge_env_vars(&strings(&["A=1", "B=2"]), &strings(&["B=3"]));
    assert_eq!(r, strings(&["A=1", "B=3"]));
}

#[test]
fn env_deletion() {
    let r = merge_env_vars(&strings(&["A=1", "B=2"]), &strings(&["B="]));
    assert_eq!(r, strings(&["A=1"]));
}

#[test]
fn env_append() {
    let r = merge_env_vars(&strings(&["A=1"]), &strings(&["C=3"]));
    assert_eq!(r, strings(&["A=1", "C=3"]));
}

#[test]
fn env_same_value_is_noop() {
    let r = merge_env_vars(&strings(&["A=1", "B=2"]), &strings(&["A=1"]));
    assert_eq!(r, strings(&["A=1", "B=2"]));
}

#[test]
fn env_malformed_entry_dropped() {
    let r = merge_env_vars(&strings(&["A=1"]), &strings(&["NOVALUE", "D=4"]));
    assert_eq!(r, strings(&["A=1", "D=4"]));
}

#[test]
fn env_value_keeps_later_separators() {
    let r = merge_env_vars(&strings(&["A=1", "URL=x"]), &strings(&["URL=a=b=c"]));
    assert_eq!(r, strings(&["A=1", "URL=a=b=c"]));
}

#[test]
fn env_key_is_not_a_prefix_match() {
    let r = merge_env_vars(&strings(&["AB=1"]), &strings(&["A=2"]));
    assert_eq!(r, strings(&["AB=1", "A=2"]));
}

#[test]
fn env_deleting_unknown_key_appends() {
    let r = merge_env_vars(&strings(&["A=1"]), &strings(&["Z="]));
    assert_eq!(r, strings(&["A=1", "Z="]));
}

#[test]
fn binds_set_union() {
    let r = merge_volume_binds(&strings(&["/a:/a"]), &strings(&["/a:/a", "/b:/b"]));
    assert_eq!(r, strings(&["/a:/a", "/b:/b"]));
}

#[test]
fn binds_same_target_not_deduplicated() {
    let r = merge_volume_binds(&strings(&["/a:/data"]), &strings(&["/b:/data", "/b:/data"]));
    assert_eq!(r, strings(&["/a:/data", "/b:/data"]));
}

#[test]
fn merge_spec_without_patch_keeps_spec() {
    let cur = spec(&["A=1"], &["/a:/a"]);
    let r = merge_spec(&cur, &empty_patch());
    assert_eq!(r.name, "web");
    assert_eq!(r.container.image, Some("nginx:1".to_string()));
    assert_eq!(r.container.env, strings(&["A=1"]));
    assert_eq!(r.container.binds, strings(&["/a:/a"]));
    assert_eq!(r.replication, Some(ReplicationMode::Static(2)));
    assert_eq!(r.secrets, Some(strings(&["s1"])));
}

#[test]
fn merge_spec_merges_container_and_replaces_fields() {
    let cur = spec(&["A=1", "B=2"], &["/a:/a"]);
    let patch = SpecPatch {
        container: Some(ContainerPatch {
            image: Some("nginx:2".to_string()),
            cmd: None,
            env: Some(strings(&["B=", "C=3"])),
            binds: Some(strings(&["/b:/b"])),
        }),
        init_container: None,
        replication: Some(ReplicationMode::Auto),
        secrets: None,
        metadata: Some(strings(&["team=core"])),
    };
    let r = merge_spec(&cur, &patch);
    assert_eq!(r.container.image, Some("nginx:2".to_string()));
    assert_eq!(r.container.cmd, Some(strings(&["run"])));
    assert_eq!(r.container.env, strings(&["A=1", "C=3"]));
    assert_eq!(r.container.binds, strings(&["/a:/a", "/b:/b"]));
    assert_eq!(r.replication, Some(ReplicationMode::Auto));
    assert_eq!(r.secrets, Some(strings(&["s1"])));
    assert_eq!(r.metadata, Some(strings(&["team=core"])));
    assert_eq!(r.container.labels, vec![("tier".to_string(), "front".to_string())]);
    assert_eq!(r.container.memory, Some(1024));
    assert_eq!(r.container.cpu_shares, Some(512));
    assert_eq!(r.container.nano_cpus, None);
}

#[test]
fn hook_labels_sets_orchestrator_labels() {
    let user = vec![("app".to_string(), "web".to_string()), ("io.nanocl.n".to_string(), "x".to_string())];
    let r = hook_labels("web.global", "global", &user);
    let get = |k: &str| r.iter().find(|(a, _)| a == k).map(|(_, b)| b.clone());
    assert_eq!(r.len(), 6);
    assert_eq!(r[0], ("app".to_string(), "web".to_string()));
    assert_eq!(r[1], ("io.nanocl.n".to_string(), "global".to_string()));
    assert_eq!(get("io.nanocl"), Some("enabled".to_string()));
    assert_eq!(get("io.nanocl.kind"), Some("Cargo".to_string()));
    assert_eq!(get("io.nanocl.c"), Some("web.global".to_string()));
    assert_eq!(get("com.docker.compose.project"), Some("nanocl_global".to_string()));
}
