use nanocl::endpoint::{context_docker_host, docker_endpoint, DockerEndpoint};
use nanocl::instance::{Instance, InstanceState, ProcessKind};
use nanocl::lifecycle::{LifecycleError, Registry, SpecRecord};
use nanocl::orchestrator::{
    labels_unique, layer_percent, plan_container, pull_action, replica_name, workload_key_of, PullAction,
};
use nanocl::replication::ReplicationMode;
use nanocl::workload::{ContainerConfig, ContainerPatch, SpecPatch, WorkloadSpec};

fn spec(replicas: u64) -> WorkloadSpec {
    WorkloadSpec {
        name: "web".to_string(),
        container: ContainerConfig {
            image: Some("nginx:1".to_string()),
            cmd: None,
            env: vec!["A=1".to_string()],
            binds: vec![],
            labels: vec![("app".to_string(), "web".to_string())],
            memory: Some(268435456),
            cpu_shares: None,
            nano_cpus: Some(500000000),
        },
        init_container: None,
        replication: Some(ReplicationMode::Static(replicas)),
        secrets: None,
        metadata: None,
    }
}

fn ok(k: &str) -> Result<String, String> {
    Ok(k.to_string())
}

fn s(k: &str) -> String {
    k.to_string()
}

fn owned(reg: &Registry, key: &str) -> Vec<String> {
    let mut v: Vec<String> = reg.instances.iter().filter(|i| i.owner_key == key).map(|i| i.key.clone()).collect();
    v.sort();
    v
}

fn has_spec(reg: &Registry, key: &str) -> bool {
    reg.specs.iter().any(|r| r.key == key)
}

fn created_registry() -> Registry {
    let mut reg = Registry::new();
    let r = reg.create_workload(&s("web.global"), &s("global"), &s("v1"), &spec(2), &vec![ok("web-0.c"), ok("web-1.c")]);
    assert_eq!(r.unwrap(), vec![s("web-0.c"), s("web-1.c")]);
    reg
}

#[test]
fn create_records_spec_and_stopped_instances() {
    let reg = created_registry();
    assert!(has_spec(&reg, "web.global"));
    assert_eq!(owned(&reg, "web.global"), vec![s("web-0.c"), s("web-1.c")]);
    assert!(reg.instances.iter().all(|i| i.state == InstanceState::Stopped && i.kind == ProcessKind::Cargo));
}

#[test]
fn create_failure_leaves_nothing() {
    let mut reg = Registry::new();
    let r = reg.create_workload(
        &s("web.global"),
        &s("global"),
        &s("v1"),
        &spec(3),
        &vec![ok("web-0.c"), Err(s("no space left")), ok("web-2.c")],
    );
    match r {
        Err(LifecycleError::CreateFailed { rolled_back, reasons }) => {
            assert_eq!(rolled_back, vec![s("web-0.c"), s("web-2.c")]);
            assert_eq!(reasons, vec![s("no space left")]);
        },
        other => panic!("unexpected {:?}", other),
    }
    assert!(!has_spec(&reg, "web.global"));
    assert!(owned(&reg, "web.global").is_empty());
}

#[test]
fn create_short_batch_fails() {
    let mut reg = Registry::new();
    let r = reg.create_workload(&s("web.global"), &s("global"), &s("v1"), &spec(3), &vec![ok("a"), ok("b")]);
    assert!(matches!(r, Err(LifecycleError::CreateFailed { .. })));
    assert!(reg.specs.is_empty() && reg.instances.is_empty());
}

#[test]
fn create_existing_key_conflicts() {
    let mut reg = created_registry();
    let r = reg.create_workload(&s("web.global"), &s("global"), &s("v2"), &spec(1), &vec![ok("x")]);
    assert!(matches!(r, Err(LifecycleError::Conflict(k)) if k == "web.global"));
    assert_eq!(reg.specs.len(), 1);
}

#[test]
fn create_duplicate_instance_key_fails() {
    let mut reg = created_registry();
    let r = reg.create_workload(&s("db.global"), &s("global"), &s("v1"), &spec(1), &vec![ok("web-0.c")]);
    assert!(matches!(r, Err(LifecycleError::CreateFailed { .. })));
    assert!(!has_spec(&reg, "db.global"));
}

#[test]
fn put_start_failure_rolls_back() {
    let mut reg = created_registry();
    let before = owned(&reg, "web.global");
    let r = reg.put_workload(
        &s("web.global"),
        &s("v2"),
        &spec(3),
        &vec![ok("web-a.c"), ok("web-b.c"), ok("web-c.c")],
        &Err(s("address in use")),
        &vec![s("web-a.c"), s("web-b.c"), s("web-c.c")],
    );
    match r {
        Err(LifecycleError::PutRolledBack { not_removed, reason }) => {
            assert!(not_removed.is_empty());
            assert_eq!(reason, "address in use");
        },
        other => panic!("unexpected {:?}", other),
    }
    assert_eq!(owned(&reg, "web.global"), before);
}

#[test]
fn put_success_swaps_instances() {
    let mut reg = created_registry();
    let r = reg.put_workload(
        &s("web.global"),
        &s("v2"),
        &spec(3),
        &vec![ok("web-a.c"), ok("web-b.c"), ok("web-c.c")],
        &Ok(()),
        &vec![s("web-0.c"), s("web-1.c")],
    );
    assert_eq!(r.unwrap(), vec![s("web-a.c"), s("web-b.c"), s("web-c.c")]);
    assert_eq!(owned(&reg, "web.global"), vec![s("web-a.c"), s("web-b.c"), s("web-c.c")]);
    assert!(reg.instances.iter().all(|i| i.state == InstanceState::Running));
    let inspect = reg.inspect_workload(&s("web.global")).unwrap();
    assert_eq!(inspect.version, "v2");
    assert_eq!(inspect.instance_total, 3);
}

#[test]
fn put_creation_failure_keeps_old_instances() {
    let mut reg = created_registry();
    let r = reg.put_workload(
        &s("web.global"),
        &s("v2"),
        &spec(2),
        &vec![ok("web-a.c"), Err(s("pull failed"))],
        &Ok(()),
        &vec![],
    );
    assert!(matches!(r, Err(LifecycleError::CreateFailed { .. })));
    assert_eq!(owned(&reg, "web.global"), vec![s("web-0.c"), s("web-1.c")]);
}

#[test]
fn put_partial_removal_reports_remaining() {
    let mut reg = created_registry();
    let r = reg.put_workload(&s("web.global"), &s("v2"), &spec(1), &vec![ok("web-a.c")], &Ok(()), &vec![s("web-0.c")]);
    match &r {
        Err(LifecycleError::PartialRemoval { remaining }) => assert_eq!(remaining, &vec![s("web-1.c")]),
        other => panic!("unexpected {:?}", other),
    }
    assert!(!r.unwrap_err().is_retry_safe());
    assert_eq!(owned(&reg, "web.global"), vec![s("web-1.c"), s("web-a.c")]);
}

#[test]
fn put_unknown_key_not_found() {
    let mut reg = Registry::new();
    let r = reg.put_workload(&s("nope"), &s("v2"), &spec(1), &vec![ok("a")], &Ok(()), &vec![]);
    assert!(matches!(r, Err(LifecycleError::NotFound(k)) if k == "nope"));
    assert!(reg.specs.is_empty());
}

#[test]
fn patch_merges_then_replaces() {
    let mut reg = created_registry();
    let patch = SpecPatch {
        container: Some(ContainerPatch { image: None, cmd: None, env: Some(vec![s("B=2")]), binds: None }),
        init_container: None,
        replication: Some(ReplicationMode::Static(1)),
        secrets: None,
        metadata: None,
    };
    let r = reg.patch_workload(&s("web.global"), &s("v2"), &patch, &vec![ok("web-a.c")], &Ok(()), &vec![s("web-0.c"), s("web-1.c")]);
    assert_eq!(r.unwrap(), vec![s("web-a.c")]);
    let inspect = reg.inspect_workload(&s("web.global")).unwrap();
    assert_eq!(inspect.spec.container.env, vec![s("A=1"), s("B=2")]);
    assert_eq!(inspect.spec.container.image, Some(s("nginx:1")));
    assert_eq!(inspect.spec.replication, Some(ReplicationMode::Static(1)));
    assert_eq!(owned(&reg, "web.global"), vec![s("web-a.c")]);
}

#[test]
fn delete_failure_keeps_spec() {
    let mut reg = created_registry();
    let r = reg.delete_workload(&s("web.global"), &vec![s("web-0.c")]);
    match &r {
        Err(LifecycleError::PartialRemoval { remaining }) => assert_eq!(remaining, &vec![s("web-1.c")]),
        other => panic!("unexpected {:?}", other),
    }
    assert!(has_spec(&reg, "web.global"));
    assert_eq!(owned(&reg, "web.global"), vec![s("web-1.c")]);
}

#[test]
fn delete_success_removes_all() {
    let mut reg = created_registry();
    reg.create_workload(&s("db.global"), &s("global"), &s("v1"), &spec(1), &vec![ok("db-0.c")]).unwrap();
    let r = reg.delete_workload(&s("web.global"), &vec![s("web-0.c"), s("web-1.c")]);
    assert!(r.is_ok());
    assert!(!has_spec(&reg, "web.global"));
    assert!(has_spec(&reg, "db.global"));
    assert!(owned(&reg, "web.global").is_empty());
    assert_eq!(owned(&reg, "db.global"), vec![s("db-0.c")]);
    assert!(matches!(reg.inspect_workload(&s("web.global")), Err(LifecycleError::NotFound(_))));
}

#[test]
fn delete_unknown_key_not_found() {
    let mut reg = Registry::new();
    let r = reg.delete_workload(&s("nope"), &vec![]);
    let e = r.unwrap_err();
    assert!(matches!(e, LifecycleError::NotFound(_)));
    assert!(e.is_retry_safe());
}

fn instance(key: &str, state: InstanceState) -> Instance {
    Instance { key: s(key), owner_key: s("web.global"), kind: ProcessKind::Cargo, state, namespace: s("global") }
}

#[test]
fn inspect_counts_running() {
    let reg = Registry {
        specs: vec![SpecRecord { key: s("web.global"), namespace: s("global"), version: s("v1"), spec: spec(3) }],
        instances: vec![
            instance("web-0.c", InstanceState::Running),
            instance("web-1.c", InstanceState::Failed),
            instance("web-2.c", InstanceState::Running),
        ],
    };
    let r = reg.inspect_workload(&s("web.global")).unwrap();
    assert_eq!(r.instance_running, 2);
    assert_eq!(r.instance_total, 3);
    assert_eq!(r.namespace, "global");
    assert_eq!(r.instances.len(), 3);
}

#[test]
fn docker_endpoint_schemes() {
    assert!(matches!(docker_endpoint("unix:///var/run/docker.sock"), Ok(DockerEndpoint::Unix(p)) if p == "/var/run/docker.sock"));
    assert!(matches!(docker_endpoint("http://localhost:2375"), Ok(DockerEndpoint::Http(h)) if h == "http://localhost:2375"));
    assert!(matches!(docker_endpoint("https://h:2376"), Ok(DockerEndpoint::Http(_))));
    assert!(matches!(docker_endpoint("tcp://h:2375"), Err(m) if m == "tcp://h:2375 have invalid schema"));
}

#[test]
fn context_host_choice() {
    let d = s("unix:///var/run/docker.sock");
    assert_eq!(context_docker_host(&None, &None).unwrap(), (d.clone(), false));
    assert_eq!(context_docker_host(&Some(s("default")), &Some(s("unix:///x"))).unwrap(), (d.clone(), false));
    assert_eq!(context_docker_host(&Some(s("remote")), &None).unwrap(), (d, false));
    assert_eq!(context_docker_host(&Some(s("desktop-linux")), &Some(s("unix:///d.sock"))).unwrap(), (s("unix:///d.sock"), true));
    assert_eq!(context_docker_host(&Some(s("other")), &Some(s("unix:///o.sock"))).unwrap(), (s("unix:///o.sock"), false));
    assert!(context_docker_host(&Some(s("other")), &Some(s("tcp://h"))).is_err());
}

#[test]
fn pull_status_actions() {
    assert_eq!(pull_action(&s("Pulling fs layer")), PullAction::Progress);
    assert_eq!(pull_action(&s("Downloading")), PullAction::Progress);
    assert_eq!(pull_action(&s("Extracting")), PullAction::Progress);
    assert_eq!(pull_action(&s("Download complete")), PullAction::Complete);
    assert_eq!(pull_action(&s("Status: up to date")), PullAction::Message);
}

#[test]
fn plan_container_names_and_labels() {
    let p = plan_container(&spec(1), "global");
    assert_eq!(p.name, "web.global.c");
    assert!(p.restart_always);
    assert_eq!(p.config.image, Some(s("nginx:1")));
    assert!(p.labels.iter().any(|(k, v)| k == "io.nanocl.c" && v == "web.global"));
    assert!(p.labels.iter().any(|(k, v)| k == "com.docker.compose.project" && v == "nanocl_global"));
    assert!(p.labels.iter().any(|(k, v)| k == "app" && v == "web"));
    assert_eq!(p.config.memory, Some(268435456));
    assert_eq!(p.config.nano_cpus, Some(500000000));
}

#[test]
fn label_uniqueness_and_keys() {
    assert!(labels_unique(&vec![(s("a"), s("1")), (s("b"), s("1"))]));
    assert!(!labels_unique(&vec![(s("a"), s("1")), (s("b"), s("2")), (s("a"), s("3"))]));
    assert!(labels_unique(&vec![]));
    assert_eq!(workload_key_of("web", "global"), "web.global");
}

#[test]
fn put_in_two_steps() {
    let mut reg = created_registry();
    reg.record_version(&s("web.global"), &s("v2"), &spec(1)).unwrap();
    assert_eq!(reg.specs.len(), 2);
    assert_eq!(owned(&reg, "web.global"), vec![s("web-0.c"), s("web-1.c")]);
    let r = reg.apply_batch(&s("web.global"), &vec![ok("web-a.c")], &Ok(()), &vec![s("web-0.c"), s("web-1.c")]);
    assert_eq!(r.unwrap(), vec![s("web-a.c")]);
    assert_eq!(owned(&reg, "web.global"), vec![s("web-a.c")]);
    let mut missing = Registry::new();
    assert!(matches!(missing.record_version(&s("nope"), &s("v1"), &spec(1)), Err(LifecycleError::NotFound(_))));
    assert!(matches!(missing.apply_batch(&s("nope"), &vec![], &Ok(()), &vec![]), Err(LifecycleError::NotFound(_))));
}

#[test]
fn create_without_policy_gives_one_instance() {
    let mut reg = Registry::new();
    let mut one = spec(1);
    one.replication = None;
    let r = reg.create_workload(&s("web.global"), &s("global"), &s("v1"), &one, &vec![ok("web-0.c")]);
    assert_eq!(r.unwrap().len(), 1);
    assert_eq!(reg.instances.len(), 1);
    let mut reg = Registry::new();
    let r = reg.create_workload(&s("web.global"), &s("global"), &s("v1"), &one, &vec![ok("a"), ok("b")]);
    assert!(matches!(r, Err(LifecycleError::CreateFailed { .. })));
}

#[test]
fn failed_put_keeps_new_version_recorded() {
    let mut reg = created_registry();
    let r = reg.put_workload(&s("web.global"), &s("v2"), &spec(2), &vec![Err(s("pull failed"))], &Ok(()), &vec![]);
    assert!(matches!(r, Err(LifecycleError::CreateFailed { .. })));
    assert_eq!(reg.inspect_workload(&s("web.global")).unwrap().version, "v2");
    assert_eq!(owned(&reg, "web.global"), vec![s("web-0.c"), s("web-1.c")]);
}

#[test]
fn layer_percent_values() {
    assert_eq!(layer_percent(0, 0), 0);
    assert_eq!(layer_percent(50, 200), 25);
    assert_eq!(layer_percent(1, 3), 33);
    assert_eq!(layer_percent(300, 200), 100);
    assert_eq!(layer_percent(u64::MAX - 1, u64::MAX), 99);
}

#[test]
fn batch_acceptance() {
    let reg = created_registry();
    assert!(reg.batch_accepted(&spec(2), &vec![ok("web-a.c"), ok("web-b.c")]));
    assert!(!reg.batch_accepted(&spec(2), &vec![ok("web-a.c")]));
    assert!(!reg.batch_accepted(&spec(2), &vec![ok("web-a.c"), Err(s("refused"))]));
    assert!(!reg.batch_accepted(&spec(2), &vec![ok("web-a.c"), ok("web-a.c")]));
    assert!(!reg.batch_accepted(&spec(1), &vec![ok("web-0.c")]));
}

#[test]
fn teardown_choice_after_start() {
    let reg = created_registry();
    let new_keys = vec![s("web-a.c")];
    let mut old = reg.teardown_after_start(&s("web.global"), &new_keys, true);
    old.sort();
    assert_eq!(old, vec![s("web-0.c"), s("web-1.c")]);
    assert_eq!(reg.teardown_after_start(&s("web.global"), &new_keys, false), new_keys);
}

#[test]
fn replica_names() {
    assert_eq!(replica_name("web.global", "v2-0"), "web.global-v2-0.c");
}
