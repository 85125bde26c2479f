use workd::runtime::error::Code;
use workd::runtime::state::{
    check_vimana_labels, lookup, matches_pod, now, same_config, same_pairs, timestamp_from_nanos,
    ContainerConfig, ContainerMetadata, PodState, PodTable, Readiness, StartStep,
};
use workd::runtime::error::Status;

fn pairs(items: &[(&str, &str)]) -> Vec<(String, String)> {
    items.iter().map(|(k, v)| (k.to_string(), v.to_string())).collect()
}

fn config(labels: &[(&str, &str)], environment: &[(&str, &str)]) -> ContainerConfig {
    ContainerConfig {
        metadata: Some(ContainerMetadata { name: "server".to_string(), attempt: 1 }),
        labels: pairs(labels),
        annotations: Vec::new(),
        environment: pairs(environment),
    }
}

fn table_with_pod() -> (PodTable, usize) {
    let mut table = PodTable::new();
    let id = table.allocate_id();
    table
        .insert_initiated(id, pairs(&[("app", "web")]), Vec::new(), 10)
        .unwrap();
    (table, id)
}

fn state(table: &PodTable, id: usize) -> Option<PodState> {
    table.get(id).map(|rec| rec.state)
}

#[test]
fn pod_lifecycle_runs_through() {
    let (mut table, id) = table_with_pod();
    assert_eq!(state(&table, id), Some(PodState::Initiated));
    table.create_container(id, config(&[("k", "v")], &[("A", "1")]), 20).unwrap();
    assert_eq!(state(&table, id), Some(PodState::Created));
    assert_eq!(table.get(id).unwrap().container_created_at, 20);
    assert_eq!(table.begin_start(id, Readiness::Ready).unwrap(), StartStep::Bind);
    assert_eq!(state(&table, id), Some(PodState::Starting));
    table.finish_start(id, 30).unwrap();
    assert_eq!(state(&table, id), Some(PodState::Running));
    assert_eq!(table.get(id).unwrap().container_started_at, 30);
    assert_eq!(table.stop_container(id).unwrap(), true);
    assert_eq!(state(&table, id), Some(PodState::Stopped));
    table.remove_container(id).unwrap();
    assert_eq!(state(&table, id), Some(PodState::Removed));
    assert_eq!(table.kill_pod(id).unwrap(), Some(false));
    assert_eq!(state(&table, id), Some(PodState::Killed));
    table.delete_pod(id).unwrap();
    assert!(table.get(id).is_none());
}

#[test]
fn create_container_is_idempotent() {
    let (mut table, id) = table_with_pod();
    table.create_container(id, config(&[("a", "1"), ("b", "2")], &[]), 20).unwrap();
    // The same labels in another order are the same configuration.
    table.create_container(id, config(&[("b", "2"), ("a", "1")], &[]), 25).unwrap();
    assert_eq!(table.get(id).unwrap().container_created_at, 20);
    let err = table.create_container(id, config(&[("a", "2")], &[]), 30).unwrap_err();
    assert_eq!(err.message(), "container-already-created");
    assert_eq!(err.code(), Code::Internal);
}

#[test]
fn transitions_on_missing_pods_fail() {
    let mut table = PodTable::new();
    assert_eq!(
        table.create_container(7, config(&[], &[]), 1).unwrap_err().message(),
        "create-container-not-found"
    );
    assert_eq!(
        table.begin_start(7, Readiness::Ready).unwrap_err().message(),
        "starting-container-not-found"
    );
    assert_eq!(table.finish_start(7, 1).unwrap_err().message(), "started-container-not-found");
    assert_eq!(table.stop_container(7).unwrap_err().message(), "stop-container-not-found");
    assert_eq!(table.remove_container(7).unwrap_err().message(), "remove-container-not-found");
    assert_eq!(table.kill_pod(7).unwrap_err().message(), "kill-pod-not-found");
    assert_eq!(table.delete_pod(7).unwrap_err().message(), "delete-pod-not-found");
}

#[test]
fn transitions_in_bad_states_fail() {
    let (mut table, id) = table_with_pod();
    assert_eq!(
        table.begin_start(id, Readiness::Ready).unwrap_err().message(),
        "starting-container-bad-state"
    );
    assert_eq!(table.finish_start(id, 1).unwrap_err().message(), "started-container-bad-state");
    assert_eq!(table.stop_container(id).unwrap_err().message(), "stop-container-bad-state");
    assert_eq!(table.remove_container(id).unwrap_err().message(), "remove-container-bad-state");
    assert_eq!(table.delete_pod(id).unwrap_err().message(), "delete-pod-bad-state");
    table.create_container(id, config(&[], &[]), 2).unwrap();
    table.begin_start(id, Readiness::Ready).unwrap();
    assert_eq!(
        table.create_container(id, config(&[], &[]), 3).unwrap_err().message(),
        "create-container-bad-state"
    );
    assert_eq!(
        table.insert_initiated(id, Vec::new(), Vec::new(), 4).unwrap_err().message(),
        "pod-id-collision"
    );
}

#[test]
fn start_waits_fails_and_locks() {
    let (mut table, id) = table_with_pod();
    table.create_container(id, config(&[], &[]), 2).unwrap();
    assert_eq!(table.begin_start(id, Readiness::Pending).unwrap(), StartStep::Wait);
    assert_eq!(state(&table, id), Some(PodState::Created));
    let init_error = Status::internal("component-init-failed");
    assert_eq!(
        table.begin_start(id, Readiness::Failed(init_error)).unwrap_err().message(),
        "component-init-failed"
    );
    assert_eq!(table.begin_start(id, Readiness::Ready).unwrap(), StartStep::Bind);
    // A second start while the first holds the lock has nothing to do.
    assert_eq!(table.begin_start(id, Readiness::Ready).unwrap(), StartStep::Done);
    // Binding failed: the pod goes back to `Created`.
    assert_eq!(table.bind_failed(id).message(), "bind-grpc-port");
    assert_eq!(state(&table, id), Some(PodState::Created));
}

#[test]
fn stop_remove_kill_are_idempotent() {
    let (mut table, id) = table_with_pod();
    table.create_container(id, config(&[], &[]), 2).unwrap();
    table.begin_start(id, Readiness::Ready).unwrap();
    // Stopping a starting pod leaves its server to the start in progress.
    assert_eq!(table.stop_container(id).unwrap(), false);
    assert_eq!(table.stop_container(id).unwrap(), false);
    table.remove_container(id).unwrap();
    table.remove_container(id).unwrap();
    assert_eq!(table.kill_pod(id).unwrap(), Some(false));
    assert_eq!(table.kill_pod(id).unwrap(), None);
}

#[test]
fn killing_a_running_pod_shuts_its_server() {
    let (mut table, id) = table_with_pod();
    table.create_container(id, config(&[], &[]), 2).unwrap();
    table.begin_start(id, Readiness::Ready).unwrap();
    table.finish_start(id, 3).unwrap();
    assert_eq!(table.kill_pod(id).unwrap(), Some(true));
    assert!(!table.get(id).unwrap().has_killer);
}

#[test]
fn listing_filters_by_state_and_labels() {
    let mut table = PodTable::new();
    let a = table.allocate_id();
    table.insert_initiated(a, pairs(&[("app", "web"), ("tier", "1")]), Vec::new(), 1).unwrap();
    let b = table.allocate_id();
    table.insert_initiated(b, pairs(&[("app", "db")]), Vec::new(), 1).unwrap();
    table.create_container(b, config(&[("role", "x")], &[]), 2).unwrap();
    assert_eq!(a, 0);
    assert_eq!(b, 1);

    let mut all = table.list(false, &Vec::new(), &Vec::new());
    all.sort();
    assert_eq!(all, vec![a, b]);
    assert_eq!(table.list(false, &pairs(&[("app", "web")]), &Vec::new()), vec![a]);
    assert_eq!(table.list(false, &Vec::new(), &vec![PodState::Created]), vec![b]);
    assert_eq!(table.list(true, &pairs(&[("role", "x")]), &Vec::new()), vec![b]);
    assert!(table.list(false, &pairs(&[("app", "web"), ("tier", "2")]), &Vec::new()).is_empty());
}

#[test]
fn match_pod_special_cases() {
    let labels = pairs(&[("a", "1"), ("a", "2")]);
    // A later pair wins, as a map insertion would.
    assert!(matches_pod(PodState::Running, &labels, &pairs(&[("a", "2")]), &Vec::new()));
    assert!(!matches_pod(PodState::Running, &labels, &pairs(&[("a", "1")]), &Vec::new()));
    assert!(!matches_pod(PodState::Running, &labels, &Vec::new(), &vec![PodState::Stopped]));
    assert_eq!(lookup(&labels, &"a".to_string()).map(|s| s.as_str()), Some("2"));
    assert!(lookup(&labels, &"b".to_string()).is_none());
    assert!(same_pairs(&pairs(&[("x", "1"), ("y", "2")]), &pairs(&[("y", "2"), ("x", "1")])));
    assert!(!same_pairs(&pairs(&[("x", "1")]), &pairs(&[("x", "1"), ("y", "2")])));
    assert!(same_config(&config(&[("k", "v")], &[]), &config(&[("k", "v")], &[])));
    assert!(!same_config(&config(&[], &[("E", "1")]), &config(&[], &[("E", "2")])));
}

#[test]
fn vimana_labels_must_agree() {
    let left = pairs(&[("vimana.host/domain", "d"), ("other", "x")]);
    assert!(check_vimana_labels(&left, &pairs(&[("vimana.host/domain", "d")]), "extra").is_none());
    let err = check_vimana_labels(&left, &pairs(&[("vimana.host/domain", "e")]), "extra").unwrap();
    assert_eq!(err.message(), "extra");
    assert!(check_vimana_labels(&left, &Vec::new(), "missing").is_some());
}

#[test]
fn timestamps_wrap_around() {
    assert_eq!(timestamp_from_nanos(5), 5);
    assert_eq!(timestamp_from_nanos(i64::MAX as u128), 0);
    assert_eq!(timestamp_from_nanos((1u128 << 64) + 7), 7);
    let t = now();
    assert!(t > 0);
}

#[test]
fn only_delete_takes_a_pod_out() {
    let (mut table, id) = table_with_pod();
    assert!(table.delete_pod(id).is_err());
    assert!(table.get(id).is_some());
    table.create_container(id, config(&[], &[]), 20).unwrap();
    assert!(table.stop_container(id).is_err());
    assert!(table.get(id).is_some());
    table.kill_pod(id).unwrap();
    assert!(table.get(id).is_some());
    table.delete_pod(id).unwrap();
    assert!(table.get(id).is_none());
    assert_eq!(table.delete_pod(id).unwrap_err().message(), "delete-pod-not-found");
}

#[test]
fn initiated_pods_get_distinct_ids() {
    let (mut table, first) = table_with_pod();
    let second = table.allocate_id();
    table.insert_initiated(second, Vec::new(), Vec::new(), 11).unwrap();
    assert_ne!(first, second);
    assert_eq!(
        table.insert_initiated(first, Vec::new(), Vec::new(), 12).unwrap_err().message(),
        "pod-id-collision"
    );
}
