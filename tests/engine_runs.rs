use pg_migrate::engine::{
    count_is_feasible, eligible_steps, find_migration, plan_by_count, plan_to_head,
    plan_to_target, query_head, run_by_count, run_to_head, run_to_target, RunError,
};
use pg_migrate::repository::{collect_migrations, ScriptFile};
use pg_migrate::script::{Direction, Migration};
use pg_migrate::store::StateStore;

const A: &str = "f44e620f-60e0-4470-8904-44b4022b11a5";
const B: &str = "622511aa-d4ee-4ea7-a3c9-cd900bc2c2bd";

fn file(name: &str, text: &str) -> ScriptFile {
    ScriptFile { file_name: name.to_string(), text: text.to_string() }
}

fn listing() -> Vec<ScriptFile> {
    vec![
        file(
            "2024-07-02_10:49:20_622511aa-d4ee-4ea7-a3c9-cd900bc2c2bd_add_wallet_down.sql",
            "-- SQL commands to downgrade\n-- Revision: 622511aa-d4ee-4ea7-a3c9-cd900bc2c2bd\n-- Down Revision: f44e620f-60e0-4470-8904-44b4022b11a5\nDROP TABLE wallets;\n",
        ),
        file(
            "2024-07-01_13:01:16_f44e620f-60e0-4470-8904-44b4022b11a5_add_users_up.sql",
            "-- SQL commands to upgrade\n-- Revision: f44e620f-60e0-4470-8904-44b4022b11a5\n-- Down Revision: None\nCREATE TABLE users (id INT);\n",
        ),
        file(
            "2024-07-02_10:49:20_622511aa-d4ee-4ea7-a3c9-cd900bc2c2bd_add_wallet_up.sql",
            "-- SQL commands to upgrade\n-- Revision: 622511aa-d4ee-4ea7-a3c9-cd900bc2c2bd\n-- Down Revision: f44e620f-60e0-4470-8904-44b4022b11a5\nCREATE TABLE wallets (id INT);\n",
        ),
        file(
            "2024-07-01_13:01:16_f44e620f-60e0-4470-8904-44b4022b11a5_add_users_down.sql",
            "-- SQL commands to downgrade\n-- Revision: f44e620f-60e0-4470-8904-44b4022b11a5\n-- Down Revision: None\nDROP TABLE users;\n",
        ),
    ]
}

fn migrations() -> Vec<Migration> {
    collect_migrations(&listing())
}

fn current(store: &StateStore) -> Option<String> {
    store.get_current()
}

fn ids(store: &StateStore) -> Vec<String> {
    store.list_history().into_iter().map(|(id, _)| id).collect()
}

#[test]
fn lib_test_get_head() {
    let ms = migrations();
    assert_eq!(query_head(&ms).unwrap(), B);
}

#[test]
fn test_migrations_test_get_head() {
    let ms = migrations();
    assert_eq!(query_head(&ms), Some(B.to_string()));
}

#[test]
fn test_current_is_none() {
    let store = StateStore::new();
    assert_eq!(current(&store).is_none(), true);
}

#[test]
fn test_get_current() {
    let store = StateStore::new();
    assert_eq!(current(&store), None);
}

#[test]
fn lib_test_upgrade_head() {
    let ms = migrations();
    let mut store = StateStore::new();
    assert_eq!(current(&store).is_none(), true);
    let _ = run_to_head(&mut store, &ms);
    assert_eq!(current(&store).unwrap(), B);
    let _ = run_by_count(&mut store, &ms, Direction::Down, 2);
    assert_eq!(current(&store).is_none(), true);
}

#[test]
fn test_migrations_test_upgrade_head() {
    let ms = migrations();
    let mut store = StateStore::new();
    let plan = run_to_head(&mut store, &ms);
    assert_eq!(plan.steps, vec![0, 1]);
    assert_eq!(current(&store), Some(B.to_string()));
    let plan = run_by_count(&mut store, &ms, Direction::Down, 2).unwrap();
    assert_eq!(plan.steps, vec![1, 0]);
    assert_eq!(current(&store), None);
}

#[test]
fn test_migrate_target() {
    let ms = migrations();
    let mut store = StateStore::new();
    assert_eq!(current(&store).is_none(), true);

    let _ = run_to_target(&mut store, &ms, Direction::Up, &B.to_string());
    assert_eq!(current(&store).unwrap(), B);

    let _ = run_to_target(&mut store, &ms, Direction::Down, &A.to_string());
    assert_eq!(current(&store).unwrap(), A);

    let _ = run_by_count(&mut store, &ms, Direction::Down, 1);
    assert_eq!(current(&store).is_none(), true);

    let _ = run_to_target(&mut store, &ms, Direction::Up, &A.to_string());
    assert_eq!(current(&store).unwrap(), A);

    let _ = run_to_target(&mut store, &ms, Direction::Up, &B.to_string());
    assert_eq!(current(&store).unwrap(), B);

    let _ = run_by_count(&mut store, &ms, Direction::Down, 2);
    assert_eq!(current(&store).is_none(), true);
}

#[test]
fn test_migrate_id() {
    let ms = migrations();
    let mut store = StateStore::new();
    run_to_target(&mut store, &ms, Direction::Up, &A.to_string()).unwrap();
    assert_eq!(current(&store), Some(A.to_string()));
    run_to_target(&mut store, &ms, Direction::Up, &B.to_string()).unwrap();
    assert_eq!(current(&store), Some(B.to_string()));
    run_to_target(&mut store, &ms, Direction::Down, &A.to_string()).unwrap();
    assert_eq!(current(&store), Some(A.to_string()));
    run_by_count(&mut store, &ms, Direction::Down, 1).unwrap();
    assert_eq!(current(&store), None);
}

#[test]
fn test_migrate_count() {
    let ms = migrations();
    let mut store = StateStore::new();
    assert_eq!(current(&store).is_none(), true);

    let _ = run_by_count(&mut store, &ms, Direction::Up, 2);
    assert_eq!(current(&store).unwrap(), B);

    let _ = run_by_count(&mut store, &ms, Direction::Down, 2);
    assert_eq!(current(&store).is_none(), true);

    let _ = run_by_count(&mut store, &ms, Direction::Up, 1);
    assert_eq!(current(&store).unwrap(), A);

    let _ = run_by_count(&mut store, &ms, Direction::Up, 1);
    assert_eq!(current(&store).unwrap(), B);

    let _ = run_by_count(&mut store, &ms, Direction::Down, 1);
    assert_eq!(current(&store).unwrap(), A);

    let _ = run_by_count(&mut store, &ms, Direction::Down, 1);
    assert_eq!(current(&store).is_none(), true);
}

#[test]
fn test_migrate_number() {
    let ms = migrations();
    let mut store = StateStore::new();
    run_by_count(&mut store, &ms, Direction::Up, 1).unwrap();
    assert_eq!(current(&store), Some(A.to_string()));
    run_by_count(&mut store, &ms, Direction::Up, 1).unwrap();
    assert_eq!(current(&store), Some(B.to_string()));
    run_by_count(&mut store, &ms, Direction::Down, 1).unwrap();
    assert_eq!(current(&store), Some(A.to_string()));
    run_by_count(&mut store, &ms, Direction::Down, 1).unwrap();
    assert_eq!(current(&store), None);
}

#[test]
fn test_get_history() {
    let ms = migrations();
    let mut store = StateStore::new();
    run_to_head(&mut store, &ms);
    assert_eq!(
        store.list_history(),
        vec![
            (A.to_string(), "add users".to_string()),
            (B.to_string(), "add wallet".to_string()),
        ]
    );
    let _ = run_by_count(&mut store, &ms, Direction::Down, 2);
    assert_eq!(current(&store), None);
    assert!(store.list_history().is_empty());
}

#[test]
fn test_if_target_exists() {
    let ms = migrations();
    assert_eq!(find_migration(&ms, &B.to_string()).is_some(), true);
    assert_eq!(
        find_migration(&ms, &"aa2a8a12-4a44-4c66-8ebc-f7ca59a23cd3".to_string()).is_some(),
        false
    );
}

#[test]
fn test_if_count_valid() {
    let ms = migrations();
    let none: Option<String> = None;
    assert_eq!(count_is_feasible(&ms, &none, Direction::Up, 2), true);
    assert_eq!(count_is_feasible(&ms, &none, Direction::Up, 3), false);
    assert_eq!(count_is_feasible(&ms, &none, Direction::Down, 1), false);
    assert_eq!(count_is_feasible(&ms, &none, Direction::Down, 3), false);
}

#[test]
fn eligible_steps_from_each_position() {
    let ms = migrations();
    let at_a = Some(A.to_string());
    let at_b = Some(B.to_string());
    assert_eq!(eligible_steps(&ms, &None, Direction::Up), 2);
    assert_eq!(eligible_steps(&ms, &at_a, Direction::Up), 1);
    assert_eq!(eligible_steps(&ms, &at_b, Direction::Up), 0);
    assert_eq!(eligible_steps(&ms, &at_a, Direction::Down), 1);
    assert_eq!(eligible_steps(&ms, &at_b, Direction::Down), 2);
    assert_eq!(count_is_feasible(&ms, &at_b, Direction::Down, -1), false);
}

#[test]
fn unknown_target_is_refused_and_nothing_changes() {
    let ms = migrations();
    let mut store = StateStore::new();
    run_by_count(&mut store, &ms, Direction::Up, 1).unwrap();
    let r = run_to_target(&mut store, &ms, Direction::Up, &"no-such-id".to_string());
    assert_eq!(r.err(), Some(RunError::TargetNotFound));
    assert_eq!(current(&store), Some(A.to_string()));
    assert_eq!(ids(&store), vec![A.to_string()]);
}

#[test]
fn too_many_steps_are_refused_and_nothing_changes() {
    let ms = migrations();
    let mut store = StateStore::new();
    run_by_count(&mut store, &ms, Direction::Up, 1).unwrap();
    let r = run_by_count(&mut store, &ms, Direction::Up, 2);
    assert_eq!(r.err(), Some(RunError::InvalidCount));
    let r = run_by_count(&mut store, &ms, Direction::Down, 2);
    assert_eq!(r.err(), Some(RunError::InvalidCount));
    assert_eq!(current(&store), Some(A.to_string()));
    assert_eq!(ids(&store), vec![A.to_string()]);
}

#[test]
fn head_run_applies_older_then_newer() {
    let ms = migrations();
    let mut store = StateStore::new();
    let plan = run_to_head(&mut store, &ms);
    assert_eq!(plan.direction, Direction::Up);
    assert!(plan.started);
    assert_eq!(ms[plan.steps[0]].id, A);
    assert_eq!(ms[plan.steps[1]].id, B);
    assert_eq!(current(&store), Some(B.to_string()));
    assert_eq!(ids(&store), vec![A.to_string(), B.to_string()]);
}

#[test]
fn downgrade_to_target_undoes_only_newer() {
    let ms = migrations();
    let mut store = StateStore::new();
    run_to_head(&mut store, &ms);
    let plan = run_to_target(&mut store, &ms, Direction::Down, &A.to_string()).unwrap();
    assert_eq!(plan.steps, vec![1]);
    assert_eq!(ms[1].id, B);
    assert_eq!(current(&store), Some(A.to_string()));
    assert_eq!(ids(&store), vec![A.to_string()]);
}

#[test]
fn single_downgrades_follow_stored_revisions() {
    let ms = migrations();
    let mut store = StateStore::new();
    run_to_head(&mut store, &ms);
    run_by_count(&mut store, &ms, Direction::Down, 1).unwrap();
    assert_eq!(current(&store), Some(A.to_string()));
    assert_eq!(ids(&store), vec![A.to_string()]);
    run_by_count(&mut store, &ms, Direction::Down, 1).unwrap();
    assert_eq!(current(&store), None);
    assert!(ids(&store).is_empty());
}

#[test]
fn upgrade_then_downgrade_restores_state() {
    let ms = migrations();
    let mut store = StateStore::new();
    run_by_count(&mut store, &ms, Direction::Up, 1).unwrap();
    let before_current = current(&store);
    let before_history = store.list_history();
    run_by_count(&mut store, &ms, Direction::Up, 1).unwrap();
    run_by_count(&mut store, &ms, Direction::Down, 1).unwrap();
    assert_eq!(current(&store), before_current);
    assert_eq!(store.list_history(), before_history);
}

#[test]
fn plans_do_not_touch_state() {
    let ms = migrations();
    let none: Option<String> = None;
    let plan = plan_to_head(&ms, &none);
    assert_eq!(plan.steps, vec![0, 1]);
    let plan = plan_to_target(&ms, &none, Direction::Up, &A.to_string()).unwrap();
    assert_eq!(plan.steps, vec![0]);
    let plan = plan_by_count(&ms, &Some(B.to_string()), Direction::Down, 1).unwrap();
    assert_eq!(plan.steps, vec![1]);
}

#[test]
fn unknown_current_position_runs_nothing() {
    let ms = migrations();
    let lost = Some("somewhere-else".to_string());
    let plan = plan_to_head(&ms, &lost);
    assert!(!plan.started);
    assert!(plan.steps.is_empty());
    let plan = plan_to_target(&ms, &lost, Direction::Down, &A.to_string()).unwrap();
    assert!(!plan.started);
    let plan = plan_to_target(&ms, &None, Direction::Down, &A.to_string()).unwrap();
    assert!(!plan.started);
}

#[test]
fn upgrade_to_an_applied_target_runs_to_the_end() {
    let ms = migrations();
    let plan = plan_to_target(&ms, &Some(A.to_string()), Direction::Up, &A.to_string()).unwrap();
    assert_eq!(plan.steps, vec![1]);
}

#[test]
fn empty_set_has_no_head() {
    let ms: Vec<Migration> = Vec::new();
    assert_eq!(query_head(&ms), None);
    let mut store = StateStore::new();
    let plan = run_to_head(&mut store, &ms);
    assert!(plan.steps.is_empty());
    assert_eq!(current(&store), None);
}
