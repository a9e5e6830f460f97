use pg_migrate::authoring::{new_migration_files, prepare_migration};
use pg_migrate::repository::{collect_migrations, migration_of, sort_migrations, ScriptFile};
use pg_migrate::script::{parse_script_name, read_down_revision, Direction, Migration};
use pg_migrate::store::StateStore;

const A: &str = "f44e620f-60e0-4470-8904-44b4022b11a5";
const B: &str = "622511aa-d4ee-4ea7-a3c9-cd900bc2c2bd";
const A_UP: &str = "2024-07-01_13:01:16_f44e620f-60e0-4470-8904-44b4022b11a5_add_users_up.sql";
const A_DOWN: &str = "2024-07-01_13:01:16_f44e620f-60e0-4470-8904-44b4022b11a5_add_users_down.sql";
const B_UP: &str = "2024-07-02_10:49:20_622511aa-d4ee-4ea7-a3c9-cd900bc2c2bd_add_wallet_up.sql";
const B_DOWN: &str = "2024-07-02_10:49:20_622511aa-d4ee-4ea7-a3c9-cd900bc2c2bd_add_wallet_down.sql";
const A_TEXT: &str = "-- SQL commands to upgrade\n-- Revision: f44e620f-60e0-4470-8904-44b4022b11a5\n-- Down Revision: None\n";
const B_TEXT: &str = "-- SQL commands to upgrade\n-- Revision: 622511aa-d4ee-4ea7-a3c9-cd900bc2c2bd\n-- Down Revision: f44e620f-60e0-4470-8904-44b4022b11a5\n";

fn file(name: &str, text: &str) -> ScriptFile {
    ScriptFile { file_name: name.to_string(), text: text.to_string() }
}

fn listing() -> Vec<ScriptFile> {
    vec![file(B_DOWN, B_TEXT), file(A_UP, A_TEXT), file(B_UP, B_TEXT), file(A_DOWN, A_TEXT)]
}

fn migration(id: &str, created_at: &str) -> Migration {
    Migration {
        id: id.to_string(),
        name: "n".to_string(),
        created_at: created_at.to_string(),
        down_revision: None,
        stem: id.to_string(),
    }
}

#[test]
fn test_sort_paths_asc() {
    let ms = collect_migrations(&listing());
    assert_eq!(format!("{}_up.sql", ms[0].stem), A_UP);
}

#[test]
fn test_sort_paths_desc() {
    let ms = collect_migrations(&listing());
    assert_eq!(format!("{}_down.sql", ms[ms.len() - 1].stem), B_DOWN);
}

#[test]
fn test_get_migration_details() {
    let s = parse_script_name(A_UP).unwrap();
    assert_eq!(s.date, "2024-07-01");
    assert_eq!(s.time, "13:01:16");
    assert_eq!(s.id, A);
    assert_eq!(s.name, "add users");
    assert_eq!(s.direction, Direction::Up);
}

#[test]
fn test_get_down_migration_id() {
    assert_eq!(read_down_revision(A_TEXT).unwrap(), "None");
    assert_eq!(read_down_revision(B_TEXT).unwrap(), A);
}

#[test]
fn down_revision_edge_cases() {
    assert_eq!(read_down_revision(""), None);
    assert_eq!(read_down_revision("-- Revision: x\n"), None);
    assert_eq!(read_down_revision("x -- Down Revision: y\n"), None);
    assert_eq!(read_down_revision("-- Down Revision: abc\r\nmore"), Some("abc".to_string()));
    assert_eq!(read_down_revision("a\n-- Down Revision: one\n-- Down Revision: two"), Some("one".to_string()));
    assert_eq!(read_down_revision("-- Down Revision: "), Some(String::new()));
}

#[test]
fn file_names_of_other_shapes_are_refused() {
    assert!(parse_script_name("README.md").is_none());
    assert!(parse_script_name("2024-07-01_13:01:16_id_up.sql").is_none());
    assert!(parse_script_name("2024-07-01_13:01:16_up.sql").is_none());
    assert!(parse_script_name("_up.sql").is_none());
    let s = parse_script_name(B_DOWN).unwrap();
    assert_eq!(s.direction, Direction::Down);
    assert_eq!(s.name, "add wallet");
    let s = parse_script_name("d_t_i_a__b_up.sql").unwrap();
    assert_eq!(s.name, "a  b");
}

#[test]
fn migration_needs_both_halves() {
    let files = vec![file(A_DOWN, A_TEXT)];
    assert!(migration_of(&files[0], &files).is_none());
    let files = listing();
    assert!(migration_of(&files[1], &files).is_none());
    let m = migration_of(&files[0], &files).unwrap();
    assert_eq!(m.id, B);
    assert_eq!(m.name, "add wallet");
    assert_eq!(m.created_at, "2024-07-02_10:49:20");
    assert_eq!(m.down_revision, Some(A.to_string()));
    assert_eq!(m.down_target(), Some(A.to_string()));
    let m = migration_of(&files[3], &files).unwrap();
    assert_eq!(m.down_revision, Some("None".to_string()));
    assert_eq!(m.down_target(), None);
}

#[test]
fn collect_keeps_one_migration_per_pair() {
    let ms = collect_migrations(&listing());
    assert_eq!(ms.len(), 2);
    assert_eq!(ms[0].id, A);
    assert_eq!(ms[1].id, B);
}

#[test]
fn sort_is_stable_on_equal_stamps() {
    let ms = vec![
        migration("c", "2024-01-02_00:00:00"),
        migration("a", "2024-01-01_00:00:00"),
        migration("b", "2024-01-02_00:00:00"),
    ];
    let ids: Vec<String> = sort_migrations(ms).into_iter().map(|m| m.id).collect();
    assert_eq!(ids, vec!["a", "c", "b"]);
}

#[test]
fn test_record_current() {
    let mut store = StateStore::new();
    store.set_current(Some(String::from(B)));
    let current = store.get_current();
    assert_eq!(current.unwrap(), B);
    store.set_current(None);
    let current = store.get_current();
    assert_eq!(current.is_none(), true);
}

#[test]
fn test_save_and_remove_history() {
    let mut store = StateStore::new();
    store.record_history(A.to_string(), "add users".to_string());

    let (migration_id, _) = store.last_history();
    store.remove_history(&migration_id.unwrap());

    store.record_history(B.to_string(), "add_wallet".to_string());
    let (migration_id, migration_name) = store.last_history();
    assert_eq!(migration_id.unwrap(), B);
    assert_eq!(migration_name.unwrap(), "add_wallet");

    store.remove_history(&B.to_string());
    let (migration_id, migration_name) = store.last_history();
    assert_eq!(migration_id.is_none(), true);
    assert_eq!(migration_name.is_none(), true);
}

#[test]
fn recording_twice_keeps_one_entry() {
    let mut store = StateStore::new();
    store.record_history(A.to_string(), "add users".to_string());
    store.record_history(A.to_string(), "other".to_string());
    assert_eq!(store.list_history(), vec![(A.to_string(), "add users".to_string())]);
    store.remove_history(&"absent".to_string());
    assert_eq!(store.list_history().len(), 1);
}

#[test]
fn new_migration_files_are_exact() {
    let nm = new_migration_files("2024-07-03_08:00:00", A, "add orders", &Some(B.to_string()));
    assert_eq!(nm.up_file, "2024-07-03_08:00:00_f44e620f-60e0-4470-8904-44b4022b11a5_add_orders_up.sql");
    assert_eq!(nm.down_file, "2024-07-03_08:00:00_f44e620f-60e0-4470-8904-44b4022b11a5_add_orders_down.sql");
    assert_eq!(
        nm.up_text,
        "-- SQL commands to upgrade\n-- Revision: f44e620f-60e0-4470-8904-44b4022b11a5\n-- Down Revision: 622511aa-d4ee-4ea7-a3c9-cd900bc2c2bd\n"
    );
    let nm = new_migration_files("2024-07-03_08:00:00", A, "x", &None);
    assert_eq!(
        nm.down_text,
        "-- SQL commands to downgrade\n-- Revision: f44e620f-60e0-4470-8904-44b4022b11a5\n-- Down Revision: None\n"
    );
    assert_eq!(read_down_revision(&nm.down_text), Some("None".to_string()));
}

#[test]
fn test_create_new_migration() {
    let nm = prepare_migration("test_migration", &Some(B.to_string()));
    assert!(nm.up_file.ends_with("_test_migration_up.sql"));
    assert!(nm.down_file.ends_with("_test_migration_down.sql"));
    let s = parse_script_name(&nm.up_file).unwrap();
    assert_eq!(s.id.len(), 36);
    assert_ne!(s.id, "test");
    assert_eq!(s.name, "test migration");
    assert!(nm.up_text.contains(&format!("-- Revision: {}\n", s.id)));
    assert_eq!(read_down_revision(&nm.up_text), Some(B.to_string()));
    assert_eq!(s.date.len(), 10);
    assert_eq!(s.time.len(), 8);
}
