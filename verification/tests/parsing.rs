use sidecar_supervisor::API_PORT;
use sidecar_supervisor::bytes::contains_bytes;
use sidecar_supervisor::bytes::last_token_vec;
use sidecar_supervisor::bytes::parse_pid;
use sidecar_supervisor::bytes::split_lines_vec;
use sidecar_supervisor::bytes::u16_to_dec;
use sidecar_supervisor::launcher::complete_launch;
use sidecar_supervisor::migrations::MigrationRecord;
use sidecar_supervisor::migrations::MigrationRegistry;
use sidecar_supervisor::reaper::SETTLE_MILLIS;
use sidecar_supervisor::reaper::plan_reap_unix;
use sidecar_supervisor::reaper::plan_reap_windows;
use sidecar_supervisor::registry::LifecycleRegistry;
use sidecar_supervisor::registry::ServiceHandle;

#[test]
fn splits_output_into_lines() {
    let lines = split_lines_vec(b"first\nsecond\n");
    assert_eq!(lines, vec![b"first".to_vec(), b"second".to_vec()]);
    let unterminated = split_lines_vec(b"only");
    assert_eq!(unterminated, vec![b"only".to_vec()]);
    assert!(split_lines_vec(b"").is_empty());
}

#[test]
fn parses_trimmed_decimal_pids() {
    assert_eq!(parse_pid(b" 1234 \r"), Some(1234));
    assert_eq!(parse_pid(b"0"), Some(0));
    assert_eq!(parse_pid(b""), None);
    assert_eq!(parse_pid(b"12a4"), None);
    assert_eq!(parse_pid(b"2147483647"), Some(2147483647));
    assert_eq!(parse_pid(b"2147483648"), None);
    assert_eq!(parse_pid(b"99999999999999999999"), None);
}

#[test]
fn renders_ports_in_decimal() {
    assert_eq!(u16_to_dec(2620), b"2620".to_vec());
    assert_eq!(u16_to_dec(0), b"0".to_vec());
    assert_eq!(u16_to_dec(65535), b"65535".to_vec());
}

#[test]
fn finds_needles_in_haystacks() {
    assert!(contains_bytes(b"0.0.0.0:2620 LISTENING", b":2620"));
    assert!(!contains_bytes(b"0.0.0.0:8080 LISTENING", b":2620"));
    assert!(contains_bytes(b"anything", b""));
    assert!(!contains_bytes(b"short", b"much longer needle"));
}

#[test]
fn extracts_the_last_token() {
    assert_eq!(last_token_vec(b"  TCP  0.0.0.0:2620  LISTENING  4321  "), b"4321".to_vec());
    assert_eq!(last_token_vec(b"lonely"), b"lonely".to_vec());
    assert_eq!(last_token_vec(b"   "), Vec::<u8>::new());
}

#[test]
fn reap_plan_kills_every_listed_pid_and_settles() {
    let plan = plan_reap_unix(Some(b"1234\n5678\n".as_slice()));
    assert_eq!(plan.kills, vec![1234, 5678]);
    assert_eq!(plan.settle_millis, SETTLE_MILLIS);
}

#[test]
fn reap_plan_with_no_processes_still_settles() {
    let empty = plan_reap_unix(Some(b"".as_slice()));
    assert!(empty.kills.is_empty());
    assert_eq!(empty.settle_millis, 500);
    let failed_enumeration = plan_reap_unix(None);
    assert!(failed_enumeration.kills.is_empty());
    assert_eq!(failed_enumeration.settle_millis, 500);
}

#[test]
fn reap_plan_skips_lines_that_are_no_pid() {
    let plan = plan_reap_unix(Some(b"garbage\n 42 \n\n".as_slice()));
    assert_eq!(plan.kills, vec![42]);
}

#[test]
fn socket_table_reap_matches_port_and_listening_lines() {
    let table = b"  TCP    0.0.0.0:2620    0.0.0.0:0    LISTENING    4321\r\n  TCP    0.0.0.0:8080    0.0.0.0:0    LISTENING    999\r\n  TCP    0.0.0.0:2620    0.0.0.0:0    TIME_WAIT    777\r\n";
    let plan = plan_reap_windows(Some(table.as_slice()), API_PORT);
    assert_eq!(plan.kills, vec![4321]);
    assert_eq!(plan.settle_millis, 500);
    let none = plan_reap_windows(None, API_PORT);
    assert!(none.kills.is_empty());
}

#[test]
fn stale_port_holder_is_killed_then_launch_succeeds() {
    let stale_pid = 31337;
    let plan = plan_reap_unix(Some(b"31337\n".as_slice()));
    assert_eq!(plan.kills, vec![stale_pid]);
    assert_eq!(plan.settle_millis, 500);
    let mut registry = LifecycleRegistry::empty();
    let outcome = complete_launch(&mut registry, Ok(ServiceHandle { pid: 500 }));
    assert!(outcome.is_ok());
    assert_eq!(registry.take(), Some(ServiceHandle { pid: 500 }));
}

fn record(version: i64, description: &str, sql: &str) -> MigrationRecord {
    MigrationRecord {
        version,
        description: description.to_string(),
        sql: sql.to_string(),
    }
}

#[test]
fn migrations_apply_in_ascending_version_order_exactly_once() {
    let registry = MigrationRegistry::new(vec![
        record(3, "create_files_table", "CREATE TABLE IF NOT EXISTS files (id INTEGER);"),
        record(1, "create_tasks_table", "CREATE TABLE IF NOT EXISTS tasks (id TEXT);"),
        record(2, "add_tool_result_fields", "ALTER TABLE messages ADD COLUMN tool_output TEXT;"),
    ]);
    assert_eq!(registry.len(), 3);
    assert_eq!(registry.pending_versions(0), vec![1, 2, 3]);
    let (applied, store_version) = registry.apply_from(0);
    assert_eq!(applied, vec![1, 2, 3]);
    assert_eq!(store_version, 3);
    let (reapplied, still) = registry.apply_from(store_version);
    assert!(reapplied.is_empty());
    assert_eq!(still, 3);
}

#[test]
fn migrations_pending_from_a_partly_migrated_store() {
    let registry = MigrationRegistry::new(vec![
        record(2, "second", "ALTER TABLE t ADD COLUMN b TEXT;"),
        record(1, "first", "CREATE TABLE IF NOT EXISTS t (a TEXT);"),
        record(4, "fourth", "CREATE TABLE IF NOT EXISTS s (k TEXT);"),
    ]);
    assert_eq!(registry.pending_versions(1), vec![2, 4]);
    assert_eq!(registry.pending_versions(4), Vec::<i64>::new());
    let (applied, store_version) = registry.apply_from(2);
    assert_eq!(applied, vec![4]);
    assert_eq!(store_version, 4);
}
