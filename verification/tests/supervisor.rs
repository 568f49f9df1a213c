use sidecar_supervisor::API_PORT;
use sidecar_supervisor::events::ExitStatus;
use sidecar_supervisor::events::LogWrite;
use sidecar_supervisor::events::ServiceEvent;
use sidecar_supervisor::events::route_all;
use sidecar_supervisor::events::route_event;
use sidecar_supervisor::launcher::SpawnError;
use sidecar_supervisor::launcher::complete_launch;
use sidecar_supervisor::launcher::launch_config;
use sidecar_supervisor::registry::LifecycleRegistry;
use sidecar_supervisor::registry::ServiceHandle;
use sidecar_supervisor::shutdown::coordinate;

#[test]
fn take_returns_the_stored_handle_once() {
    let mut registry = LifecycleRegistry::empty();
    registry.store(ServiceHandle { pid: 41 });
    assert_eq!(registry.take(), Some(ServiceHandle { pid: 41 }));
    assert_eq!(registry.take(), None);
    assert_eq!(registry.take(), None);
}

#[test]
fn take_from_empty_registry_returns_nothing() {
    let mut registry = LifecycleRegistry::empty();
    assert_eq!(registry.take(), None);
}

#[test]
fn second_shutdown_kills_nothing_and_still_reaps() {
    let mut registry = LifecycleRegistry::empty();
    registry.store(ServiceHandle { pid: 7 });
    let first = coordinate(&mut registry, API_PORT);
    assert_eq!(first.kill, Some(ServiceHandle { pid: 7 }));
    assert_eq!(first.reap_port, 2620);
    let second = coordinate(&mut registry, API_PORT);
    assert_eq!(second.kill, None);
    assert_eq!(second.reap_port, 2620);
}

#[test]
fn router_stops_at_termination() {
    let status = ExitStatus { code: Some(0), signal: None };
    let events = vec![
        ServiceEvent::StandardOutput(b"ready".to_vec()),
        ServiceEvent::StandardOutput(b"listening".to_vec()),
        ServiceEvent::Terminated(status),
        ServiceEvent::StandardOutput(b"never seen".to_vec()),
        ServiceEvent::ErrorOutput(b"never seen either".to_vec()),
    ];
    let writes = route_all(events);
    assert_eq!(writes.len(), 3);
    assert_eq!(writes[0], LogWrite::Output("ready".to_string()));
    assert_eq!(writes[1], LogWrite::Output("listening".to_string()));
    assert_eq!(writes[2], LogWrite::Exit(status));
}

#[test]
fn spawn_failure_event_does_not_stop_the_router() {
    let status = ExitStatus { code: None, signal: Some(9) };
    let events = vec![
        ServiceEvent::SpawnFailure("no such executable".to_string()),
        ServiceEvent::ErrorOutput(b"panic".to_vec()),
        ServiceEvent::Terminated(status),
    ];
    let writes = route_all(events);
    assert_eq!(writes.len(), 3);
    assert_eq!(writes[0], LogWrite::Fault("no such executable".to_string()));
    assert_eq!(writes[1], LogWrite::Error("panic".to_string()));
    assert_eq!(writes[2], LogWrite::Exit(status));
}

#[test]
fn router_decodes_invalid_encoding_best_effort() {
    let write = route_event(&ServiceEvent::StandardOutput(vec![0xff, 0xfe]));
    assert_eq!(write, LogWrite::Output("\u{fffd}\u{fffd}".to_string()));
}

#[test]
fn router_with_no_events_writes_nothing() {
    let writes = route_all(Vec::new());
    assert!(writes.is_empty());
}

#[test]
fn launch_config_carries_port_and_mode() {
    let config = launch_config("workany-api", API_PORT, b"production");
    assert_eq!(config.executable, "workany-api");
    assert_eq!(config.env.len(), 2);
    assert_eq!(config.env[0].key, b"PORT".to_vec());
    assert_eq!(config.env[0].value, b"2620".to_vec());
    assert_eq!(config.env[1].key, b"NODE_ENV".to_vec());
    assert_eq!(config.env[1].value, b"production".to_vec());
}

#[test]
fn failed_launch_aborts_and_leaves_registry_empty() {
    let mut registry = LifecycleRegistry::empty();
    let outcome = complete_launch(
        &mut registry,
        Err(SpawnError { message: "executable missing".to_string() }),
    );
    match outcome {
        Err(error) => assert_eq!(error.message, "executable missing"),
        Ok(_) => panic!("a failed spawn must abort startup"),
    }
    assert_eq!(registry.take(), None);
}

#[test]
fn successful_launch_stores_the_handle() {
    let mut registry = LifecycleRegistry::empty();
    let outcome = complete_launch(&mut registry, Ok(ServiceHandle { pid: 4321 }));
    assert_eq!(outcome, Ok(ServiceHandle { pid: 4321 }));
    assert_eq!(registry.take(), Some(ServiceHandle { pid: 4321 }));
}
