use appmgr::{
    run_main, Error, ErrorKind, Inspection, InterfaceSecret, Ipv4Address, Manifest, Network, Outcome,
    ProcessExit, RunSession, SessionAction, SessionEvent, Stage,
};
use torut::onion::TorSecretKeyV3;

fn secret(interface: &str, fill: u8) -> InterfaceSecret {
    InterfaceSecret { interface: interface.to_string(), key: TorSecretKeyV3::from([fill; 64]) }
}

fn manifest(interfaces: &[&str]) -> Manifest {
    Manifest {
        id: "foo".to_string(),
        version: "1.0.0".to_string(),
        interfaces: interfaces.iter().map(|name| name.to_string()).collect(),
    }
}

fn session() -> RunSession {
    RunSession::start(manifest(&["main", "rpc"]), vec![secret("main", 1), secret("rpc", 2)])
}

fn found(address: &str) -> SessionEvent {
    SessionEvent::Inspected(Inspection::Found(Some(vec![Network {
        name: "start9".to_string(),
        ip_address: Some(address.to_string()),
    }])))
}

fn crash() -> Outcome {
    Outcome::Crashed { code: 1, message: "boom".to_string() }
}

/// Drives a fresh session up to the point where its address is published.
fn published() -> RunSession {
    let mut s = session();
    assert_eq!(run_main(&mut s, SessionEvent::Executed), Some(SessionAction::Inspect { delayed: false }));
    assert!(matches!(run_main(&mut s, found("172.18.0.2")), Some(SessionAction::Publish { .. })));
    assert_eq!(run_main(&mut s, SessionEvent::Published(Ok(()))), Some(SessionAction::AwaitProcess));
    s
}

#[test]
fn a_new_session_is_created_and_not_finished() {
    let s = session();
    assert_eq!(*s.stage(), Stage::Created);
    assert!(!s.is_finished());
    assert_eq!(*s.manifest(), manifest(&["main", "rpc"]));
}

#[test]
fn the_first_inspection_follows_the_start_of_the_process_without_delay() {
    let mut s = session();
    assert_eq!(run_main(&mut s, SessionEvent::Executed), Some(SessionAction::Inspect { delayed: false }));
    assert_eq!(*s.stage(), Stage::Inspecting);
}

#[test]
fn a_fruitless_inspection_is_followed_by_a_look_at_the_process() {
    let mut s = session();
    run_main(&mut s, SessionEvent::Executed);
    assert_eq!(
        run_main(&mut s, SessionEvent::Inspected(Inspection::NotFound)),
        Some(SessionAction::PollProcess)
    );
    assert_eq!(*s.stage(), Stage::Polling);
}

#[test]
fn a_process_still_running_is_followed_by_a_delayed_inspection() {
    let mut s = session();
    run_main(&mut s, SessionEvent::Executed);
    run_main(&mut s, SessionEvent::Inspected(Inspection::NotFound));
    assert_eq!(run_main(&mut s, SessionEvent::Polled(None)), Some(SessionAction::Inspect { delayed: true }));
    assert_eq!(*s.stage(), Stage::Inspecting);
}

#[test]
fn the_process_is_looked_at_after_every_fruitless_inspection() {
    let mut s = session();
    run_main(&mut s, SessionEvent::Executed);
    for _ in 0..5 {
        assert_eq!(
            run_main(&mut s, SessionEvent::Inspected(Inspection::NotFound)),
            Some(SessionAction::PollProcess)
        );
        assert_eq!(run_main(&mut s, SessionEvent::Polled(None)), Some(SessionAction::Inspect { delayed: true }));
    }
}

#[test]
fn an_address_is_published_with_every_interface_and_its_secret() {
    let mut s = session();
    run_main(&mut s, SessionEvent::Executed);
    assert_eq!(
        run_main(&mut s, found("172.18.0.2")),
        Some(SessionAction::Publish {
            package: "foo".to_string(),
            address: Ipv4Address(172, 18, 0, 2),
            bindings: vec![secret("main", 1), secret("rpc", 2)],
        })
    );
    assert_eq!(*s.stage(), Stage::Publishing);
}

#[test]
fn a_session_runs_from_start_to_clean_exit() {
    let mut s = session();
    assert_eq!(run_main(&mut s, SessionEvent::Executed), Some(SessionAction::Inspect { delayed: false }));
    assert_eq!(
        run_main(&mut s, SessionEvent::Inspected(Inspection::NotFound)),
        Some(SessionAction::PollProcess)
    );
    assert_eq!(run_main(&mut s, SessionEvent::Polled(None)), Some(SessionAction::Inspect { delayed: true }));
    assert!(matches!(run_main(&mut s, found("10.1.2.3")), Some(SessionAction::Publish { .. })));
    assert_eq!(run_main(&mut s, SessionEvent::Published(Ok(()))), Some(SessionAction::AwaitProcess));
    assert_eq!(*s.stage(), Stage::Running);
    assert_eq!(
        run_main(&mut s, SessionEvent::Exited(ProcessExit::Returned(Outcome::Completed))),
        Some(SessionAction::Withdraw {
            package: "foo".to_string(),
            interfaces: vec!["main".to_string(), "rpc".to_string()],
        })
    );
    assert_eq!(*s.stage(), Stage::Withdrawing(Outcome::Completed));
    assert_eq!(run_main(&mut s, SessionEvent::Withdrawn), Some(SessionAction::Finish(Outcome::Completed)));
    assert!(s.is_finished());
}

#[test]
fn a_crash_after_publication_is_withdrawn_before_the_session_finishes() {
    let mut s = published();
    assert_eq!(
        run_main(&mut s, SessionEvent::Exited(ProcessExit::Returned(crash()))),
        Some(SessionAction::Withdraw {
            package: "foo".to_string(),
            interfaces: vec!["main".to_string(), "rpc".to_string()],
        })
    );
    assert!(!s.is_finished());
    assert_eq!(run_main(&mut s, SessionEvent::Withdrawn), Some(SessionAction::Finish(crash())));
    assert!(s.is_finished());
}

#[test]
fn an_engine_fault_after_publication_is_withdrawn_before_the_session_finishes() {
    let mut s = published();
    let fault = Outcome::Failed(Error::new(ErrorKind::Docker, "container vanished"));
    assert!(matches!(
        run_main(
            &mut s,
            SessionEvent::Exited(ProcessExit::Returned(Outcome::Failed(Error::new(
                ErrorKind::Docker,
                "container vanished"
            ))))
        ),
        Some(SessionAction::Withdraw { .. })
    ));
    assert_eq!(run_main(&mut s, SessionEvent::Withdrawn), Some(SessionAction::Finish(fault)));
}

#[test]
fn a_dead_process_task_after_publication_is_withdrawn_and_charged_to_the_engine() {
    let mut s = published();
    assert!(matches!(
        run_main(&mut s, SessionEvent::Exited(ProcessExit::Panicked)),
        Some(SessionAction::Withdraw { .. })
    ));
    assert_eq!(
        run_main(&mut s, SessionEvent::Withdrawn),
        Some(SessionAction::Finish(Outcome::Failed(Error::new(
            ErrorKind::Docker,
            "Manager runtime panicked!"
        ))))
    );
}

#[test]
fn crash_before_any_address_is_the_session_result_without_publish_or_withdraw() {
    let mut s = session();
    let mut actions = vec![run_main(&mut s, SessionEvent::Executed)];
    for _ in 0..3 {
        actions.push(run_main(&mut s, SessionEvent::Inspected(Inspection::NotFound)));
        actions.push(run_main(&mut s, SessionEvent::Polled(None)));
    }
    actions.push(run_main(&mut s, SessionEvent::Inspected(Inspection::NotFound)));
    let last = run_main(&mut s, SessionEvent::Polled(Some(ProcessExit::Returned(crash()))));
    assert_eq!(last, Some(SessionAction::Finish(crash())));
    assert!(s.is_finished());
    for action in actions {
        assert!(!matches!(action, Some(SessionAction::Publish { .. })));
        assert!(!matches!(action, Some(SessionAction::Withdraw { .. })));
        assert!(!matches!(action, Some(SessionAction::Finish(_))));
    }
}

#[test]
fn clean_exit_before_any_address_is_the_session_result() {
    let mut s = session();
    run_main(&mut s, SessionEvent::Executed);
    run_main(&mut s, SessionEvent::Inspected(Inspection::NotFound));
    assert_eq!(
        run_main(&mut s, SessionEvent::Polled(Some(ProcessExit::Returned(Outcome::Completed)))),
        Some(SessionAction::Finish(Outcome::Completed))
    );
    assert!(s.is_finished());
}

#[test]
fn a_dead_process_task_before_any_address_is_charged_to_the_engine() {
    let mut s = session();
    run_main(&mut s, SessionEvent::Executed);
    run_main(&mut s, SessionEvent::Inspected(Inspection::NotFound));
    assert_eq!(
        run_main(&mut s, SessionEvent::Polled(Some(ProcessExit::Panicked))),
        Some(SessionAction::Finish(Outcome::Failed(Error::new(
            ErrorKind::Docker,
            "Manager runtime panicked!"
        ))))
    );
}

#[test]
fn an_engine_fault_on_inspection_ends_the_session() {
    let mut s = session();
    run_main(&mut s, SessionEvent::Executed);
    assert_eq!(
        run_main(
            &mut s,
            SessionEvent::Inspected(Inspection::Failed(Error::new(ErrorKind::Docker, "connection refused")))
        ),
        Some(SessionAction::Finish(Outcome::Failed(Error::new(ErrorKind::Docker, "connection refused"))))
    );
    assert!(s.is_finished());
}

#[test]
fn a_container_without_the_host_network_ends_the_session() {
    let mut s = session();
    run_main(&mut s, SessionEvent::Executed);
    let event = SessionEvent::Inspected(Inspection::Found(Some(vec![Network {
        name: "bridge".to_string(),
        ip_address: Some("172.17.0.2".to_string()),
    }])));
    assert_eq!(
        run_main(&mut s, event),
        Some(SessionAction::Finish(Outcome::Failed(Error::new(
            ErrorKind::Docker,
            "inspect did not return ip"
        ))))
    );
    assert!(s.is_finished());
}

#[test]
fn a_container_without_network_settings_ends_the_session() {
    let mut s = session();
    run_main(&mut s, SessionEvent::Executed);
    assert_eq!(
        run_main(&mut s, SessionEvent::Inspected(Inspection::Found(None))),
        Some(SessionAction::Finish(Outcome::Failed(Error::new(
            ErrorKind::Docker,
            "inspect did not return ip"
        ))))
    );
}

#[test]
fn an_address_that_cannot_be_read_ends_the_session() {
    let mut s = session();
    run_main(&mut s, SessionEvent::Executed);
    assert_eq!(
        run_main(&mut s, found("not an address")),
        Some(SessionAction::Finish(Outcome::Failed(Error::new(
            ErrorKind::Docker,
            "invalid IPv4 address syntax"
        ))))
    );
    assert!(s.is_finished());
}

#[test]
fn a_missing_secret_ends_the_session_before_any_publication() {
    let mut s = RunSession::start(manifest(&["main", "rpc"]), vec![secret("main", 1)]);
    assert_eq!(run_main(&mut s, SessionEvent::Executed), Some(SessionAction::Inspect { delayed: false }));
    assert_eq!(
        run_main(&mut s, found("172.18.0.2")),
        Some(SessionAction::Finish(Outcome::Failed(Error::new(
            ErrorKind::Tor,
            "interface rpc missing key"
        ))))
    );
    assert!(s.is_finished());
    assert_eq!(run_main(&mut s, SessionEvent::Published(Ok(()))), None);
}

#[test]
fn an_unreadable_address_is_reported_before_a_missing_secret() {
    let mut s = RunSession::start(manifest(&["main"]), Vec::new());
    run_main(&mut s, SessionEvent::Executed);
    assert_eq!(
        run_main(&mut s, found("")),
        Some(SessionAction::Finish(Outcome::Failed(Error::new(
            ErrorKind::Docker,
            "invalid IPv4 address syntax"
        ))))
    );
}

#[test]
fn an_application_without_interfaces_publishes_an_empty_list() {
    let mut s = RunSession::start(manifest(&[]), Vec::new());
    run_main(&mut s, SessionEvent::Executed);
    assert_eq!(
        run_main(&mut s, found("10.0.0.7")),
        Some(SessionAction::Publish {
            package: "foo".to_string(),
            address: Ipv4Address(10, 0, 0, 7),
            bindings: Vec::new(),
        })
    );
}

#[test]
fn a_refused_publication_ends_the_session_without_withdrawal() {
    let mut s = session();
    run_main(&mut s, SessionEvent::Executed);
    run_main(&mut s, found("172.18.0.2"));
    assert_eq!(
        run_main(&mut s, SessionEvent::Published(Err(Error::new(ErrorKind::Network, "tor is down")))),
        Some(SessionAction::Finish(Outcome::Failed(Error::new(ErrorKind::Network, "tor is down"))))
    );
    assert!(s.is_finished());
    assert_eq!(run_main(&mut s, SessionEvent::Withdrawn), None);
}

#[test]
fn an_event_that_is_not_waited_for_changes_nothing() {
    let mut s = session();
    assert_eq!(run_main(&mut s, SessionEvent::Withdrawn), None);
    assert_eq!(run_main(&mut s, SessionEvent::Published(Ok(()))), None);
    assert_eq!(run_main(&mut s, SessionEvent::Polled(None)), None);
    assert_eq!(run_main(&mut s, found("172.18.0.2")), None);
    assert_eq!(run_main(&mut s, SessionEvent::Exited(ProcessExit::Panicked)), None);
    assert_eq!(s, session());

    run_main(&mut s, SessionEvent::Executed);
    assert_eq!(run_main(&mut s, SessionEvent::Executed), None);
    assert_eq!(run_main(&mut s, SessionEvent::Polled(Some(ProcessExit::Panicked))), None);
    assert_eq!(*s.stage(), Stage::Inspecting);
}

#[test]
fn a_running_session_waits_for_the_process_only() {
    let mut s = published();
    assert_eq!(run_main(&mut s, SessionEvent::Withdrawn), None);
    assert_eq!(run_main(&mut s, SessionEvent::Published(Ok(()))), None);
    assert_eq!(run_main(&mut s, SessionEvent::Inspected(Inspection::NotFound)), None);
    assert_eq!(run_main(&mut s, SessionEvent::Polled(Some(ProcessExit::Panicked))), None);
    assert_eq!(*s.stage(), Stage::Running);
}

#[test]
fn a_withdrawing_session_keeps_its_outcome_until_it_is_withdrawn() {
    let mut s = published();
    run_main(&mut s, SessionEvent::Exited(ProcessExit::Returned(crash())));
    assert_eq!(run_main(&mut s, SessionEvent::Exited(ProcessExit::Returned(Outcome::Completed))), None);
    assert_eq!(run_main(&mut s, SessionEvent::Executed), None);
    assert_eq!(*s.stage(), Stage::Withdrawing(crash()));
    assert_eq!(run_main(&mut s, SessionEvent::Withdrawn), Some(SessionAction::Finish(crash())));
}

#[test]
fn a_finished_session_accepts_nothing() {
    let mut s = published();
    run_main(&mut s, SessionEvent::Exited(ProcessExit::Returned(Outcome::Completed)));
    run_main(&mut s, SessionEvent::Withdrawn);
    assert!(s.is_finished());
    assert_eq!(run_main(&mut s, SessionEvent::Executed), None);
    assert_eq!(run_main(&mut s, SessionEvent::Withdrawn), None);
    assert_eq!(run_main(&mut s, SessionEvent::Inspected(Inspection::NotFound)), None);
    assert_eq!(run_main(&mut s, SessionEvent::Exited(ProcessExit::Panicked)), None);
    assert_eq!(*s.stage(), Stage::Finished);
}

#[test]
fn the_published_keys_are_the_keys_of_the_session() {
    let mut bytes = [0u8; 64];
    for (i, byte) in bytes.iter_mut().enumerate() {
        *byte = 255 - i as u8;
    }
    let secrets = vec![InterfaceSecret { interface: "main".to_string(), key: TorSecretKeyV3::from(bytes) }];
    let mut s = RunSession::start(manifest(&["main"]), secrets);
    run_main(&mut s, SessionEvent::Executed);
    match run_main(&mut s, found("172.18.0.2")) {
        Some(SessionAction::Publish { bindings, .. }) => {
            assert_eq!(bindings.len(), 1);
            assert_eq!(bindings[0].interface, "main");
            assert_eq!(bindings[0].key.as_bytes(), bytes);
        }
        other => panic!("expected a publication, got {:?}", other),
    }
}

#[test]
fn a_host_error_of_any_kind_is_handed_on_unchanged() {
    let kinds = [
        ErrorKind::Docker,
        ErrorKind::Tor,
        ErrorKind::Network,
        ErrorKind::Storage,
        ErrorKind::Initialization,
    ];
    for kind in kinds {
        let mut s = session();
        run_main(&mut s, SessionEvent::Executed);
        assert_eq!(
            run_main(&mut s, SessionEvent::Inspected(Inspection::Failed(Error::new(kind, "as reported")))),
            Some(SessionAction::Finish(Outcome::Failed(Error { kind, message: "as reported".to_string() })))
        );

        let mut s = session();
        run_main(&mut s, SessionEvent::Executed);
        run_main(&mut s, found("172.18.0.2"));
        assert_eq!(
            run_main(&mut s, SessionEvent::Published(Err(Error::new(kind, "as reported")))),
            Some(SessionAction::Finish(Outcome::Failed(Error { kind, message: "as reported".to_string() })))
        );
    }
}
