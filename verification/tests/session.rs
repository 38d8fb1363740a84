use cyclo::bluetoothctl::{HEART_RATE_CHARACTERISTICS, HEART_RATE_SERVICE};
use cyclo::measurement::DecodeError;
use cyclo::session::{
    find_characteristic, find_service, Characteristic, Command, Service, Session, SessionEvent,
    SessionState, NOTIFY,
};
use cyclo::state::State;

const BATTERY_SERVICE: u128 = 0x0000180f_0000_1000_8000_00805f9b34fb;
const BATTERY_LEVEL: u128 = 0x00002a19_0000_1000_8000_00805f9b34fb;
const READ: u8 = 0x02;

fn measurement_characteristic() -> Characteristic {
    Characteristic { uuid: HEART_RATE_CHARACTERISTICS, properties: NOTIFY }
}

fn heart_rate_service() -> Service {
    Service {
        uuid: HEART_RATE_SERVICE,
        characteristics: vec![
            Characteristic { uuid: BATTERY_LEVEL, properties: READ | NOTIFY },
            measurement_characteristic(),
        ],
    }
}

fn battery_service() -> Service {
    Service {
        uuid: BATTERY_SERVICE,
        characteristics: vec![Characteristic { uuid: BATTERY_LEVEL, properties: READ }],
    }
}

fn notification(value: &[u8]) -> SessionEvent {
    SessionEvent::Notification { uuid: HEART_RATE_CHARACTERISTICS, value: value.to_vec() }
}

fn session_in(state: SessionState) -> Session {
    let mut session = Session::new(String::from("polar"));
    session.state = state;
    session
}

fn active_session(store: &mut State) -> Session {
    let mut session = Session::new(String::from("polar"));
    session.handle(SessionEvent::DeviceConnected, store);
    session.handle(SessionEvent::ConnectionEstablished, store);
    session.handle(
        SessionEvent::ServicesResolved(vec![battery_service(), heart_rate_service()]),
        store,
    );
    session.handle(SessionEvent::SubscriptionAcknowledged, store);
    assert_eq!(session.state, SessionState::Active);
    session
}

#[test]
fn new_session_is_discovered() {
    let session = Session::new(String::from("polar"));
    assert_eq!(session.id, "polar");
    assert_eq!(session.state, SessionState::Discovered);
    assert!(!session.is_over());
}

#[test]
fn session_walks_to_active() {
    let mut store = State::new();
    let mut session = Session::new(String::from("polar"));

    assert_eq!(session.handle(SessionEvent::DeviceConnected, &mut store), Command::Connect);
    assert_eq!(session.state, SessionState::Connecting);
    assert!(store.connected_devices.is_empty());

    assert_eq!(
        session.handle(SessionEvent::ConnectionEstablished, &mut store),
        Command::ResolveServices
    );
    assert_eq!(session.state, SessionState::ServicesResolving);
    assert_eq!(store.connected_devices, vec!["polar"]);

    let services = vec![battery_service(), heart_rate_service()];
    assert_eq!(
        session.handle(SessionEvent::ServicesResolved(services), &mut store),
        Command::Subscribe(measurement_characteristic())
    );
    assert_eq!(session.state, SessionState::Subscribing);

    assert_eq!(
        session.handle(SessionEvent::SubscriptionAcknowledged, &mut store),
        Command::Listen
    );
    assert_eq!(session.state, SessionState::Active);

    assert_eq!(session.handle(notification(&[0x00, 72]), &mut store), Command::Nothing);
    assert_eq!(session.state, SessionState::Active);
    assert_eq!(store.heart_rate, 72);
    assert_eq!(store.heart_rate_history, vec![72]);
    assert_eq!(store.snapshot().last_error, None);
}

#[test]
fn session_without_heart_rate_service_is_rejected() {
    let mut store = State::new();
    let mut session = Session::new(String::from("polar"));
    session.handle(SessionEvent::DeviceConnected, &mut store);
    session.handle(SessionEvent::ConnectionEstablished, &mut store);
    let command = session.handle(SessionEvent::ServicesResolved(vec![battery_service()]), &mut store);
    assert_eq!(command, Command::Disconnect);
    assert_eq!(session.state, SessionState::Rejected);
    assert!(session.is_over());
    assert!(store.connected_devices.is_empty());
    assert_eq!(
        store.snapshot().last_error,
        Some(String::from("Heart Rate service not found"))
    );

    // Whatever follows, nothing is subscribed to and nothing is written.
    let before = store.snapshot();
    for event in [
        SessionEvent::SubscriptionAcknowledged,
        SessionEvent::ServicesResolved(vec![heart_rate_service()]),
        notification(&[0x00, 72]),
        SessionEvent::DeviceConnected,
        SessionEvent::DeviceDisconnected,
        SessionEvent::TransportFailed(String::from("late")),
    ] {
        assert_eq!(session.handle(event, &mut store), Command::Nothing);
        assert_eq!(session.state, SessionState::Rejected);
    }
    assert_eq!(store.snapshot(), before);
}

#[test]
fn session_with_no_services_at_all_is_rejected() {
    let mut store = State::new();
    let mut session = session_in(SessionState::ServicesResolving);
    let command = session.handle(SessionEvent::ServicesResolved(Vec::new()), &mut store);
    assert_eq!(command, Command::Disconnect);
    assert_eq!(session.state, SessionState::Rejected);
}

#[test]
fn session_without_measurement_characteristic_ends() {
    let mut store = State::new();
    let mut session = Session::new(String::from("polar"));
    session.handle(SessionEvent::DeviceConnected, &mut store);
    session.handle(SessionEvent::ConnectionEstablished, &mut store);
    let service = Service {
        uuid: HEART_RATE_SERVICE,
        characteristics: vec![
            // The right identifier without the notify property.
            Characteristic { uuid: HEART_RATE_CHARACTERISTICS, properties: READ },
            // The notify property under another identifier.
            Characteristic { uuid: BATTERY_LEVEL, properties: NOTIFY },
        ],
    };
    let command = session.handle(SessionEvent::ServicesResolved(vec![service]), &mut store);
    assert_eq!(command, Command::Nothing);
    assert_eq!(session.state, SessionState::Disconnected);
    assert!(store.connected_devices.is_empty());
    assert_eq!(
        store.snapshot().last_error,
        Some(String::from("Heart Rate characteristic not found"))
    );
}

#[test]
fn session_subscribes_to_the_first_match_of_the_first_service() {
    let mut store = State::new();
    let mut session = session_in(SessionState::ServicesResolving);
    let first = Service {
        uuid: HEART_RATE_SERVICE,
        characteristics: vec![
            Characteristic { uuid: HEART_RATE_CHARACTERISTICS, properties: READ },
            Characteristic { uuid: HEART_RATE_CHARACTERISTICS, properties: NOTIFY | READ },
            Characteristic { uuid: HEART_RATE_CHARACTERISTICS, properties: NOTIFY },
        ],
    };
    let command = session.handle(
        SessionEvent::ServicesResolved(vec![battery_service(), first, heart_rate_service()]),
        &mut store,
    );
    assert_eq!(
        command,
        Command::Subscribe(Characteristic {
            uuid: HEART_RATE_CHARACTERISTICS,
            properties: NOTIFY | READ
        })
    );
    assert_eq!(session.state, SessionState::Subscribing);
}

#[test]
fn disconnect_stops_telemetry_writes() {
    let mut store = State::new();
    let mut session = active_session(&mut store);
    session.handle(notification(&[0x00, 72]), &mut store);
    assert_eq!(store.connected_devices, vec!["polar"]);

    assert_eq!(
        session.handle(SessionEvent::DeviceDisconnected, &mut store),
        Command::StopListening
    );
    assert_eq!(session.state, SessionState::Disconnected);
    assert!(session.is_over());
    assert!(store.connected_devices.is_empty());

    let before = store.snapshot();
    assert_eq!(session.handle(notification(&[0x00, 99]), &mut store), Command::Nothing);
    assert_eq!(session.handle(notification(&[0x00]), &mut store), Command::Nothing);
    assert_eq!(session.handle(SessionEvent::DeviceConnected, &mut store), Command::Nothing);
    assert_eq!(session.state, SessionState::Disconnected);
    assert_eq!(store.snapshot(), before);
    assert_eq!(store.heart_rate, 72);
    assert_eq!(store.heart_rate_history, vec![72]);
}

#[test]
fn disconnect_before_active_ends_the_session_quietly() {
    for state in [
        SessionState::Discovered,
        SessionState::Connecting,
        SessionState::ServicesResolving,
        SessionState::Subscribing,
    ] {
        let mut store = State::new();
        store.mark_connected(String::from("polar"));
        store.mark_connected(String::from("wahoo"));
        let mut session = session_in(state);
        assert_eq!(
            session.handle(SessionEvent::DeviceDisconnected, &mut store),
            Command::Nothing
        );
        assert_eq!(session.state, SessionState::Disconnected);
        assert_eq!(store.connected_devices, vec!["wahoo"]);
        assert_eq!(store.snapshot().last_error, None);
    }
}

#[test]
fn malformed_notification_is_skipped() {
    let mut store = State::new();
    let mut session = active_session(&mut store);
    session.handle(notification(&[0x00, 72]), &mut store);
    let before = store.snapshot();

    assert_eq!(
        session.handle(notification(&[0x00]), &mut store),
        Command::Skip(DecodeError::PayloadTooShort)
    );
    assert_eq!(
        session.handle(notification(&[0x01, 72]), &mut store),
        Command::Skip(DecodeError::PayloadTruncated)
    );
    assert_eq!(session.state, SessionState::Active);
    assert_eq!(store.snapshot(), before);

    // The stream goes on.
    assert_eq!(session.handle(notification(&[0x00, 73]), &mut store), Command::Nothing);
    assert_eq!(store.heart_rate, 73);
    assert_eq!(store.heart_rate_history, vec![72, 73]);
}

#[test]
fn notification_of_another_characteristic_is_ignored() {
    let mut store = State::new();
    let mut session = active_session(&mut store);
    let event = SessionEvent::Notification { uuid: BATTERY_LEVEL, value: vec![0x00, 72] };
    assert_eq!(session.handle(event, &mut store), Command::Nothing);
    assert_eq!(session.state, SessionState::Active);
    assert_eq!(store.heart_rate, 0);
    assert!(store.heart_rate_history.is_empty());
}

#[test]
fn notification_before_active_is_ignored() {
    for state in [
        SessionState::Discovered,
        SessionState::Connecting,
        SessionState::ServicesResolving,
        SessionState::Subscribing,
    ] {
        let mut store = State::new();
        let mut session = session_in(state);
        assert_eq!(session.handle(notification(&[0x00, 72]), &mut store), Command::Nothing);
        assert_eq!(session.state, state);
        assert_eq!(store.heart_rate, 0);
        assert!(store.heart_rate_history.is_empty());
    }
}

#[test]
fn transport_failure_ends_the_session_and_is_logged() {
    let mut store = State::new();
    let mut session = active_session(&mut store);
    let command = session.handle(SessionEvent::TransportFailed(String::from("link lost")), &mut store);
    assert_eq!(command, Command::StopListening);
    assert_eq!(session.state, SessionState::Disconnected);
    assert!(store.connected_devices.is_empty());
    assert_eq!(
        store.snapshot().last_error,
        Some(String::from("Unexpected error: link lost"))
    );

    let mut store = State::new();
    let mut session = session_in(SessionState::Connecting);
    let command = session.handle(SessionEvent::TransportFailed(String::from("refused")), &mut store);
    assert_eq!(command, Command::Nothing);
    assert_eq!(session.state, SessionState::Disconnected);
    assert_eq!(store.snapshot().last_error, Some(String::from("Unexpected error: refused")));
}

#[test]
fn events_out_of_turn_change_nothing() {
    let mut store = State::new();
    let mut session = Session::new(String::from("polar"));
    for event in [
        SessionEvent::ConnectionEstablished,
        SessionEvent::ServicesResolved(vec![heart_rate_service()]),
        SessionEvent::SubscriptionAcknowledged,
    ] {
        assert_eq!(session.handle(event, &mut store), Command::Nothing);
        assert_eq!(session.state, SessionState::Discovered);
    }
    session.handle(SessionEvent::DeviceConnected, &mut store);
    for event in [
        SessionEvent::DeviceConnected,
        SessionEvent::ServicesResolved(vec![heart_rate_service()]),
        SessionEvent::SubscriptionAcknowledged,
    ] {
        assert_eq!(session.handle(event, &mut store), Command::Nothing);
        assert_eq!(session.state, SessionState::Connecting);
    }
    assert_eq!(store.snapshot(), State::new().snapshot());
}

#[test]
fn two_sessions_share_the_store() {
    let mut store = State::new();
    let mut first = active_session(&mut store);
    let mut second = Session::new(String::from("wahoo"));
    second.handle(SessionEvent::DeviceConnected, &mut store);
    second.handle(SessionEvent::ConnectionEstablished, &mut store);
    second.handle(SessionEvent::ServicesResolved(vec![heart_rate_service()]), &mut store);
    second.handle(SessionEvent::SubscriptionAcknowledged, &mut store);
    assert_eq!(store.connected_devices, vec!["polar", "wahoo"]);

    first.handle(notification(&[0x00, 60]), &mut store);
    second.handle(notification(&[0x00, 150]), &mut store);
    assert_eq!(store.snapshot().heart_rate, 150);
    assert_eq!(store.snapshot().heart_rate_history, vec![60, 150]);

    first.handle(SessionEvent::DeviceDisconnected, &mut store);
    assert_eq!(store.connected_devices, vec!["wahoo"]);
    second.handle(notification(&[0x00, 151]), &mut store);
    assert_eq!(store.snapshot().heart_rate, 151);
}

#[test]
fn find_service_and_characteristic() {
    let services = vec![battery_service(), heart_rate_service(), heart_rate_service()];
    assert_eq!(find_service(&services, HEART_RATE_SERVICE), Some(1));
    assert_eq!(find_service(&services, BATTERY_SERVICE), Some(0));
    assert_eq!(find_service(&services, 7), None);
    assert_eq!(find_service(&Vec::new(), HEART_RATE_SERVICE), None);

    let characteristics = heart_rate_service().characteristics;
    assert_eq!(find_characteristic(&characteristics, HEART_RATE_CHARACTERISTICS), Some(1));
    assert_eq!(find_characteristic(&characteristics, BATTERY_LEVEL), Some(0));
    assert_eq!(find_characteristic(&battery_service().characteristics, BATTERY_LEVEL), None);
    assert_eq!(find_characteristic(&Vec::new(), BATTERY_LEVEL), None);
}

#[test]
fn peripheral_known_to_lack_the_service_is_rejected_before_connecting() {
    let mut store = State::new();
    let mut session = Session::new(String::from("polar"));
    let command = session.handle(SessionEvent::ServicesResolved(vec![battery_service()]), &mut store);
    assert_eq!(command, Command::Disconnect);
    assert_eq!(session.state, SessionState::Rejected);
    assert_eq!(
        store.snapshot().last_error,
        Some(String::from("Heart Rate service not found"))
    );
    assert_eq!(session.handle(SessionEvent::DeviceConnected, &mut store), Command::Nothing);
    assert_eq!(session.state, SessionState::Rejected);
}
