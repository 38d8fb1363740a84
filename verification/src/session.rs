//! The life of one connection to a peripheral.
//!
//! A session is a state machine. Whoever drives it performs the command that
//! a step returns (connect, resolve the services, subscribe, listen,
//! disconnect) and hands back what came of it as the next event. The session
//! itself decides what follows and writes to the telemetry store.
//!
//! ```text
//! Discovered -> Connecting -> ServicesResolving -> Subscribing -> Active
//!     |                              |                              |
//!     +----------------------------> Rejected                  Disconnected
//! ```
//!
//! A peripheral without the Heart Rate service is rejected. The report of a
//! disconnection and any failure end a session from wherever it stands.
//! `Rejected` and `Disconnected` are final: a session that has reached one of
//! them ignores every event.

use vstd::prelude::*;
use vstd::string::*;
use crate::bluetoothctl::{
    transport_text,
    BluetoothError,
    HEART_RATE_CHARACTERISTICS,
    HEART_RATE_SERVICE,
};
use crate::measurement::{decode, decoded, DecodeError};
use crate::state::{lemma_without, State, StateView};

verus! {

/// The property flag of a characteristic that can be read.
pub const READ: u8 = 0x02;

/// The property flag of a characteristic that can be written.
pub const WRITE: u8 = 0x08;

/// The property flag of a characteristic that pushes its value to
/// subscribers.
pub const NOTIFY: u8 = 0x10;

/// The property flag of a characteristic that pushes its value to
/// subscribers and waits for their acknowledgement.
pub const INDICATE: u8 = 0x20;

/// One characteristic of a service: its identifier and its property flags.
#[derive(Debug, Clone, Copy, PartialEq, Eq, Structural)]
pub struct Characteristic {
    pub uuid: u128,
    pub properties: u8,
}

/// One service of a peripheral with its characteristics.
#[derive(Debug, Clone)]
pub struct Service {
    pub uuid: u128,
    pub characteristics: Vec<Characteristic>,
}

/// A service as plain values.
pub struct ServiceView {
    pub uuid: u128,
    pub characteristics: Seq<Characteristic>,
}

impl View for Service {
    type V = ServiceView;

    open spec fn view(&self) -> ServiceView {
        ServiceView { uuid: self.uuid, characteristics: self.characteristics@ }
    }
}

/// The services that a list holds, as plain values.
pub open spec fn service_views(services: Seq<Service>) -> Seq<ServiceView> {
    Seq::new(services.len(), |i: int| services[i]@)
}

/// Where a session stands.
#[derive(Debug, Clone, Copy, PartialEq, Eq, Structural)]
pub enum SessionState {
    /// The peripheral is known and nothing has happened yet.
    Discovered,
    /// The adapter has reported the peripheral as connected.
    Connecting,
    /// The connection stands and the services are being asked for.
    ServicesResolving,
    /// The measurement characteristic was found and a subscription asked for.
    Subscribing,
    /// Notifications arrive and are decoded into the store.
    Active,
    /// The session is over.
    Disconnected,
    /// The peripheral is no heart rate sensor. The session is over.
    Rejected,
}

/// What happened to the peripheral of a session.
#[derive(Debug, Clone)]
pub enum SessionEvent {
    /// The adapter reports the peripheral as connected.
    DeviceConnected,
    /// The connection to the peripheral stands.
    ConnectionEstablished,
    /// The peripheral has told its services.
    ServicesResolved(Vec<Service>),
    /// The peripheral has accepted the subscription.
    SubscriptionAcknowledged,
    /// A characteristic has sent a value.
    Notification { uuid: u128, value: Vec<u8> },
    /// The adapter reports the peripheral as disconnected.
    DeviceDisconnected,
    /// The adapter or the peripheral has failed, in its own words.
    TransportFailed(String),
}

/// An event as plain values.
pub enum EventView {
    DeviceConnected,
    ConnectionEstablished,
    ServicesResolved(Seq<ServiceView>),
    SubscriptionAcknowledged,
    Notification { uuid: u128, value: Seq<u8> },
    DeviceDisconnected,
    TransportFailed(Seq<char>),
}

impl View for SessionEvent {
    type V = EventView;

    open spec fn view(&self) -> EventView {
        match self {
            SessionEvent::DeviceConnected => EventView::DeviceConnected,
            SessionEvent::ConnectionEstablished => EventView::ConnectionEstablished,
            SessionEvent::ServicesResolved(services) => EventView::ServicesResolved(
                service_views(services@),
            ),
            SessionEvent::SubscriptionAcknowledged => EventView::SubscriptionAcknowledged,
            SessionEvent::Notification { uuid, value } => EventView::Notification {
                uuid: *uuid,
                value: value@,
            },
            SessionEvent::DeviceDisconnected => EventView::DeviceDisconnected,
            SessionEvent::TransportFailed(message) => EventView::TransportFailed(message@),
        }
    }
}

/// What the driver of a session is to do after a step.
#[derive(Debug, Clone, Copy, PartialEq, Eq, Structural)]
pub enum Command {
    /// Nothing.
    Nothing,
    /// Open the connection to the peripheral.
    Connect,
    /// Ask the peripheral for its services.
    ResolveServices,
    /// Subscribe to this characteristic.
    Subscribe(Characteristic),
    /// Start handing the peripheral's notifications to the session.
    Listen,
    /// Disconnect the peripheral.
    Disconnect,
    /// Stop handing the peripheral's notifications to the session.
    StopListening,
    /// Nothing: the notification was malformed and has been dropped.
    Skip(DecodeError),
}

/// What a step leaves behind.
pub struct Outcome {
    pub state: SessionState,
    pub store: StateView,
    pub command: Command,
}

/// A final state.
pub open spec fn is_over(state: SessionState) -> bool {
    state == SessionState::Disconnected || state == SessionState::Rejected
}

/// Whether a service with the identifier `uuid` is among `services`.
pub open spec fn offers(services: Seq<ServiceView>, uuid: u128) -> bool {
    exists|i: int| 0 <= i < services.len() && #[trigger] services[i].uuid == uuid
}

/// `at` is where the first service with the identifier `uuid` stands.
pub open spec fn is_first_service(services: Seq<ServiceView>, uuid: u128, at: int) -> bool {
    &&& 0 <= at < services.len()
    &&& services[at].uuid == uuid
    &&& forall|j: int| 0 <= j < at ==> #[trigger] services[j].uuid != uuid
}

/// The first service with the identifier `uuid`.
pub open spec fn first_service(services: Seq<ServiceView>, uuid: u128) -> ServiceView
    recommends
        offers(services, uuid),
{
    services[choose|at: int| is_first_service(services, uuid, at)]
}

/// The characteristic has the identifier `uuid` and notifies.
pub open spec fn notifies(characteristic: Characteristic, uuid: u128) -> bool {
    characteristic.uuid == uuid && characteristic.properties & NOTIFY != 0
}

/// Whether a notifying characteristic with the identifier `uuid` is among
/// `characteristics`.
pub open spec fn has_notifying(characteristics: Seq<Characteristic>, uuid: u128) -> bool {
    exists|i: int| 0 <= i < characteristics.len() && notifies(#[trigger] characteristics[i], uuid)
}

/// `at` is where the first notifying characteristic with the identifier
/// `uuid` stands.
pub open spec fn is_first_notifying(
    characteristics: Seq<Characteristic>,
    uuid: u128,
    at: int,
) -> bool {
    &&& 0 <= at < characteristics.len()
    &&& notifies(characteristics[at], uuid)
    &&& forall|j: int| 0 <= j < at ==> !notifies(#[trigger] characteristics[j], uuid)
}

/// The first notifying characteristic with the identifier `uuid`.
pub open spec fn first_notifying(characteristics: Seq<Characteristic>, uuid: u128) -> Characteristic
    recommends
        has_notifying(characteristics, uuid),
{
    characteristics[choose|at: int| is_first_notifying(characteristics, uuid, at)]
}

/// The store once the session of `id` has ended with the failure that
/// `message` tells: the failure is logged and `id` no longer connected.
pub open spec fn ended(store: StateView, id: Seq<char>, message: Seq<char>) -> StateView {
    store.failed(message).disconnected(id)
}

/// What follows once a session learns that its peripheral lacks the Heart
/// Rate service: the peripheral is rejected and disconnected, and the
/// failure is logged.
pub open spec fn rejected(id: Seq<char>, store: StateView) -> Outcome {
    Outcome {
        state: SessionState::Rejected,
        store: ended(store, id, BluetoothError::ServiceNotFound.text()),
        command: Command::Disconnect,
    }
}

/// What follows once a session in `ServicesResolving` knows the services.
/// Without the Heart Rate service the peripheral is rejected and
/// disconnected. With the service but without a measurement characteristic
/// that notifies, the session ends. Otherwise it subscribes to the first
/// such characteristic of the first such service.
pub open spec fn resolved(id: Seq<char>, services: Seq<ServiceView>, store: StateView) -> Outcome {
    if !offers(services, HEART_RATE_SERVICE) {
        rejected(id, store)
    } else {
        let service = first_service(services, HEART_RATE_SERVICE);
        if !has_notifying(service.characteristics, HEART_RATE_CHARACTERISTICS) {
            Outcome {
                state: SessionState::Disconnected,
                store: ended(store, id, BluetoothError::CharacteristicNotFound.text()),
                command: Command::Nothing,
            }
        } else {
            Outcome {
                state: SessionState::Subscribing,
                store,
                command: Command::Subscribe(
                    first_notifying(service.characteristics, HEART_RATE_CHARACTERISTICS),
                ),
            }
        }
    }
}

/// What follows once an active session gets a value of the measurement
/// characteristic: a reading goes to the store, a malformed payload is
/// dropped. The session stays active either way.
pub open spec fn notified(value: Seq<u8>, store: StateView) -> Outcome {
    match decoded(value) {
        Ok(measurement) => Outcome {
            state: SessionState::Active,
            store: store.published(measurement.heart_rate),
            command: Command::Nothing,
        },
        Err(error) => Outcome {
            state: SessionState::Active,
            store,
            command: Command::Skip(error),
        },
    }
}

/// The command that ends a session in `state`: an active one stops
/// listening.
pub open spec fn closing_command(state: SessionState) -> Command {
    if state == SessionState::Active {
        Command::StopListening
    } else {
        Command::Nothing
    }
}

/// One step of the session of the peripheral `id`: what `event` makes of
/// `state` and `store`. An event that the state does not wait for changes
/// nothing. The services of a peripheral may become known before anything
/// else has happened: where they lack the Heart Rate service, the peripheral
/// is rejected there and then.
pub open spec fn step(
    id: Seq<char>,
    state: SessionState,
    event: EventView,
    store: StateView,
) -> Outcome {
    let ignored = Outcome { state, store, command: Command::Nothing };
    if is_over(state) {
        ignored
    } else {
        match event {
            EventView::DeviceDisconnected => Outcome {
                state: SessionState::Disconnected,
                store: store.disconnected(id),
                command: closing_command(state),
            },
            EventView::TransportFailed(message) => Outcome {
                state: SessionState::Disconnected,
                store: ended(store, id, transport_text(message)),
                command: closing_command(state),
            },
            EventView::DeviceConnected => if state == SessionState::Discovered {
                Outcome { state: SessionState::Connecting, store, command: Command::Connect }
            } else {
                ignored
            },
            EventView::ConnectionEstablished => if state == SessionState::Connecting {
                Outcome {
                    state: SessionState::ServicesResolving,
                    store: store.connected(id),
                    command: Command::ResolveServices,
                }
            } else {
                ignored
            },
            EventView::ServicesResolved(services) => if state == SessionState::ServicesResolving {
                resolved(id, services, store)
            } else if state == SessionState::Discovered && !offers(services, HEART_RATE_SERVICE) {
                rejected(id, store)
            } else {
                ignored
            },
            EventView::SubscriptionAcknowledged => if state == SessionState::Subscribing {
                Outcome { state: SessionState::Active, store, command: Command::Listen }
            } else {
                ignored
            },
            EventView::Notification { uuid, value } => if state == SessionState::Active && uuid
                == HEART_RATE_CHARACTERISTICS {
                notified(value, store)
            } else {
                ignored
            },
        }
    }
}

/// Where the first service with the identifier `uuid` stands, if there is
/// one.
pub fn find_service(services: &Vec<Service>, uuid: u128) -> (found: Option<usize>)
    ensures
        match found {
            Some(at) => is_first_service(service_views(services@), uuid, at as int),
            None => !offers(service_views(services@), uuid),
        },
{
    let mut i: usize = 0;
    while i < services.len()
        invariant
            0 <= i <= services.len(),
            forall|j: int| 0 <= j < i ==> #[trigger] service_views(services@)[j].uuid != uuid,
        decreases services.len() - i,
    {
        if services[i].uuid == uuid {
            return Some(i);
        }
        i = i + 1;
    }
    None
}

/// Where the first notifying characteristic with the identifier `uuid`
/// stands, if there is one.
pub fn find_characteristic(characteristics: &Vec<Characteristic>, uuid: u128) -> (found: Option<
    usize,
>)
    ensures
        match found {
            Some(at) => is_first_notifying(characteristics@, uuid, at as int),
            None => !has_notifying(characteristics@, uuid),
        },
{
    let mut i: usize = 0;
    while i < characteristics.len()
        invariant
            0 <= i <= characteristics.len(),
            forall|j: int| 0 <= j < i ==> !notifies(#[trigger] characteristics@[j], uuid),
        decreases characteristics.len() - i,
    {
        if characteristics[i].uuid == uuid && characteristics[i].properties & NOTIFY != 0 {
            return Some(i);
        }
        i = i + 1;
    }
    None
}

/// There is only one first service with a given identifier.
pub proof fn lemma_first_service_is_unique(services: Seq<ServiceView>, uuid: u128, at: int)
    requires
        is_first_service(services, uuid, at),
    ensures
        offers(services, uuid),
        first_service(services, uuid) == services[at],
{
    let k = choose|k: int| is_first_service(services, uuid, k);
    assert(is_first_service(services, uuid, k));
    if k < at {
        assert(services[k].uuid != uuid);
    }
    if at < k {
        assert(services[at].uuid != uuid);
    }
}

/// There is only one first notifying characteristic with a given identifier.
pub proof fn lemma_first_notifying_is_unique(
    characteristics: Seq<Characteristic>,
    uuid: u128,
    at: int,
)
    requires
        is_first_notifying(characteristics, uuid, at),
    ensures
        has_notifying(characteristics, uuid),
        first_notifying(characteristics, uuid) == characteristics[at],
{
    let k = choose|k: int| is_first_notifying(characteristics, uuid, k);
    assert(is_first_notifying(characteristics, uuid, k));
    if k < at {
        assert(!notifies(characteristics[k], uuid));
    }
    if at < k {
        assert(!notifies(characteristics[at], uuid));
    }
}

/// The session of one peripheral.
#[derive(Debug, Clone)]
pub struct Session {
    /// The identifier of the peripheral.
    pub id: String,
    pub state: SessionState,
}

impl Session {
    /// A session for a peripheral that was just discovered.
    pub fn new(id: String) -> (session: Session)
        ensures
            session.id@ == id@,
            session.state == SessionState::Discovered,
    {
        Session { id, state: SessionState::Discovered }
    }

    /// Whether the session is over.
    pub fn is_over(&self) -> (over: bool)
        ensures
            over == is_over(self.state),
    {
        self.state == SessionState::Disconnected || self.state == SessionState::Rejected
    }

    /// Ends the session with a failure: logs it and takes the peripheral off
    /// the list of the connected.
    fn end(&mut self, state: SessionState, failure: BluetoothError, store: &mut State)
        ensures
            final(self).id == old(self).id,
            final(self).state == state,
            final(store)@ == ended(old(store)@, old(self).id@, failure.text()),
    {
        store.record_error(failure.message());
        store.mark_disconnected(&self.id);
        self.state = state;
    }

    /// Looks for the measurement characteristic among the services that the
    /// peripheral has told.
    fn resolve(&mut self, services: Vec<Service>, store: &mut State) -> (command: Command)
        requires
            old(self).state == SessionState::ServicesResolving,
        ensures
            final(self).id == old(self).id,
            ({
                let outcome = resolved(old(self).id@, service_views(services@), old(store)@);
                &&& final(self).state == outcome.state
                &&& final(store)@ == outcome.store
                &&& command == outcome.command
            }),
    {
        match find_service(&services, HEART_RATE_SERVICE) {
            None => {
                self.end(SessionState::Rejected, BluetoothError::ServiceNotFound, store);
                Command::Disconnect
            },
            Some(at) => {
                proof {
                    lemma_first_service_is_unique(
                        service_views(services@),
                        HEART_RATE_SERVICE,
                        at as int,
                    );
                }
                let service = &services[at];
                match find_characteristic(&service.characteristics, HEART_RATE_CHARACTERISTICS) {
                    None => {
                        self.end(
                            SessionState::Disconnected,
                            BluetoothError::CharacteristicNotFound,
                            store,
                        );
                        Command::Nothing
                    },
                    Some(position) => {
                        proof {
                            lemma_first_notifying_is_unique(
                                service.characteristics@,
                                HEART_RATE_CHARACTERISTICS,
                                position as int,
                            );
                        }
                        self.state = SessionState::Subscribing;
                        Command::Subscribe(service.characteristics[position])
                    },
                }
            },
        }
    }

    /// Takes one event in: moves the session on, writes to the store what
    /// the event brings, and tells what is to be done next.
    pub fn handle(&mut self, event: SessionEvent, store: &mut State) -> (command: Command)
        ensures
            final(self).id == old(self).id,
            ({
                let outcome = step(old(self).id@, old(self).state, event@, old(store)@);
                &&& final(self).state == outcome.state
                &&& final(store)@ == outcome.store
                &&& command == outcome.command
            }),
    {
        if self.is_over() {
            return Command::Nothing;
        }
        let closing: Command = if self.state == SessionState::Active {
            Command::StopListening
        } else {
            Command::Nothing
        };
        match event {
            SessionEvent::DeviceDisconnected => {
                store.mark_disconnected(&self.id);
                self.state = SessionState::Disconnected;
                closing
            },
            SessionEvent::TransportFailed(message) => {
                self.end(SessionState::Disconnected, BluetoothError::TransportError(message), store);
                closing
            },
            SessionEvent::DeviceConnected => {
                if self.state == SessionState::Discovered {
                    self.state = SessionState::Connecting;
                    Command::Connect
                } else {
                    Command::Nothing
                }
            },
            SessionEvent::ConnectionEstablished => {
                if self.state == SessionState::Connecting {
                    store.mark_connected(self.id.clone());
                    self.state = SessionState::ServicesResolving;
                    Command::ResolveServices
                } else {
                    Command::Nothing
                }
            },
            SessionEvent::ServicesResolved(services) => {
                if self.state == SessionState::ServicesResolving {
                    self.resolve(services, store)
                } else if self.state == SessionState::Discovered {
                    match find_service(&services, HEART_RATE_SERVICE) {
                        None => {
                            self.end(SessionState::Rejected, BluetoothError::ServiceNotFound, store);
                            Command::Disconnect
                        },
                        Some(_) => Command::Nothing,
                    }
                } else {
                    Command::Nothing
                }
            },
            SessionEvent::SubscriptionAcknowledged => {
                if self.state == SessionState::Subscribing {
                    self.state = SessionState::Active;
                    Command::Listen
                } else {
                    Command::Nothing
                }
            },
            SessionEvent::Notification { uuid, value } => {
                if self.state == SessionState::Active && uuid == HEART_RATE_CHARACTERISTICS {
                    match decode(value.as_slice()) {
                        Ok(measurement) => {
                            store.publish(&measurement);
                            Command::Nothing
                        },
                        Err(error) => Command::Skip(error),
                    }
                } else {
                    Command::Nothing
                }
            },
        }
    }
}

/// What a run of events leaves behind: the state and the store after the
/// last of them, and the command of each step.
pub struct Trace {
    pub state: SessionState,
    pub store: StateView,
    pub commands: Seq<Command>,
}

/// The session of `id` taking `events` in, one after the other, from `state`
/// and `store`.
pub open spec fn run(
    id: Seq<char>,
    state: SessionState,
    store: StateView,
    events: Seq<EventView>,
) -> Trace
    decreases events.len(),
{
    if events.len() == 0 {
        Trace { state, store, commands: Seq::empty() }
    } else {
        let before = run(id, state, store, events.drop_last());
        let outcome = step(id, before.state, events.last(), before.store);
        Trace {
            state: outcome.state,
            store: outcome.store,
            commands: before.commands.push(outcome.command),
        }
    }
}

/// A session that is over stays as it is: whatever events follow, its state
/// and the store do not change and nothing is commanded.
pub proof fn lemma_over_is_final(
    id: Seq<char>,
    state: SessionState,
    store: StateView,
    events: Seq<EventView>,
)
    requires
        is_over(state),
    ensures
        run(id, state, store, events).state == state,
        run(id, state, store, events).store == store,
        run(id, state, store, events).commands.len() == events.len(),
        forall|k: int|
            0 <= k < events.len() ==> #[trigger] run(id, state, store, events).commands[k]
                == Command::Nothing,
    decreases events.len(),
{
    if events.len() > 0 {
        lemma_over_is_final(id, state, store, events.drop_last());
    }
}

/// A session subscribes only when it learns, while resolving the services,
/// of a Heart Rate service, and only to a characteristic of that service
/// that is the Heart Rate Measurement and notifies.
pub proof fn lemma_subscribes_only_to_the_measurement(
    id: Seq<char>,
    state: SessionState,
    event: EventView,
    store: StateView,
)
    requires
        step(id, state, event, store).command is Subscribe,
    ensures
        state == SessionState::ServicesResolving,
        event is ServicesResolved,
        offers(event->ServicesResolved_0, HEART_RATE_SERVICE),
        first_service(event->ServicesResolved_0, HEART_RATE_SERVICE).uuid == HEART_RATE_SERVICE,
        first_service(event->ServicesResolved_0, HEART_RATE_SERVICE).characteristics.contains(
            step(id, state, event, store).command->Subscribe_0,
        ),
        notifies(step(id, state, event, store).command->Subscribe_0, HEART_RATE_CHARACTERISTICS),
        step(id, state, event, store).state == SessionState::Subscribing,
{
    let services = event->ServicesResolved_0;
    lemma_offered_has_first(services, HEART_RATE_SERVICE);
    let service = first_service(services, HEART_RATE_SERVICE);
    lemma_notifying_has_first(service.characteristics, HEART_RATE_CHARACTERISTICS);
}

/// Among services that offer an identifier there is a first with it.
pub proof fn lemma_offered_has_first(services: Seq<ServiceView>, uuid: u128)
    requires
        offers(services, uuid),
    ensures
        is_first_service(services, uuid, choose|at: int| is_first_service(services, uuid, at)),
    decreases services.len(),
{
    let i = choose|i: int| 0 <= i < services.len() && #[trigger] services[i].uuid == uuid;
    let front = services.subrange(0, i);
    if offers(front, uuid) {
        lemma_offered_has_first(front, uuid);
        let k = choose|k: int| is_first_service(front, uuid, k);
        assert(front[k].uuid == uuid);
        assert forall|j: int| 0 <= j < k implies #[trigger] services[j].uuid != uuid by {
            assert(front[j].uuid != uuid);
        }
        assert(is_first_service(services, uuid, k));
    } else {
        assert forall|j: int| 0 <= j < i implies #[trigger] services[j].uuid != uuid by {
            if services[j].uuid == uuid {
                assert(front[j].uuid == uuid);
            }
        }
        assert(is_first_service(services, uuid, i));
    }
}

/// Among characteristics of which one notifies under an identifier there is
/// a first that does.
pub proof fn lemma_notifying_has_first(characteristics: Seq<Characteristic>, uuid: u128)
    requires
        has_notifying(characteristics, uuid),
    ensures
        is_first_notifying(
            characteristics,
            uuid,
            choose|at: int| is_first_notifying(characteristics, uuid, at),
        ),
    decreases characteristics.len(),
{
    let i = choose|i: int|
        0 <= i < characteristics.len() && notifies(#[trigger] characteristics[i], uuid);
    let front = characteristics.subrange(0, i);
    if has_notifying(front, uuid) {
        lemma_notifying_has_first(front, uuid);
        let k = choose|k: int| is_first_notifying(front, uuid, k);
        assert(notifies(front[k], uuid));
        assert forall|j: int| 0 <= j < k implies !notifies(#[trigger] characteristics[j], uuid) by {
            assert(!notifies(front[j], uuid));
        }
        assert(is_first_notifying(characteristics, uuid, k));
    } else {
        assert forall|j: int| 0 <= j < i implies !notifies(#[trigger] characteristics[j], uuid) by {
            if notifies(characteristics[j], uuid) {
                assert(notifies(front[j], uuid));
            }
        }
        assert(is_first_notifying(characteristics, uuid, i));
    }
}

/// A session that learns of services among which the Heart Rate service is
/// missing, while it resolves them or before it has connected, is rejected:
/// it commands a disconnect and logs the failure, and whatever events
/// follow, it stays rejected, never subscribes and leaves the store alone.
pub proof fn lemma_without_heart_rate_service_rejected(
    id: Seq<char>,
    state: SessionState,
    services: Seq<ServiceView>,
    store: StateView,
    later: Seq<EventView>,
)
    requires
        state == SessionState::ServicesResolving || state == SessionState::Discovered,
        !offers(services, HEART_RATE_SERVICE),
    ensures
        ({
            let outcome = step(id, state, EventView::ServicesResolved(services), store);
            let after = run(id, outcome.state, outcome.store, later);
            &&& outcome.state == SessionState::Rejected
            &&& outcome.command == Command::Disconnect
            &&& outcome.store.last_error() == Some(BluetoothError::ServiceNotFound.text())
            &&& !outcome.store.connected_devices.contains(id)
            &&& outcome.store.heart_rate == store.heart_rate
            &&& outcome.store.heart_rate_history == store.heart_rate_history
            &&& after.state == SessionState::Rejected
            &&& after.store == outcome.store
            &&& forall|k: int| 0 <= k < later.len() ==> !(#[trigger] after.commands[k] is Subscribe)
        }),
{
    let outcome = step(id, state, EventView::ServicesResolved(services), store);
    lemma_over_is_final(id, outcome.state, outcome.store, later);
    lemma_without(store.failed(BluetoothError::ServiceNotFound.text()).connected_devices, id);
}

/// Once the adapter has reported the peripheral of a session as
/// disconnected, the session is over and the peripheral no longer listed
/// as connected; whatever arrives afterwards, notifications included,
/// changes nothing in the store.
pub proof fn lemma_nothing_is_written_after_disconnect(
    id: Seq<char>,
    state: SessionState,
    store: StateView,
    later: Seq<EventView>,
)
    ensures
        ({
            let outcome = step(id, state, EventView::DeviceDisconnected, store);
            let after = run(id, outcome.state, outcome.store, later);
            &&& is_over(outcome.state)
            &&& !is_over(state) ==> outcome.state == SessionState::Disconnected
                && !outcome.store.connected_devices.contains(id)
            &&& state == SessionState::Active ==> outcome.command == Command::StopListening
            &&& outcome.store.heart_rate == store.heart_rate
            &&& outcome.store.heart_rate_history == store.heart_rate_history
            &&& after.state == outcome.state
            &&& after.store == outcome.store
            &&& forall|k: int|
                0 <= k < later.len() ==> #[trigger] after.commands[k] == Command::Nothing
        }),
{
    let outcome = step(id, state, EventView::DeviceDisconnected, store);
    lemma_over_is_final(id, outcome.state, outcome.store, later);
    lemma_without(store.connected_devices, id);
}

/// Only an active session writes readings, and only for a well-formed value
/// of the Heart Rate Measurement characteristic: any other step leaves the
/// current heart rate and the history as they were.
pub proof fn lemma_only_active_sessions_publish(
    id: Seq<char>,
    state: SessionState,
    event: EventView,
    store: StateView,
)
    ensures
        ({
            let outcome = step(id, state, event, store);
            let reading = state == SessionState::Active && event is Notification
                && event->Notification_uuid == HEART_RATE_CHARACTERISTICS && decoded(
                event->Notification_value,
            ) is Ok;
            &&& reading ==> outcome.store == store.published(
                decoded(event->Notification_value)->Ok_0.heart_rate,
            )
            &&& !reading ==> outcome.store.heart_rate == store.heart_rate
                && outcome.store.heart_rate_history == store.heart_rate_history
        }),
{
}

/// A malformed notification is dropped and the stream goes on: the session
/// stays active and the store is not touched.
pub proof fn lemma_malformed_notification_is_skipped(
    id: Seq<char>,
    value: Seq<u8>,
    store: StateView,
)
    requires
        decoded(value) is Err,
    ensures
        ({
            let outcome = step(
                id,
                SessionState::Active,
                EventView::Notification { uuid: HEART_RATE_CHARACTERISTICS, value },
                store,
            );
            &&& outcome.state == SessionState::Active
            &&& outcome.store == store
            &&& outcome.command == Command::Skip(decoded(value)->Err_0)
        }),
{
}

/// No step touches what another peripheral has in the store: whether a
/// peripheral other than the session's own is listed as connected does not
/// change.
pub proof fn lemma_step_leaves_other_peripherals(
    id: Seq<char>,
    state: SessionState,
    event: EventView,
    store: StateView,
    other: Seq<char>,
)
    requires
        other != id,
    ensures
        step(id, state, event, store).store.connected_devices.contains(other)
            <==> store.connected_devices.contains(other),
{
    crate::state::lemma_connected_set(store, id, other);
    match event {
        EventView::TransportFailed(message) => {
            crate::state::lemma_connected_set(store.failed(transport_text(message)), id, other);
        },
        EventView::ServicesResolved(services) => {
            crate::state::lemma_connected_set(
                store.failed(BluetoothError::ServiceNotFound.text()),
                id,
                other,
            );
            crate::state::lemma_connected_set(
                store.failed(BluetoothError::CharacteristicNotFound.text()),
                id,
                other,
            );
        },
        _ => {},
    }
}

/// Every step keeps a well-formed store well-formed.
pub proof fn lemma_step_keeps_store_well_formed(
    id: Seq<char>,
    state: SessionState,
    event: EventView,
    store: StateView,
)
    requires
        store.wf(),
    ensures
        step(id, state, event, store).store.wf(),
{
    let outcome = step(id, state, event, store);
    match event {
        EventView::TransportFailed(message) => {
            crate::state::lemma_operations_keep_well_formed(store, 0, id, transport_text(message));
            crate::state::lemma_operations_keep_well_formed(
                store.failed(transport_text(message)),
                0,
                id,
                message,
            );
        },
        EventView::ServicesResolved(services) => {
            let missing = BluetoothError::ServiceNotFound.text();
            let violated = BluetoothError::CharacteristicNotFound.text();
            crate::state::lemma_operations_keep_well_formed(store, 0, id, missing);
            crate::state::lemma_operations_keep_well_formed(store, 0, id, violated);
            crate::state::lemma_operations_keep_well_formed(store.failed(missing), 0, id, missing);
            crate::state::lemma_operations_keep_well_formed(
                store.failed(violated),
                0,
                id,
                violated,
            );
        },
        EventView::Notification { uuid, value } => {
            if decoded(value) is Ok {
                crate::state::lemma_operations_keep_well_formed(
                    store,
                    decoded(value)->Ok_0.heart_rate,
                    id,
                    id,
                );
            }
        },
        _ => {
            crate::state::lemma_operations_keep_well_formed(store, 0, id, id);
        },
    }
}

} // verus!
