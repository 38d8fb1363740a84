//! The session manager: the one adapter in use and the sessions of the
//! peripherals that are connected or connecting.
//!
//! The manager owns no protocol logic. It hands each event to the session of
//! the peripheral that the event is about, opens a session when the adapter
//! first reports a peripheral as connected, and drops a session once it is
//! over. It never holds two sessions for one peripheral.

use vstd::prelude::*;
use vstd::string::*;
use crate::bluetoothctl::{select_adapter, BluetoothError};
use crate::session::{is_over, step, Command, EventView, Session, SessionEvent, SessionState};
use crate::state::{State, StateView};

verus! {

/// The sessions by the identifier of their peripheral.
pub type Sessions = Map<Seq<char>, SessionState>;

/// What routing an event leaves behind.
pub struct Routing {
    pub sessions: Sessions,
    pub store: StateView,
    pub command: Command,
}

/// The state in which the session of `id` meets `event`: the state of the
/// session that there is, or `Discovered` for the session that the report of
/// a connection opens. `None` where the event meets no session.
pub open spec fn meeting_state(sessions: Sessions, id: Seq<char>, event: EventView) -> Option<
    SessionState,
> {
    if sessions.contains_key(id) {
        Some(sessions[id])
    } else if event is DeviceConnected {
        Some(SessionState::Discovered)
    } else {
        None
    }
}

/// What routing `event` to the session of `id` makes of the sessions and of
/// the store. The session takes its step; where that ends it, it is
/// dropped. An event that meets no session changes nothing.
pub open spec fn routed(
    sessions: Sessions,
    id: Seq<char>,
    event: EventView,
    store: StateView,
) -> Routing {
    match meeting_state(sessions, id, event) {
        Some(state) => {
            let outcome = step(id, state, event, store);
            Routing {
                sessions: if is_over(outcome.state) {
                    sessions.remove(id)
                } else {
                    sessions.insert(id, outcome.state)
                },
                store: outcome.store,
                command: outcome.command,
            }
        },
        None => Routing { sessions, store, command: Command::Nothing },
    }
}

/// No session among `sessions` is over.
pub open spec fn all_live(sessions: Sessions) -> bool {
    forall|id: Seq<char>| sessions.contains_key(id) ==> !is_over(#[trigger] sessions[id])
}

/// `at` is where the session of `id` stands.
spec fn session_at(sessions: Seq<Session>, id: Seq<char>, at: int) -> bool {
    0 <= at < sessions.len() && sessions[at].id@ == id
}

/// No two sessions are for the same peripheral.
spec fn distinct(sessions: Seq<Session>) -> bool {
    forall|i: int, j: int|
        0 <= i < j < sessions.len() ==> #[trigger] sessions[i].id@ != #[trigger] sessions[j].id@
}

/// No session in the list is over.
spec fn live(sessions: Seq<Session>) -> bool {
    forall|i: int| 0 <= i < sessions.len() ==> !is_over(#[trigger] sessions[i].state)
}

/// The sessions of a list by the identifier of their peripheral.
spec fn by_id(sessions: Seq<Session>) -> Sessions {
    Map::new(
        |id: Seq<char>| exists|at: int| session_at(sessions, id, at),
        |id: Seq<char>| sessions[choose|at: int| session_at(sessions, id, at)].state,
    )
}

/// In a list without two sessions for one peripheral, a session is found
/// under its identifier.
proof fn lemma_by_id_at(sessions: Seq<Session>, at: int)
    requires
        distinct(sessions),
        0 <= at < sessions.len(),
    ensures
        by_id(sessions).contains_key(sessions[at].id@),
        by_id(sessions)[sessions[at].id@] == sessions[at].state,
{
    let id = sessions[at].id@;
    assert(session_at(sessions, id, at));
    let k = choose|k: int| session_at(sessions, id, k);
    if k < at {
        assert(sessions[k].id@ != sessions[at].id@);
    }
    if at < k {
        assert(sessions[at].id@ != sessions[k].id@);
    }
}

/// Taking the session at `at` out of the list takes its identifier out of
/// the sessions and leaves the others.
proof fn lemma_by_id_remove(sessions: Seq<Session>, at: int)
    requires
        distinct(sessions),
        0 <= at < sessions.len(),
    ensures
        distinct(sessions.remove(at)),
        by_id(sessions.remove(at)) == by_id(sessions).remove(sessions[at].id@),
        forall|k: int|
            0 <= k < sessions.remove(at).len() ==> #[trigger] sessions.remove(at)[k].id@
                != sessions[at].id@,
{
    let rest = sessions.remove(at);
    let id = sessions[at].id@;
    assert forall|i: int, j: int| 0 <= i < j < rest.len() implies #[trigger] rest[i].id@
        != #[trigger] rest[j].id@ by {
        let a = if i < at {
            i
        } else {
            i + 1
        };
        let b = if j < at {
            j
        } else {
            j + 1
        };
        assert(rest[i] == sessions[a]);
        assert(rest[j] == sessions[b]);
        assert(sessions[a].id@ != sessions[b].id@);
    }
    assert forall|k: int| 0 <= k < rest.len() implies #[trigger] rest[k].id@ != id by {
        let a = if k < at {
            k
        } else {
            k + 1
        };
        assert(rest[k] == sessions[a]);
        if a < at {
            assert(sessions[a].id@ != sessions[at].id@);
        } else {
            assert(sessions[at].id@ != sessions[a].id@);
        }
    }
    assert forall|key: Seq<char>|
        by_id(rest).contains_key(key) <==> by_id(sessions).remove(id).contains_key(key) by {
        if by_id(rest).contains_key(key) {
            let k = choose|k: int| session_at(rest, key, k);
            let a = if k < at {
                k
            } else {
                k + 1
            };
            assert(rest[k] == sessions[a]);
            assert(session_at(sessions, key, a));
        }
        if by_id(sessions).remove(id).contains_key(key) {
            let a = choose|a: int| session_at(sessions, key, a);
            let k = if a < at {
                a
            } else {
                a - 1
            };
            assert(rest[k] == sessions[a]);
            assert(session_at(rest, key, k));
        }
    }
    assert forall|key: Seq<char>| by_id(rest).contains_key(key) implies by_id(rest)[key] == by_id(
        sessions,
    ).remove(id)[key] by {
        let k = choose|k: int| session_at(rest, key, k);
        let a = if k < at {
            k
        } else {
            k + 1
        };
        assert(rest[k] == sessions[a]);
        lemma_by_id_at(rest, k);
        lemma_by_id_at(sessions, a);
    }
    assert(by_id(rest) =~= by_id(sessions).remove(id));
}

/// Adding a session for a peripheral that has none adds it under its
/// identifier and leaves the others.
proof fn lemma_by_id_push(sessions: Seq<Session>, session: Session)
    requires
        distinct(sessions),
        forall|k: int| 0 <= k < sessions.len() ==> #[trigger] sessions[k].id@ != session.id@,
    ensures
        distinct(sessions.push(session)),
        by_id(sessions.push(session)) == by_id(sessions).insert(session.id@, session.state),
{
    let more = sessions.push(session);
    let id = session.id@;
    assert forall|i: int, j: int| 0 <= i < j < more.len() implies #[trigger] more[i].id@
        != #[trigger] more[j].id@ by {
        if j < sessions.len() {
            assert(sessions[i].id@ != sessions[j].id@);
        } else {
            assert(sessions[i].id@ != id);
        }
    }
    assert forall|key: Seq<char>|
        by_id(more).contains_key(key) <==> by_id(sessions).insert(
            id,
            session.state,
        ).contains_key(key) by {
        if by_id(more).contains_key(key) {
            let k = choose|k: int| session_at(more, key, k);
            if k < sessions.len() {
                assert(session_at(sessions, key, k));
            }
        }
        if by_id(sessions).insert(id, session.state).contains_key(key) {
            if key == id {
                assert(session_at(more, key, sessions.len() as int));
            } else {
                let k = choose|k: int| session_at(sessions, key, k);
                assert(session_at(more, key, k));
            }
        }
    }
    assert forall|key: Seq<char>| by_id(more).contains_key(key) implies by_id(more)[key] == by_id(
        sessions,
    ).insert(id, session.state)[key] by {
        let k = choose|k: int| session_at(more, key, k);
        lemma_by_id_at(more, k);
        if k < sessions.len() {
            assert(more[k] == sessions[k]);
            lemma_by_id_at(sessions, k);
        }
    }
    assert(by_id(more) =~= by_id(sessions).insert(id, session.state));
}

/// In a list of live sessions every session found by identifier is live.
proof fn lemma_by_id_live(sessions: Seq<Session>)
    requires
        distinct(sessions),
        live(sessions),
    ensures
        all_live(by_id(sessions)),
{
    assert forall|id: Seq<char>| by_id(sessions).contains_key(id) implies !is_over(
        #[trigger] by_id(sessions)[id],
    ) by {
        let k = choose|k: int| session_at(sessions, id, k);
        lemma_by_id_at(sessions, k);
    }
}

/// The adapter in use and the sessions that are under way.
pub struct SessionManager {
    adapter: usize,
    sessions: Vec<Session>,
}

impl SessionManager {
    /// No two sessions are for the same peripheral, and none is over.
    #[verifier::type_invariant]
    spec fn well_formed(&self) -> bool {
        distinct(self.sessions@) && live(self.sessions@)
    }

    /// The sessions under way, by the identifier of their peripheral.
    pub closed spec fn sessions(&self) -> Sessions {
        by_id(self.sessions@)
    }

    /// The index of the adapter in use.
    pub closed spec fn adapter_index(&self) -> usize {
        self.adapter
    }

    /// The number of sessions under way.
    pub closed spec fn count(&self) -> nat {
        self.sessions@.len()
    }

    /// A manager that uses the adapter with the index `adapter`, picked by
    /// the caller, and has no session yet.
    pub fn new(adapter: usize) -> (manager: SessionManager)
        ensures
            manager.sessions() == Sessions::empty(),
            manager.adapter_index() == adapter,
            manager.count() == 0,
    {
        let manager = SessionManager { adapter, sessions: Vec::new() };
        assert(manager.sessions() =~= Sessions::empty());
        manager
    }

    /// A manager for a machine with `adapter_count` adapters: it uses the
    /// only adapter where there is exactly one. With none there is nothing to
    /// use, and among several it does not pick.
    pub fn init(adapter_count: usize) -> (result: Result<SessionManager, BluetoothError>)
        ensures
            adapter_count == 0 ==> result is Err && result->Err_0
                == BluetoothError::NoAdaptersFound,
            adapter_count == 1 ==> result is Ok && result->Ok_0.adapter_index() == 0
                && result->Ok_0.sessions() == Sessions::empty(),
            adapter_count > 1 ==> result is Err && result->Err_0
                == BluetoothError::MultipleAdaptersRequireSelection,
    {
        match select_adapter(adapter_count) {
            Ok(adapter) => Ok(Self::new(adapter)),
            Err(error) => Err(error),
        }
    }

    /// The index of the adapter in use.
    pub fn adapter(&self) -> (adapter: usize)
        ensures
            adapter == self.adapter_index(),
    {
        self.adapter
    }

    /// The number of sessions under way.
    pub fn session_count(&self) -> (count: usize)
        ensures
            count == self.count(),
    {
        self.sessions.len()
    }

    /// Where the session of `id` stands in the list, if there is one.
    fn find(&self, id: &String) -> (found: Option<usize>)
        ensures
            match found {
                Some(at) => session_at(self.sessions@, id@, at as int),
                None => forall|k: int|
                    0 <= k < self.sessions@.len() ==> #[trigger] self.sessions@[k].id@ != id@,
            },
    {
        let mut i: usize = 0;
        while i < self.sessions.len()
            invariant
                0 <= i <= self.sessions.len(),
                forall|k: int| 0 <= k < i ==> #[trigger] self.sessions@[k].id@ != id@,
            decreases self.sessions.len() - i,
        {
            if self.sessions[i].id == *id {
                return Some(i);
            }
            i = i + 1;
        }
        None
    }

    /// The state of the session of `id`, or `None` where there is none.
    pub fn state_of(&self, id: &String) -> (state: Option<SessionState>)
        ensures
            state == if self.sessions().contains_key(id@) {
                Some(self.sessions()[id@])
            } else {
                None
            },
            state matches Some(s) ==> !is_over(s),
    {
        proof {
            use_type_invariant(self);
        }
        match self.find(id) {
            Some(at) => {
                proof {
                    lemma_by_id_at(self.sessions@, at as int);
                }
                Some(self.sessions[at].state)
            },
            None => {
                proof {
                    if self.sessions().contains_key(id@) {
                        let k = choose|k: int| session_at(self.sessions@, id@, k);
                        assert(self.sessions@[k].id@ == id@);
                    }
                }
                None
            },
        }
    }

    /// Hands `event` to the session of the peripheral `id`. The first report
    /// of a connection opens the session; a session that the event ends is
    /// dropped; an event for a peripheral without a session, other than the
    /// report of a connection, is ignored.
    pub fn route(&mut self, id: String, event: SessionEvent, store: &mut State) -> (command:
        Command)
        ensures
            ({
                let routing = routed(old(self).sessions(), id@, event@, old(store)@);
                &&& final(self).sessions() == routing.sessions
                &&& final(store)@ == routing.store
                &&& command == routing.command
            }),
            final(self).adapter_index() == old(self).adapter_index(),
            all_live(final(self).sessions()),
    {
        proof {
            use_type_invariant(&*self);
        }
        let ghost before = self.sessions@;
        let found = self.find(&id);
        let mut sessions: Vec<Session> = Vec::new();
        core::mem::swap(&mut self.sessions, &mut sessions);
        let command = match found {
            Some(at) => {
                proof {
                    lemma_by_id_at(before, at as int);
                    lemma_by_id_remove(before, at as int);
                }
                let mut session = sessions.remove(at);
                let command = session.handle(event, store);
                if !session.is_over() {
                    proof {
                        lemma_by_id_push(sessions@, session);
                        assert(by_id(before).remove(id@).insert(id@, session.state) =~= by_id(
                            before,
                        ).insert(id@, session.state));
                    }
                    sessions.push(session);
                }
                command
            },
            None => {
                proof {
                    if by_id(before).contains_key(id@) {
                        let k = choose|k: int| session_at(before, id@, k);
                        assert(before[k].id@ == id@);
                    }
                }
                match event {
                    SessionEvent::DeviceConnected => {
                        let mut session = Session::new(id);
                        let command = session.handle(SessionEvent::DeviceConnected, store);
                        proof {
                            lemma_by_id_push(before, session);
                        }
                        sessions.push(session);
                        command
                    },
                    _ => Command::Nothing,
                }
            },
        };
        proof {
            lemma_by_id_live(sessions@);
        }
        core::mem::swap(&mut self.sessions, &mut sessions);
        command
    }
}

/// Routing keeps every session live: a session that is over is not kept.
pub proof fn lemma_routed_sessions_are_live(
    sessions: Sessions,
    id: Seq<char>,
    event: EventView,
    store: StateView,
)
    requires
        all_live(sessions),
    ensures
        all_live(routed(sessions, id, event, store).sessions),
{
    let after = routed(sessions, id, event, store).sessions;
    assert forall|key: Seq<char>| after.contains_key(key) implies !is_over(
        #[trigger] after[key],
    ) by {
        if key != id {
            assert(sessions.contains_key(key));
            assert(!is_over(sessions[key]));
        }
    }
}

/// Routing an event for one peripheral leaves the sessions of all others as
/// they were.
pub proof fn lemma_routed_leaves_other_sessions(
    sessions: Sessions,
    id: Seq<char>,
    event: EventView,
    store: StateView,
    other: Seq<char>,
)
    requires
        other != id,
    ensures
        routed(sessions, id, event, store).sessions.contains_key(other) == sessions.contains_key(
            other,
        ),
        sessions.contains_key(other) ==> routed(sessions, id, event, store).sessions[other]
            == sessions[other],
{
}

/// The report of a connection for a peripheral without a session opens one,
/// which goes on to connect.
pub proof fn lemma_connection_opens_a_session(sessions: Sessions, id: Seq<char>, store: StateView)
    requires
        !sessions.contains_key(id),
    ensures
        ({
            let routing = routed(sessions, id, EventView::DeviceConnected, store);
            &&& routing.sessions == sessions.insert(id, SessionState::Connecting)
            &&& routing.command == Command::Connect
            &&& routing.store == store
        }),
{
}

/// The report of a disconnection ends the session of the peripheral: it is
/// dropped, the peripheral is no longer listed as connected, and whatever
/// arrives for the peripheral afterwards, short of the report of a new
/// connection, changes neither the store nor the sessions.
pub proof fn lemma_disconnection_drops_the_session(
    sessions: Sessions,
    id: Seq<char>,
    store: StateView,
    later: EventView,
)
    requires
        all_live(sessions),
        sessions.contains_key(id),
        !(later is DeviceConnected),
    ensures
        ({
            let routing = routed(sessions, id, EventView::DeviceDisconnected, store);
            let after = routed(routing.sessions, id, later, routing.store);
            &&& routing.sessions == sessions.remove(id)
            &&& !routing.store.connected_devices.contains(id)
            &&& routing.store.heart_rate == store.heart_rate
            &&& routing.store.heart_rate_history == store.heart_rate_history
            &&& sessions[id] == SessionState::Active ==> routing.command == Command::StopListening
            &&& after.sessions == routing.sessions
            &&& after.store == routing.store
            &&& after.command == Command::Nothing
        }),
{
    assert(!is_over(sessions[id]));
    crate::state::lemma_without(store.connected_devices, id);
}

} // verus!
