//! The telemetry store: the latest heart rate, a bounded history of readings,
//! the peripherals that are connected and a bounded log of errors.
//!
//! Sessions write to the store and a display reads snapshots of it. Whoever
//! shares one store between tasks guards it with a lock; every operation here
//! leaves the store whole, so a snapshot taken under that lock is never torn.

use vstd::prelude::*;
use vstd::string::*;
use crate::measurement::HeartRateMeasurement;

verus! {

/// The number of readings that the history keeps. Older ones are dropped.
pub const HISTORY_CAPACITY: usize = 4096;

/// The number of messages that the error log keeps. Older ones are dropped.
pub const ERROR_LOG_CAPACITY: usize = 64;

/// The telemetry store.
#[derive(Clone, Debug)]
pub struct State {
    /// The identifiers of the peripherals that are connected, each once.
    pub connected_devices: Vec<String>,
    /// The latest heart rate; 0 while no reading has arrived.
    pub heart_rate: u16,
    /// The latest readings, oldest first.
    pub heart_rate_history: Vec<u16>,
    /// The latest error messages, oldest first.
    pub errors: Vec<String>,
}

/// A copy of what the store held at one moment.
#[derive(Debug, Clone, PartialEq, Eq)]
pub struct Snapshot {
    pub heart_rate: u16,
    pub heart_rate_history: Vec<u16>,
    pub connected_devices: Vec<String>,
    pub last_error: Option<String>,
}

/// The texts that a sequence of strings holds.
pub open spec fn texts(strings: Seq<String>) -> Seq<Seq<char>> {
    Seq::new(strings.len(), |i: int| strings[i]@)
}

/// The last `n` items of a sequence, or all of it where it has no more.
pub open spec fn keep_last<T>(items: Seq<T>, n: nat) -> Seq<T> {
    if items.len() <= n {
        items
    } else {
        items.subrange(items.len() - n, items.len() as int)
    }
}

/// A sequence of texts without every occurrence of `id`.
pub open spec fn without(ids: Seq<Seq<char>>, id: Seq<char>) -> Seq<Seq<char>>
    decreases ids.len(),
{
    if ids.len() == 0 {
        Seq::empty()
    } else if ids.last() == id {
        without(ids.drop_last(), id)
    } else {
        without(ids.drop_last(), id).push(ids.last())
    }
}

/// The store as plain values.
pub struct StateView {
    pub connected_devices: Seq<Seq<char>>,
    pub heart_rate: u16,
    pub heart_rate_history: Seq<u16>,
    pub errors: Seq<Seq<char>>,
}

/// A snapshot as plain values.
pub struct SnapshotView {
    pub heart_rate: u16,
    pub heart_rate_history: Seq<u16>,
    pub connected_devices: Seq<Seq<char>>,
    pub last_error: Option<Seq<char>>,
}

impl StateView {
    /// The store before anything was written to it.
    pub open spec fn empty() -> StateView {
        StateView {
            connected_devices: Seq::empty(),
            heart_rate: 0,
            heart_rate_history: Seq::empty(),
            errors: Seq::empty(),
        }
    }

    /// No identifier is listed twice, history and error log are within
    /// their capacities, and the current heart rate is the newest reading of
    /// the history, or 0 while there is none.
    pub open spec fn wf(self) -> bool {
        &&& self.connected_devices.no_duplicates()
        &&& self.heart_rate_history.len() <= HISTORY_CAPACITY
        &&& self.errors.len() <= ERROR_LOG_CAPACITY
        &&& self.heart_rate == if self.heart_rate_history.len() == 0 {
            0u16
        } else {
            self.heart_rate_history.last()
        }
    }

    /// The store after a reading: it is the current heart rate and the newest
    /// entry of the history.
    pub open spec fn published(self, heart_rate: u16) -> StateView {
        StateView {
            heart_rate,
            heart_rate_history: keep_last(
                self.heart_rate_history.push(heart_rate),
                HISTORY_CAPACITY as nat,
            ),
            ..self
        }
    }

    /// The store after `id` was marked connected: listed last, unless it was
    /// listed already.
    pub open spec fn connected(self, id: Seq<char>) -> StateView {
        if self.connected_devices.contains(id) {
            self
        } else {
            StateView { connected_devices: self.connected_devices.push(id), ..self }
        }
    }

    /// The store after `id` was marked disconnected.
    pub open spec fn disconnected(self, id: Seq<char>) -> StateView {
        StateView { connected_devices: without(self.connected_devices, id), ..self }
    }

    /// The store after an error was recorded.
    pub open spec fn failed(self, message: Seq<char>) -> StateView {
        StateView {
            errors: keep_last(self.errors.push(message), ERROR_LOG_CAPACITY as nat),
            ..self
        }
    }

    /// The newest error message, if any was recorded.
    pub open spec fn last_error(self) -> Option<Seq<char>> {
        if self.errors.len() == 0 {
            None
        } else {
            Some(self.errors.last())
        }
    }

    /// What a snapshot of the store holds.
    pub open spec fn snapshot(self) -> SnapshotView {
        SnapshotView {
            heart_rate: self.heart_rate,
            heart_rate_history: self.heart_rate_history,
            connected_devices: self.connected_devices,
            last_error: self.last_error(),
        }
    }
}

impl View for State {
    type V = StateView;

    open spec fn view(&self) -> StateView {
        StateView {
            connected_devices: texts(self.connected_devices@),
            heart_rate: self.heart_rate,
            heart_rate_history: self.heart_rate_history@,
            errors: texts(self.errors@),
        }
    }
}

impl View for Snapshot {
    type V = SnapshotView;

    open spec fn view(&self) -> SnapshotView {
        SnapshotView {
            heart_rate: self.heart_rate,
            heart_rate_history: self.heart_rate_history@,
            connected_devices: texts(self.connected_devices@),
            last_error: match self.last_error {
                Some(message) => Some(message@),
                None => None,
            },
        }
    }
}

/// A copy of a list of strings.
pub fn copy_texts(strings: &Vec<String>) -> (copy: Vec<String>)
    ensures
        texts(copy@) == texts(strings@),
{
    let mut copy: Vec<String> = Vec::new();
    let mut i: usize = 0;
    while i < strings.len()
        invariant
            0 <= i <= strings.len(),
            copy@.len() == i,
            forall|j: int| 0 <= j < i ==> copy@[j]@ == strings@[j]@,
        decreases strings.len() - i,
    {
        copy.push(strings[i].clone());
        i = i + 1;
    }
    assert(texts(copy@) =~= texts(strings@));
    copy
}

/// A copy of a list of readings.
pub fn copy_readings(readings: &Vec<u16>) -> (copy: Vec<u16>)
    ensures
        copy@ == readings@,
{
    let mut copy: Vec<u16> = Vec::new();
    let mut i: usize = 0;
    while i < readings.len()
        invariant
            0 <= i <= readings.len(),
            copy@ == readings@.subrange(0, i as int),
        decreases readings.len() - i,
    {
        copy.push(readings[i]);
        assert(copy@ =~= readings@.subrange(0, i as int + 1));
        i = i + 1;
    }
    assert(readings@.subrange(0, readings.len() as int) =~= readings@);
    copy
}

/// Whether `id` is among `ids`.
pub fn lists(ids: &Vec<String>, id: &String) -> (found: bool)
    ensures
        found == texts(ids@).contains(id@),
{
    let mut i: usize = 0;
    while i < ids.len()
        invariant
            0 <= i <= ids.len(),
            forall|j: int| 0 <= j < i ==> texts(ids@)[j] != id@,
        decreases ids.len() - i,
    {
        if ids[i] == *id {
            assert(texts(ids@)[i as int] == id@);
            return true;
        }
        i = i + 1;
    }
    false
}

/// Drops the oldest entries of `items` until at most `capacity` are left.
fn trim_readings(items: &mut Vec<u16>, capacity: usize)
    ensures
        final(items)@ == keep_last(old(items)@, capacity as nat),
{
    while items.len() > capacity
        invariant
            items@.len() <= old(items)@.len(),
            items@ == old(items)@.subrange(
                old(items)@.len() - items@.len(),
                old(items)@.len() as int,
            ),
            items@.len() >= capacity || items@.len() == old(items)@.len(),
        decreases items.len(),
    {
        items.remove(0);
        assert(items@ =~= old(items)@.subrange(
            old(items)@.len() - items@.len(),
            old(items)@.len() as int,
        ));
    }
    assert(items@ =~= keep_last(old(items)@, capacity as nat));
}

/// Drops the oldest entries of `items` until at most `capacity` are left.
fn trim_texts(items: &mut Vec<String>, capacity: usize)
    ensures
        texts(final(items)@) == keep_last(texts(old(items)@), capacity as nat),
{
    while items.len() > capacity
        invariant
            items@.len() <= old(items)@.len(),
            items@ == old(items)@.subrange(
                old(items)@.len() - items@.len(),
                old(items)@.len() as int,
            ),
            items@.len() >= capacity || items@.len() == old(items)@.len(),
        decreases items.len(),
    {
        items.remove(0);
        assert(items@ =~= old(items)@.subrange(
            old(items)@.len() - items@.len(),
            old(items)@.len() as int,
        ));
    }
    assert(texts(items@) =~= keep_last(texts(old(items)@), capacity as nat));
}

impl State {
    /// An empty store: no reading, nothing connected, no error.
    pub fn new() -> (state: State)
        ensures
            state@ == StateView::empty(),
            state@.wf(),
    {
        let state = State {
            connected_devices: Vec::new(),
            heart_rate: 0,
            heart_rate_history: Vec::new(),
            errors: Vec::new(),
        };
        assert(state@.connected_devices =~= Seq::empty());
        assert(state@.errors =~= Seq::empty());
        state
    }

    /// Takes a measurement in: its heart rate becomes the current one and the
    /// newest entry of the history, whichever session it comes from.
    pub fn publish(&mut self, measurement: &HeartRateMeasurement)
        ensures
            final(self)@ == old(self)@.published(measurement.heart_rate),
            old(self)@.wf() ==> final(self)@.wf(),
    {
        self.heart_rate = measurement.heart_rate;
        self.heart_rate_history.push(measurement.heart_rate);
        trim_readings(&mut self.heart_rate_history, HISTORY_CAPACITY);
    }

    /// A copy of the store as it is now.
    pub fn snapshot(&self) -> (copy: Snapshot)
        ensures
            copy@ == self@.snapshot(),
    {
        let last_error: Option<String> = if self.errors.len() == 0 {
            None
        } else {
            Some(self.errors[self.errors.len() - 1].clone())
        };
        Snapshot {
            heart_rate: self.heart_rate,
            heart_rate_history: copy_readings(&self.heart_rate_history),
            connected_devices: copy_texts(&self.connected_devices),
            last_error,
        }
    }

    /// Lists `id` among the connected peripherals, unless it is listed.
    pub fn mark_connected(&mut self, id: String)
        ensures
            final(self)@ == old(self)@.connected(id@),
            old(self)@.wf() ==> final(self)@.wf(),
    {
        if !lists(&self.connected_devices, &id) {
            self.connected_devices.push(id);
            assert(texts(self.connected_devices@) =~= texts(old(self).connected_devices@).push(
                id@,
            ));
        }
    }

    /// Takes `id` off the list of connected peripherals.
    pub fn mark_disconnected(&mut self, id: &String)
        ensures
            final(self)@ == old(self)@.disconnected(id@),
            old(self)@.wf() ==> final(self)@.wf(),
    {
        let mut kept: Vec<String> = Vec::new();
        let mut i: usize = 0;
        while i < self.connected_devices.len()
            invariant
                *self == *old(self),
                0 <= i <= self.connected_devices.len(),
                texts(kept@) == without(
                    texts(self.connected_devices@).subrange(0, i as int),
                    id@,
                ),
            decreases self.connected_devices.len() - i,
        {
            let ghost seen = texts(self.connected_devices@).subrange(0, i as int);
            let ghost next = texts(self.connected_devices@).subrange(0, i as int + 1);
            assert(next.drop_last() =~= seen);
            assert(next.last() == self.connected_devices@[i as int]@);
            if self.connected_devices[i] != *id {
                let ghost before = texts(kept@);
                kept.push(self.connected_devices[i].clone());
                assert(texts(kept@) =~= before.push(self.connected_devices@[i as int]@));
            }
            i = i + 1;
        }
        proof {
            let all = texts(self.connected_devices@);
            assert(all.subrange(0, all.len() as int) =~= all);
            lemma_without(all, id@);
        }
        self.connected_devices = kept;
    }

    /// Adds a message to the error log.
    pub fn record_error(&mut self, message: String)
        ensures
            final(self)@ == old(self)@.failed(message@),
            final(self)@.last_error() == Some(message@),
            old(self)@.wf() ==> final(self)@.wf(),
    {
        self.errors.push(message);
        assert(texts(self.errors@) =~= texts(old(self).errors@).push(message@));
        trim_texts(&mut self.errors, ERROR_LOG_CAPACITY);
    }
}

/// Taking an identifier out of a list leaves the others in their order,
/// leaves none of that identifier, and adds no duplicate.
pub proof fn lemma_without(ids: Seq<Seq<char>>, id: Seq<char>)
    ensures
        !without(ids, id).contains(id),
        forall|other: Seq<char>|
            other != id ==> (#[trigger] without(ids, id).contains(other) <==> ids.contains(other)),
        without(ids, id).len() <= ids.len(),
        ids.no_duplicates() ==> without(ids, id).no_duplicates(),
        !ids.contains(id) ==> without(ids, id) == ids,
    decreases ids.len(),
{
    let result = without(ids, id);
    if ids.len() > 0 {
        let front = ids.drop_last();
        let rest = without(front, id);
        lemma_without(front, id);
        assert forall|other: Seq<char>| other != id implies (#[trigger] result.contains(other)
            <==> ids.contains(other)) by {
            if result.contains(other) {
                let k = choose|k: int| 0 <= k < result.len() && result[k] == other;
                if k < rest.len() {
                    assert(rest[k] == other);
                    assert(rest.contains(other));
                    let j = choose|j: int| 0 <= j < front.len() && front[j] == other;
                    assert(ids[j] == other);
                } else {
                    assert(ids[ids.len() - 1] == other);
                }
            }
            if ids.contains(other) {
                let j = choose|j: int| 0 <= j < ids.len() && ids[j] == other;
                if j < front.len() {
                    assert(front[j] == other);
                    assert(front.contains(other));
                    assert(rest.contains(other));
                    let k = choose|k: int| 0 <= k < rest.len() && rest[k] == other;
                    assert(result[k] == other);
                } else {
                    assert(result[rest.len() as int] == other);
                }
            }
        }
        if result.contains(id) {
            let k = choose|k: int| 0 <= k < result.len() && result[k] == id;
            if k < rest.len() {
                assert(rest[k] == id);
            }
        }
        if ids.no_duplicates() {
            assert(front.no_duplicates());
            if ids.last() != id {
                if rest.contains(ids.last()) {
                    let j = choose|j: int| 0 <= j < front.len() && front[j] == ids.last();
                    assert(ids[j] == ids[ids.len() - 1]);
                }
            }
        }
        if !ids.contains(id) {
            assert(ids[ids.len() - 1] != id);
            if front.contains(id) {
                let j = choose|j: int| 0 <= j < front.len() && front[j] == id;
                assert(ids[j] == id);
            }
            assert(rest == front);
            assert(result =~= ids);
        }
    }
}

/// Every operation keeps a well-formed store well-formed.
pub proof fn lemma_operations_keep_well_formed(
    store: StateView,
    heart_rate: u16,
    id: Seq<char>,
    message: Seq<char>,
)
    requires
        store.wf(),
    ensures
        store.published(heart_rate).wf(),
        store.connected(id).wf(),
        store.disconnected(id).wf(),
        store.failed(message).wf(),
{
    lemma_without(store.connected_devices, id);
}

/// The last writer wins: after two readings, from whichever sessions, the
/// current heart rate is the second, a snapshot shows it, and the history
/// ends with the first and then the second. Nothing else in the store
/// changes.
pub proof fn lemma_last_writer_wins(store: StateView, first: u16, second: u16)
    ensures
        ({
            let after = store.published(first).published(second);
            let history = after.heart_rate_history;
            &&& after.heart_rate == second
            &&& after.snapshot().heart_rate == second
            &&& history.len() >= 2
            &&& history[history.len() - 2] == first
            &&& history[history.len() - 1] == second
            &&& after.connected_devices == store.connected_devices
            &&& after.errors == store.errors
        }),
{
}

/// While the history has room, a reading is appended to it and nothing is
/// dropped.
pub proof fn lemma_history_is_appended_to(store: StateView, heart_rate: u16)
    requires
        store.heart_rate_history.len() < HISTORY_CAPACITY,
    ensures
        store.published(heart_rate).heart_rate_history == store.heart_rate_history.push(
            heart_rate,
        ),
{
}

/// A full history drops its oldest reading for a new one.
pub proof fn lemma_full_history_drops_oldest(store: StateView, heart_rate: u16)
    requires
        store.heart_rate_history.len() == HISTORY_CAPACITY,
    ensures
        store.published(heart_rate).heart_rate_history == store.heart_rate_history.drop_first().push(
            heart_rate,
        ),
{
    assert(store.published(heart_rate).heart_rate_history
        =~= store.heart_rate_history.drop_first().push(heart_rate));
}

/// Marking a peripheral connected lists it, marking it disconnected takes it
/// off the list, and neither touches another peripheral.
pub proof fn lemma_connected_set(store: StateView, id: Seq<char>, other: Seq<char>)
    requires
        other != id,
    ensures
        store.connected(id).connected_devices.contains(id),
        !store.disconnected(id).connected_devices.contains(id),
        store.connected(id).connected_devices.contains(other)
            <==> store.connected_devices.contains(other),
        store.disconnected(id).connected_devices.contains(other)
            <==> store.connected_devices.contains(other),
{
    lemma_without(store.connected_devices, id);
    let listed = store.connected_devices;
    if !listed.contains(id) {
        let after = listed.push(id);
        assert(after[listed.len() as int] == id);
        if listed.contains(other) {
            let k = choose|k: int| 0 <= k < listed.len() && listed[k] == other;
            assert(after[k] == other);
        }
        if after.contains(other) {
            let k = choose|k: int| 0 <= k < after.len() && after[k] == other;
            assert(listed[k] == other);
        }
    }
}

} // verus!
