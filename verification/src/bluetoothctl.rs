//! What the Bluetooth side decides without touching a radio: which adapter is
//! used, which failures there are, the identifiers of the Heart Rate service,
//! and what a scan reports once its window has closed.

use vstd::prelude::*;
use vstd::string::*;
use crate::device::{Device, DeviceView, MinorDeviceClass};
use crate::measurement::DecodeError;

verus! {

/// The Bluetooth Base UUID, into which a short identifier is filled.
pub const BLUETOOTH_BASE_UUID: u128 = 0x00000000_0000_1000_8000_00805f9b34fb;

/// The short identifier of the Heart Rate service.
pub const HEART_RATE_SERVICE_SHORT: u16 = 0x180D;

/// The short identifier of the Heart Rate Measurement characteristic.
pub const HEART_RATE_MEASUREMENT_SHORT: u16 = 0x2A37;

/// The full identifier of the Heart Rate service.
pub const HEART_RATE_SERVICE: u128 = 0x0000180d_0000_1000_8000_00805f9b34fb;

/// The full identifier of the Heart Rate Measurement characteristic.
pub const HEART_RATE_CHARACTERISTICS: u128 = 0x00002a37_0000_1000_8000_00805f9b34fb;

/// The name given to a peripheral that advertises none.
pub open spec fn unknown_name() -> Seq<char> {
    "unknown"@
}

/// The full 128-bit identifier of a 16-bit short one: the short identifier
/// stands in bits 111 to 96 of the Bluetooth Base UUID.
pub open spec fn short_uuid(short: u16) -> u128 {
    BLUETOOTH_BASE_UUID | ((short as u128) << 96)
}

/// The full identifier of a short one.
pub fn uuid_from_u16(short: u16) -> (uuid: u128)
    ensures
        uuid == short_uuid(short),
{
    BLUETOOTH_BASE_UUID | ((short as u128) << 96)
}

/// The two identifiers of the Heart Rate profile are those of their short
/// forms, and they differ.
pub proof fn lemma_heart_rate_uuids()
    ensures
        HEART_RATE_SERVICE == short_uuid(HEART_RATE_SERVICE_SHORT),
        HEART_RATE_CHARACTERISTICS == short_uuid(HEART_RATE_MEASUREMENT_SHORT),
        HEART_RATE_SERVICE != HEART_RATE_CHARACTERISTICS,
{
    assert(0x0000180d_0000_1000_8000_00805f9b34fbu128 == 0x00000000_0000_1000_8000_00805f9b34fbu128
        | ((0x180Du16 as u128) << 96)) by (bit_vector);
    assert(0x00002a37_0000_1000_8000_00805f9b34fbu128 == 0x00000000_0000_1000_8000_00805f9b34fbu128
        | ((0x2A37u16 as u128) << 96)) by (bit_vector);
}

/// Two short identifiers have the same full identifier only if they are the
/// same.
pub proof fn lemma_short_uuid_is_one_to_one(a: u16, b: u16)
    requires
        short_uuid(a) == short_uuid(b),
    ensures
        a == b,
{
    assert((0x00000000_0000_1000_8000_00805f9b34fbu128 | ((a as u128) << 96))
        == (0x00000000_0000_1000_8000_00805f9b34fbu128 | ((b as u128) << 96)) ==> a == b)
        by (bit_vector);
}

/// The message that the error log shows for a failure of the adapter or the
/// peripheral that describes itself as `message`.
pub open spec fn transport_text(message: Seq<char>) -> Seq<char> {
    "Unexpected error: "@ + message
}

/// What can go wrong between the adapter and a decoded reading.
#[derive(Debug, Clone, PartialEq, Eq)]
pub enum BluetoothError {
    /// The machine has no Bluetooth adapter.
    NoAdaptersFound,
    /// There are several adapters and none was chosen.
    MultipleAdaptersRequireSelection,
    /// The adapter knew of no peripheral when the scan window closed.
    NoPeripheralsFound,
    /// The peripheral does not offer the Heart Rate service.
    ServiceNotFound,
    /// The Heart Rate service lacks a measurement characteristic that
    /// notifies.
    CharacteristicNotFound,
    /// A notification payload of fewer than two bytes.
    PayloadTooShort,
    /// A notification payload that ends within a field.
    PayloadTruncated,
    /// A failure of the adapter or the peripheral, in its own words.
    TransportError(String),
}

impl BluetoothError {
    /// The failure that stands for a decoding error.
    pub open spec fn of_decode_error(error: DecodeError) -> BluetoothError {
        match error {
            DecodeError::PayloadTooShort => BluetoothError::PayloadTooShort,
            DecodeError::PayloadTruncated => BluetoothError::PayloadTruncated,
        }
    }

    /// The failure that stands for a decoding error.
    pub fn from_decode_error(error: DecodeError) -> (failure: BluetoothError)
        ensures
            failure == Self::of_decode_error(error),
    {
        match error {
            DecodeError::PayloadTooShort => BluetoothError::PayloadTooShort,
            DecodeError::PayloadTruncated => BluetoothError::PayloadTruncated,
        }
    }

    /// The message that the error log shows for a failure.
    pub open spec fn text(self) -> Seq<char> {
        match self {
            BluetoothError::NoAdaptersFound => "Adapter not found"@,
            BluetoothError::MultipleAdaptersRequireSelection => "Several adapters found, select one"@,
            BluetoothError::NoPeripheralsFound => "No peripherals found"@,
            BluetoothError::ServiceNotFound => "Heart Rate service not found"@,
            BluetoothError::CharacteristicNotFound => "Heart Rate characteristic not found"@,
            BluetoothError::PayloadTooShort => "Payload too short"@,
            BluetoothError::PayloadTruncated => "Payload truncated"@,
            BluetoothError::TransportError(message) => transport_text(message@),
        }
    }

    /// The message that the error log shows for this failure.
    pub fn message(&self) -> (message: String)
        ensures
            message@ == self.text(),
    {
        match self {
            BluetoothError::NoAdaptersFound => String::from_str("Adapter not found"),
            BluetoothError::MultipleAdaptersRequireSelection => String::from_str(
                "Several adapters found, select one",
            ),
            BluetoothError::NoPeripheralsFound => String::from_str("No peripherals found"),
            BluetoothError::ServiceNotFound => String::from_str("Heart Rate service not found"),
            BluetoothError::CharacteristicNotFound => String::from_str(
                "Heart Rate characteristic not found",
            ),
            BluetoothError::PayloadTooShort => String::from_str("Payload too short"),
            BluetoothError::PayloadTruncated => String::from_str("Payload truncated"),
            BluetoothError::TransportError(message) => String::from_str(
                "Unexpected error: ",
            ).concat(message.as_str()),
        }
    }
}

/// The adapter to use among `adapter_count` adapters: the only one where
/// there is exactly one. Among several none is picked: the choice is the
/// caller's.
pub fn select_adapter(adapter_count: usize) -> (choice: Result<usize, BluetoothError>)
    ensures
        adapter_count == 0 ==> choice == Err::<usize, BluetoothError>(
            BluetoothError::NoAdaptersFound,
        ),
        adapter_count == 1 ==> choice == Ok::<usize, BluetoothError>(0),
        adapter_count > 1 ==> choice == Err::<usize, BluetoothError>(
            BluetoothError::MultipleAdaptersRequireSelection,
        ),
{
    if adapter_count == 0 {
        Err(BluetoothError::NoAdaptersFound)
    } else if adapter_count == 1 {
        Ok(0)
    } else {
        Err(BluetoothError::MultipleAdaptersRequireSelection)
    }
}

/// What a peripheral advertises of itself.
#[derive(Debug, Clone)]
pub struct Advertisement {
    pub local_name: Option<String>,
    pub address: String,
}

/// What the adapter tells of one peripheral once the scan window has closed.
#[derive(Debug, Clone)]
pub struct Sighting {
    /// The identifier under which the adapter knows the peripheral.
    pub id: String,
    /// The cached advertisement, or `None` where it could not be read.
    pub properties: Option<Advertisement>,
    /// Whether the peripheral is connected, or `None` where that could not
    /// be told.
    pub is_connected: Option<bool>,
}

/// The descriptors that a list of devices holds.
pub open spec fn device_views(devices: Seq<Device>) -> Seq<DeviceView> {
    Seq::new(devices.len(), |i: int| devices[i]@)
}

/// The descriptor of a sighting whose advertisement could be read: a
/// peripheral without a name is called `unknown`, and one of which the
/// adapter cannot tell counts as not connected.
pub open spec fn described(sighting: Sighting) -> Option<DeviceView> {
    match sighting.properties {
        Some(advertisement) => Some(
            DeviceView {
                id: sighting.id@,
                name: match advertisement.local_name {
                    Some(name) => name@,
                    None => unknown_name(),
                },
                address: advertisement.address@,
                is_connected: match sighting.is_connected {
                    Some(connected) => connected,
                    None => false,
                },
                minor_device_class: MinorDeviceClass::Unknown,
            },
        ),
        None => None,
    }
}

/// Whether a descriptor with the identifier `id` is among `devices`.
pub open spec fn knows(devices: Seq<DeviceView>, id: Seq<char>) -> bool {
    exists|i: int| 0 <= i < devices.len() && #[trigger] devices[i].id == id
}

/// `at` is where the first descriptor with the identifier `id` stands.
pub open spec fn is_first_with(devices: Seq<DeviceView>, id: Seq<char>, at: int) -> bool {
    &&& 0 <= at < devices.len()
    &&& devices[at].id == id
    &&& forall|j: int| 0 <= j < at ==> #[trigger] devices[j].id != id
}

/// The descriptors after one more was taken in: it replaces, in place, the
/// one that has its identifier, and comes last where none has.
pub open spec fn merged(devices: Seq<DeviceView>, device: DeviceView) -> Seq<DeviceView> {
    if knows(devices, device.id) {
        devices.update(choose|at: int| is_first_with(devices, device.id, at), device)
    } else {
        devices.push(device)
    }
}

/// The descriptors that a scan reports for what the adapter told: one for
/// each identifier whose advertisement could be read, in the order in which
/// the identifiers first came, each with what was told last.
pub open spec fn collected(sightings: Seq<Sighting>) -> Seq<DeviceView>
    decreases sightings.len(),
{
    if sightings.len() == 0 {
        Seq::empty()
    } else {
        let rest = collected(sightings.drop_last());
        match described(sightings.last()) {
            Some(device) => merged(rest, device),
            None => rest,
        }
    }
}

/// No two descriptors have the same identifier.
pub open spec fn distinct_ids(devices: Seq<DeviceView>) -> bool {
    forall|i: int, j: int|
        0 <= i < j < devices.len() ==> #[trigger] devices[i].id != #[trigger] devices[j].id
}

/// The descriptor of a sighting, or `None` where its advertisement could not
/// be read.
pub fn describe(sighting: &Sighting) -> (device: Option<Device>)
    ensures
        match device {
            Some(d) => described(*sighting) == Some(d@),
            None => described(*sighting) is None,
        },
{
    match &sighting.properties {
        Some(advertisement) => {
            let name: String = match &advertisement.local_name {
                Some(name) => name.clone(),
                None => String::from_str("unknown"),
            };
            let is_connected: bool = match sighting.is_connected {
                Some(connected) => connected,
                None => false,
            };
            Some(
                Device::new(
                    sighting.id.clone(),
                    name,
                    advertisement.address.clone(),
                    is_connected,
                    MinorDeviceClass::Unknown,
                ),
            )
        },
        None => None,
    }
}

/// Where the first descriptor with the identifier `id` stands, if there is
/// one.
pub fn find_device(devices: &Vec<Device>, id: &String) -> (found: Option<usize>)
    ensures
        match found {
            Some(at) => is_first_with(device_views(devices@), id@, at as int),
            None => !knows(device_views(devices@), id@),
        },
{
    let mut i: usize = 0;
    while i < devices.len()
        invariant
            0 <= i <= devices.len(),
            forall|j: int| 0 <= j < i ==> #[trigger] device_views(devices@)[j].id != id@,
        decreases devices.len() - i,
    {
        if devices[i].id == *id {
            return Some(i);
        }
        i = i + 1;
    }
    None
}

/// Takes one more descriptor in: it replaces the one that has its
/// identifier, and comes last where none has.
pub fn merge_device(devices: &mut Vec<Device>, device: Device)
    ensures
        device_views(final(devices)@) == merged(device_views(old(devices)@), device@),
{
    let ghost before = device_views(devices@);
    match find_device(devices, &device.id) {
        Some(at) => {
            proof {
                lemma_first_is_unique(before, device.id@, at as int);
            }
            devices.set(at, device);
            assert(device_views(devices@) =~= before.update(at as int, device@));
        },
        None => {
            devices.push(device);
            assert(device_views(devices@) =~= before.push(device@));
        },
    }
}

/// What a scan reports for the peripherals that the adapter knew when the
/// window closed. A peripheral whose advertisement could not be read is left
/// out; an adapter that knew of none is an error.
pub fn collect_devices(sightings: &Vec<Sighting>) -> (result: Result<Vec<Device>, BluetoothError>)
    ensures
        sightings@.len() == 0 ==> result == Err::<Vec<Device>, BluetoothError>(
            BluetoothError::NoPeripheralsFound,
        ),
        sightings@.len() > 0 ==> result is Ok && device_views(result->Ok_0@) == collected(
            sightings@,
        ),
        result is Ok ==> distinct_ids(device_views(result->Ok_0@)),
{
    if sightings.len() == 0 {
        return Err(BluetoothError::NoPeripheralsFound);
    }
    let mut devices: Vec<Device> = Vec::new();
    let mut i: usize = 0;
    assert(device_views(devices@) =~= collected(sightings@.subrange(0, 0)));
    while i < sightings.len()
        invariant
            0 <= i <= sightings.len(),
            device_views(devices@) == collected(sightings@.subrange(0, i as int)),
        decreases sightings.len() - i,
    {
        proof {
            let next = sightings@.subrange(0, i as int + 1);
            assert(next.drop_last() =~= sightings@.subrange(0, i as int));
            assert(next.last() == sightings@[i as int]);
        }
        match describe(&sightings[i]) {
            Some(device) => {
                merge_device(&mut devices, device);
            },
            None => {},
        }
        i = i + 1;
    }
    proof {
        assert(sightings@.subrange(0, sightings@.len() as int) =~= sightings@);
        lemma_collected_ids_are_distinct(sightings@);
    }
    Ok(devices)
}

/// The descriptors of the peripherals that are connected, in their order.
pub open spec fn connected_among(devices: Seq<DeviceView>) -> Seq<DeviceView> {
    devices.filter(|device: DeviceView| device.is_connected)
}

/// The peripherals among `devices` that are connected, in their order.
pub fn connected_devices(devices: &Vec<Device>) -> (connected: Vec<Device>)
    ensures
        device_views(connected@) == connected_among(device_views(devices@)),
{
    let mut connected: Vec<Device> = Vec::new();
    let mut i: usize = 0;
    proof {
        reveal(Seq::filter);
        assert(device_views(devices@).subrange(0, 0) =~= Seq::<DeviceView>::empty());
        assert(device_views(connected@) =~= Seq::<DeviceView>::empty());
    }
    while i < devices.len()
        invariant
            0 <= i <= devices.len(),
            device_views(connected@) == connected_among(
                device_views(devices@).subrange(0, i as int),
            ),
        decreases devices.len() - i,
    {
        proof {
            reveal(Seq::filter);
            let next = device_views(devices@).subrange(0, i as int + 1);
            assert(next.drop_last() =~= device_views(devices@).subrange(0, i as int));
            assert(next.last() == devices@[i as int]@);
        }
        if devices[i].is_connected {
            let ghost before = device_views(connected@);
            connected.push(devices[i].duplicate());
            assert(device_views(connected@) =~= before.push(devices@[i as int]@));
        }
        i = i + 1;
    }
    proof {
        let all = device_views(devices@);
        assert(all.subrange(0, all.len() as int) =~= all);
    }
    connected
}

/// There is only one first descriptor with a given identifier.
pub proof fn lemma_first_is_unique(devices: Seq<DeviceView>, id: Seq<char>, at: int)
    requires
        is_first_with(devices, id, at),
    ensures
        knows(devices, id),
        (choose|k: int| is_first_with(devices, id, k)) == at,
{
    let k = choose|k: int| is_first_with(devices, id, k);
    assert(is_first_with(devices, id, k));
    if k < at {
        assert(devices[k].id != id);
    }
    if at < k {
        assert(devices[at].id != id);
    }
}

/// Among descriptors that know an identifier there is a first with it.
pub proof fn lemma_known_has_first(devices: Seq<DeviceView>, id: Seq<char>)
    requires
        knows(devices, id),
    ensures
        is_first_with(devices, id, choose|k: int| is_first_with(devices, id, k)),
    decreases devices.len(),
{
    let i = choose|i: int| 0 <= i < devices.len() && #[trigger] devices[i].id == id;
    let front = devices.subrange(0, i);
    if knows(front, id) {
        lemma_known_has_first(front, id);
        let k = choose|k: int| is_first_with(front, id, k);
        assert(front[k].id == id);
        assert forall|j: int| 0 <= j < k implies #[trigger] devices[j].id != id by {
            assert(front[j].id != id);
        }
        assert(is_first_with(devices, id, k));
    } else {
        assert forall|j: int| 0 <= j < i implies #[trigger] devices[j].id != id by {
            if devices[j].id == id {
                assert(front[j].id == id);
            }
        }
        assert(is_first_with(devices, id, i));
    }
}

/// Taking a descriptor in keeps the identifiers distinct, keeps every
/// identifier that was known, and makes the new one known, with the values
/// that came with it.
pub proof fn lemma_merged(devices: Seq<DeviceView>, device: DeviceView)
    requires
        distinct_ids(devices),
    ensures
        distinct_ids(merged(devices, device)),
        merged(devices, device).contains(device),
        forall|id: Seq<char>| knows(devices, id) ==> knows(merged(devices, device), id),
        forall|id: Seq<char>|
            knows(merged(devices, device), id) ==> knows(devices, id) || id == device.id,
        forall|other: DeviceView|
            devices.contains(other) && other.id != device.id ==> merged(devices, device).contains(
                other,
            ),
{
    let after = merged(devices, device);
    if knows(devices, device.id) {
        lemma_known_has_first(devices, device.id);
        let at = choose|at: int| is_first_with(devices, device.id, at);
        assert(after[at] == device);
        assert forall|i: int, j: int| 0 <= i < j < after.len() implies #[trigger] after[i].id
            != #[trigger] after[j].id by {
            assert(devices[i].id != devices[j].id);
            if i == at {
                assert(after[j] == devices[j]);
            } else if j == at {
                assert(after[i] == devices[i]);
            } else {
                assert(after[i] == devices[i]);
                assert(after[j] == devices[j]);
            }
        }
        assert forall|id: Seq<char>| knows(devices, id) implies knows(after, id) by {
            let i = choose|i: int| 0 <= i < devices.len() && #[trigger] devices[i].id == id;
            assert(after[i].id == id);
        }
        assert forall|id: Seq<char>| knows(after, id) implies knows(devices, id) || id
            == device.id by {
            let i = choose|i: int| 0 <= i < after.len() && #[trigger] after[i].id == id;
            if i != at {
                assert(devices[i].id == id);
            }
        }
        assert forall|other: DeviceView|
            devices.contains(other) && other.id != device.id implies after.contains(other) by {
            let i = choose|i: int| 0 <= i < devices.len() && devices[i] == other;
            assert(after[i] == other);
        }
    } else {
        assert(after[devices.len() as int] == device);
        assert forall|i: int, j: int| 0 <= i < j < after.len() implies #[trigger] after[i].id
            != #[trigger] after[j].id by {
            if j < devices.len() {
                assert(devices[i].id != devices[j].id);
            } else {
                assert(devices[i].id != device.id);
            }
        }
        assert forall|id: Seq<char>| knows(devices, id) implies knows(after, id) by {
            let i = choose|i: int| 0 <= i < devices.len() && #[trigger] devices[i].id == id;
            assert(after[i].id == id);
        }
        assert forall|id: Seq<char>| knows(after, id) implies knows(devices, id) || id
            == device.id by {
            let i = choose|i: int| 0 <= i < after.len() && #[trigger] after[i].id == id;
            if i < devices.len() {
                assert(devices[i].id == id);
            }
        }
        assert forall|other: DeviceView|
            devices.contains(other) && other.id != device.id implies after.contains(other) by {
            let i = choose|i: int| 0 <= i < devices.len() && devices[i] == other;
            assert(after[i] == other);
        }
    }
}

/// A scan never reports two descriptors with the same identifier, however
/// often the adapter told of one peripheral.
pub proof fn lemma_collected_ids_are_distinct(sightings: Seq<Sighting>)
    ensures
        distinct_ids(collected(sightings)),
    decreases sightings.len(),
{
    if sightings.len() > 0 {
        lemma_collected_ids_are_distinct(sightings.drop_last());
        match described(sightings.last()) {
            Some(device) => {
                lemma_merged(collected(sightings.drop_last()), device);
            },
            None => {},
        }
    }
}

/// A scan reports an identifier exactly when the adapter told of it with an
/// advertisement that could be read.
pub proof fn lemma_collected_ids(sightings: Seq<Sighting>, id: Seq<char>)
    ensures
        knows(collected(sightings), id) <==> exists|k: int|
            0 <= k < sightings.len() && described(#[trigger] sightings[k]) is Some
                && sightings[k].id@ == id,
    decreases sightings.len(),
{
    if sightings.len() > 0 {
        let front = sightings.drop_last();
        let rest = collected(front);
        lemma_collected_ids(front, id);
        lemma_collected_ids_are_distinct(front);
        match described(sightings.last()) {
            Some(device) => {
                lemma_merged(rest, device);
                assert(device.id == sightings.last().id@);
            },
            None => {},
        }
        if knows(collected(sightings), id) {
            if knows(rest, id) {
                let k = choose|k: int|
                    0 <= k < front.len() && described(#[trigger] front[k]) is Some && front[k].id@
                        == id;
                assert(sightings[k] == front[k]);
            } else {
                assert(sightings[sightings.len() - 1] == sightings.last());
            }
        }
        if exists|k: int|
            0 <= k < sightings.len() && described(#[trigger] sightings[k]) is Some
                && sightings[k].id@ == id {
            let k = choose|k: int|
                0 <= k < sightings.len() && described(#[trigger] sightings[k]) is Some
                    && sightings[k].id@ == id;
            if k < front.len() {
                assert(front[k] == sightings[k]);
                assert(knows(rest, id));
            } else {
                let device = described(sightings.last())->Some_0;
                let after = merged(rest, device);
                assert(after.contains(device));
                let i = choose|i: int| 0 <= i < after.len() && after[i] == device;
                assert(after[i].id == id);
            }
        }
    } else {
        assert(!knows(collected(sightings), id));
    }
}

/// Two sightings of one peripheral give one descriptor: where the adapter
/// told of the identifier at `first` and again at `second`, exactly one of
/// the reported descriptors has that identifier.
pub proof fn lemma_sightings_of_one_peripheral_give_one_descriptor(
    sightings: Seq<Sighting>,
    first: int,
    second: int,
)
    requires
        0 <= first < second < sightings.len(),
        sightings[first].id@ == sightings[second].id@,
        described(sightings[first]) is Some || described(sightings[second]) is Some,
    ensures
        exists|at: int|
            0 <= at < collected(sightings).len() && #[trigger] collected(sightings)[at].id
                == sightings[first].id@ && forall|other: int|
                0 <= other < collected(sightings).len() && other != at ==> #[trigger] collected(
                    sightings,
                )[other].id != sightings[first].id@,
{
    let id = sightings[first].id@;
    let devices = collected(sightings);
    lemma_collected_ids(sightings, id);
    lemma_collected_ids_are_distinct(sightings);
    if described(sightings[first]) is Some {
        assert(described(sightings[first]) is Some && sightings[first].id@ == id);
    } else {
        assert(described(sightings[second]) is Some && sightings[second].id@ == id);
    }
    assert(knows(devices, id));
    let at = choose|at: int| 0 <= at < devices.len() && #[trigger] devices[at].id == id;
    assert forall|other: int| 0 <= other < devices.len() && other != at implies #[trigger] devices[other].id
        != id by {
        if other < at {
            assert(devices[other].id != devices[at].id);
        } else {
            assert(devices[at].id != devices[other].id);
        }
    }
}

} // verus!
