//! Peripheral descriptors and the Bluetooth Class-of-Device field.
//!
//! A Class of Device is a 24-bit value. Bits 23 to 13 are independent service
//! flags, bits 12 to 8 hold the major device class, bits 7 to 2 the minor
//! device class, and bits 1 and 0 carry no meaning. The field is decoded from
//! the integer by [`classify`], and from its binary digits, written most
//! significant bit first, by the `get` functions of the three class types.

use vstd::prelude::*;
use vstd::string::*;
use vstd::utf8::*;

verus! {

/// What a device does within its major class. Only health devices are told
/// apart; every other major class gives `NotSupported`.
#[derive(Debug, Clone, Copy, PartialEq, Eq, Structural)]
pub enum MinorDeviceClass {
    NotSupported,
    Unknown,
    Other,
    Undefined,
    BloodPressureMonitor,
    Thermometer,
    WeighingScale,
    GlucoseMeter,
    PulseOximeter,
    HeartRateMonitor,
    HealthDataDisplay,
}

/// One of the service flags of bits 23 to 13. Several may be set at once.
#[derive(Debug, Clone, Copy, PartialEq, Eq, Structural)]
pub enum MajorServiceClass {
    Unknow,
    Audio,
    Rendering,
    Positioning,
    Networking,
    Capturing,
    ObjectTransfer,
    Telephony,
    Information,
    LimitedDiscoverableMode,
    Reserved,
}

/// The broad kind of a device, from the five bits 12 to 8.
#[derive(Debug, Clone, Copy, PartialEq, Eq, Structural)]
pub enum MajorDeviceClass {
    Miscellaneous,
    Computer,
    Phone,
    LAN,
    AudioVideo,
    Peripheral,
    Imaging,
    Wearable,
    Toy,
    Health,
    Uncategorized,
    Other,
}

/// The highest bit position of a Class of Device.
pub const TOP_BIT: usize = 23;

/// The number of service flag bits, which are the leading digits of the
/// binary text.
pub const SERVICE_BITS: usize = 11;

/// The number of digits that spell a major device class.
pub const MAJOR_DIGITS: usize = 5;

/// The number of digits that spell a minor device class.
pub const MINOR_DIGITS: usize = 6;

/// A text of binary digits: each character is `0` or `1`.
pub open spec fn is_binary_text(text: Seq<char>) -> bool {
    forall|i: int| 0 <= i < text.len() ==> text[i] == '0' || #[trigger] text[i] == '1'
}

/// The number that a text of binary digits spells, most significant digit
/// first. A character other than `1` counts as zero.
pub open spec fn binary_value(text: Seq<char>) -> nat
    decreases text.len(),
{
    if text.len() == 0 {
        0
    } else {
        2 * binary_value(text.drop_last()) + if text.last() == '1' {
            1nat
        } else {
            0nat
        }
    }
}

/// The code that `text` spells if it is exactly `width` binary digits.
pub open spec fn binary_code(text: Seq<char>, width: nat) -> Option<nat> {
    if text.len() == width && is_binary_text(text) {
        Some(binary_value(text))
    } else {
        None
    }
}

/// A text of `width` binary digits spells a number below two to the `width`.
pub proof fn lemma_binary_value_bound(text: Seq<char>)
    ensures
        binary_value(text) < vstd::arithmetic::power2::pow2(text.len()),
    decreases text.len(),
{
    if text.len() == 0 {
        vstd::arithmetic::power2::lemma2_to64();
    } else {
        lemma_binary_value_bound(text.drop_last());
        vstd::arithmetic::power2::lemma_pow2_unfold(text.len());
    }
}

/// Reads `binary` as exactly `width` binary digits.
pub fn parse_binary(binary: &str, width: usize) -> (code: Option<u32>)
    requires
        width <= 31,
    ensures
        code matches Some(v) ==> binary_code(binary@, width as nat) == Some(v as nat),
        code is None ==> binary_code(binary@, width as nat) is None,
{
    let len: usize = binary.unicode_len();
    if len != width {
        return None;
    }
    let mut value: u32 = 0;
    let mut i: usize = 0;
    while i < len
        invariant
            len == binary@.len(),
            len <= 31,
            0 <= i <= len,
            is_binary_text(binary@.subrange(0, i as int)),
            value as nat == binary_value(binary@.subrange(0, i as int)),
        decreases len - i,
    {
        let c: char = binary.get_char(i);
        let ghost before = binary@.subrange(0, i as int);
        let ghost after = binary@.subrange(0, i as int + 1);
        proof {
            assert(after.drop_last() =~= before);
            assert(after.last() == c);
            lemma_binary_value_bound(before);
            lemma_binary_value_bound(after);
            vstd::arithmetic::power2::lemma_pow2_strictly_increases(after.len(), 32);
            vstd::arithmetic::power2::lemma2_to64();
        }
        if c == '1' {
            value = 2 * value + 1;
        } else if c == '0' {
            value = 2 * value;
        } else {
            proof {
                assert(binary@[i as int] == c);
            }
            return None;
        }
        proof {
            assert forall|j: int| 0 <= j < after.len() implies after[j] == '0' || after[j]
                == '1' by {
                if j < i {
                    assert(after[j] == before[j]);
                }
            }
        }
        i = i + 1;
    }
    proof {
        assert(binary@.subrange(0, len as int) =~= binary@);
    }
    Some(value)
}

impl MajorDeviceClass {
    /// The major device class that a five-bit code stands for.
    pub open spec fn of_code(code: nat) -> MajorDeviceClass {
        if code == 0 {
            MajorDeviceClass::Miscellaneous
        } else if code == 1 {
            MajorDeviceClass::Computer
        } else if code == 2 {
            MajorDeviceClass::Phone
        } else if code == 3 {
            MajorDeviceClass::LAN
        } else if code == 4 {
            MajorDeviceClass::AudioVideo
        } else if code == 5 {
            MajorDeviceClass::Peripheral
        } else if code == 6 {
            MajorDeviceClass::Imaging
        } else if code == 7 {
            MajorDeviceClass::Wearable
        } else if code == 8 {
            MajorDeviceClass::Toy
        } else if code == 9 {
            MajorDeviceClass::Health
        } else if code == 31 {
            MajorDeviceClass::Uncategorized
        } else {
            MajorDeviceClass::Other
        }
    }

    /// The major device class that a text stands for: the class of its code
    /// where the text is five binary digits, `Other` for any other text.
    pub open spec fn of_text(text: Seq<char>) -> MajorDeviceClass {
        match binary_code(text, MAJOR_DIGITS as nat) {
            Some(code) => Self::of_code(code),
            None => MajorDeviceClass::Other,
        }
    }

    /// The major device class of a five-bit code.
    pub fn from_code(code: u32) -> (class: MajorDeviceClass)
        ensures
            class == Self::of_code(code as nat),
    {
        if code == 0 {
            MajorDeviceClass::Miscellaneous
        } else if code == 1 {
            MajorDeviceClass::Computer
        } else if code == 2 {
            MajorDeviceClass::Phone
        } else if code == 3 {
            MajorDeviceClass::LAN
        } else if code == 4 {
            MajorDeviceClass::AudioVideo
        } else if code == 5 {
            MajorDeviceClass::Peripheral
        } else if code == 6 {
            MajorDeviceClass::Imaging
        } else if code == 7 {
            MajorDeviceClass::Wearable
        } else if code == 8 {
            MajorDeviceClass::Toy
        } else if code == 9 {
            MajorDeviceClass::Health
        } else if code == 31 {
            MajorDeviceClass::Uncategorized
        } else {
            MajorDeviceClass::Other
        }
    }

    /// The major device class spelled by the five binary digits of bits 12 to
    /// 8, most significant first.
    pub fn get(binary: &str) -> (class: MajorDeviceClass)
        ensures
            class == Self::of_text(binary@),
    {
        Self::map_value(binary)
    }

    /// Looks the text up in the table of major device classes.
    pub fn map_value(binary: &str) -> (class: MajorDeviceClass)
        ensures
            class == Self::of_text(binary@),
    {
        match parse_binary(binary, MAJOR_DIGITS) {
            Some(code) => Self::from_code(code),
            None => MajorDeviceClass::Other,
        }
    }
}

impl MinorDeviceClass {
    /// The kind of health device that a six-bit code stands for.
    pub open spec fn of_health_code(code: nat) -> MinorDeviceClass {
        if code == 0 {
            MinorDeviceClass::Undefined
        } else if code == 1 {
            MinorDeviceClass::BloodPressureMonitor
        } else if code == 2 {
            MinorDeviceClass::Thermometer
        } else if code == 3 {
            MinorDeviceClass::WeighingScale
        } else if code == 4 {
            MinorDeviceClass::GlucoseMeter
        } else if code == 5 {
            MinorDeviceClass::PulseOximeter
        } else if code == 6 {
            MinorDeviceClass::HeartRateMonitor
        } else if code == 7 {
            MinorDeviceClass::HealthDataDisplay
        } else {
            MinorDeviceClass::Other
        }
    }

    /// The minor device class of a six-bit code under a major class: decoded
    /// for health devices, `NotSupported` under any other major class.
    pub open spec fn of_code(code: nat, major: MajorDeviceClass) -> MinorDeviceClass {
        if major == MajorDeviceClass::Health {
            Self::of_health_code(code)
        } else {
            MinorDeviceClass::NotSupported
        }
    }

    /// The minor device class that a text stands for under a major class.
    /// Under `Health` a text that is not six binary digits gives `Other`.
    pub open spec fn of_text(text: Seq<char>, major: MajorDeviceClass) -> MinorDeviceClass {
        if major == MajorDeviceClass::Health {
            match binary_code(text, MINOR_DIGITS as nat) {
                Some(code) => Self::of_health_code(code),
                None => MinorDeviceClass::Other,
            }
        } else {
            MinorDeviceClass::NotSupported
        }
    }

    /// The minor device class of a six-bit code under a major class.
    pub fn from_code(code: u32, major_device_class: MajorDeviceClass) -> (class: MinorDeviceClass)
        ensures
            class == Self::of_code(code as nat, major_device_class),
    {
        match major_device_class {
            MajorDeviceClass::Health => {
                if code == 0 {
                    MinorDeviceClass::Undefined
                } else if code == 1 {
                    MinorDeviceClass::BloodPressureMonitor
                } else if code == 2 {
                    MinorDeviceClass::Thermometer
                } else if code == 3 {
                    MinorDeviceClass::WeighingScale
                } else if code == 4 {
                    MinorDeviceClass::GlucoseMeter
                } else if code == 5 {
                    MinorDeviceClass::PulseOximeter
                } else if code == 6 {
                    MinorDeviceClass::HeartRateMonitor
                } else if code == 7 {
                    MinorDeviceClass::HealthDataDisplay
                } else {
                    MinorDeviceClass::Other
                }
            },
            _ => MinorDeviceClass::NotSupported,
        }
    }

    /// The minor device class spelled by the six binary digits of bits 7 to 2,
    /// most significant first, under the given major class.
    pub fn get(binary: &str, major_device_class: MajorDeviceClass) -> (class: MinorDeviceClass)
        ensures
            class == Self::of_text(binary@, major_device_class),
    {
        match major_device_class {
            MajorDeviceClass::Health => {
                match parse_binary(binary, MINOR_DIGITS) {
                    Some(code) => Self::from_code(code, MajorDeviceClass::Health),
                    None => MinorDeviceClass::Other,
                }
            },
            _ => MinorDeviceClass::NotSupported,
        }
    }
}

/// The bit positions that the digits `1` of a text stand for, in the order of
/// the text, where the first digit is bit 23, the second bit 22, and so on.
pub open spec fn set_bits(text: Seq<char>) -> Seq<usize>
    decreases text.len(),
{
    if text.len() == 0 {
        Seq::empty()
    } else {
        let rest = set_bits(text.drop_last());
        if text.last() == '1' && text.len() <= TOP_BIT + 1 {
            rest.push((TOP_BIT + 1 - text.len()) as usize)
        } else {
            rest
        }
    }
}

/// Whether bit `position` of a Class of Device is set.
pub open spec fn has_bit(class_bits: u32, position: u32) -> bool {
    class_bits & (1u32 << position) != 0
}

/// The positions of the bits that are set among the `count` highest bits of
/// a Class of Device, from bit 23 downwards.
pub open spec fn set_positions(class_bits: u32, count: nat) -> Seq<usize>
    decreases count,
{
    if count == 0 || count > TOP_BIT + 1 {
        Seq::empty()
    } else {
        let rest = set_positions(class_bits, (count - 1) as nat);
        let position = (TOP_BIT + 1 - count) as u32;
        if has_bit(class_bits, position) {
            rest.push(position as usize)
        } else {
            rest
        }
    }
}

impl MajorServiceClass {
    /// The service flag that a bit position stands for. Bits 15 and 14 are
    /// both reserved; a position outside 13 to 23 stands for no service.
    pub open spec fn of_position(bit: int) -> MajorServiceClass {
        if bit == 23 {
            MajorServiceClass::Information
        } else if bit == 22 {
            MajorServiceClass::Telephony
        } else if bit == 21 {
            MajorServiceClass::Audio
        } else if bit == 20 {
            MajorServiceClass::ObjectTransfer
        } else if bit == 19 {
            MajorServiceClass::Capturing
        } else if bit == 18 {
            MajorServiceClass::Rendering
        } else if bit == 17 {
            MajorServiceClass::Networking
        } else if bit == 16 {
            MajorServiceClass::Positioning
        } else if bit == 15 {
            MajorServiceClass::Reserved
        } else if bit == 14 {
            MajorServiceClass::Reserved
        } else if bit == 13 {
            MajorServiceClass::LimitedDiscoverableMode
        } else {
            MajorServiceClass::Unknow
        }
    }

    /// The flags that a sequence of bit positions stands for, in the order of
    /// the positions, each flag kept only where it first occurs.
    pub open spec fn of_positions(positions: Seq<usize>) -> Seq<MajorServiceClass>
        decreases positions.len(),
    {
        if positions.len() == 0 {
            Seq::empty()
        } else {
            let rest = Self::of_positions(positions.drop_last());
            let flag = Self::of_position(positions.last() as int);
            if rest.contains(flag) {
                rest
            } else {
                rest.push(flag)
            }
        }
    }

    /// The service flags that a text of binary digits stands for, where the
    /// first digit is bit 23.
    pub open spec fn of_text(text: Seq<char>) -> Seq<MajorServiceClass> {
        Self::of_positions(set_bits(text))
    }

    /// The service flags of a Class of Device: one for each flag whose bit,
    /// among bits 23 to 13, is set, from the highest bit downwards.
    pub open spec fn of_bits(class_bits: u32) -> Seq<MajorServiceClass> {
        Self::of_positions(set_positions(class_bits, SERVICE_BITS as nat))
    }

    /// The service flags spelled by the first eleven bytes of the binary
    /// digits of a Class of Device.
    pub fn get(binary: String) -> (classes: Vec<MajorServiceClass>)
        requires
            is_char_boundary(encode_utf8(binary@), SERVICE_BITS as int),
        ensures
            classes@ == Self::of_text(leading_text(binary@, SERVICE_BITS as int)),
    {
        let parts: (&str, &str) = binary.as_str().split_at(SERVICE_BITS);
        let head: &str = parts.0;
        proof {
            broadcast use encode_utf8_decode_utf8, encode_utf8_valid_utf8;

            let bytes = encode_utf8(binary@);
            assert(valid_utf8(bytes));
            assert(SERVICE_BITS <= bytes.len()) by {
                reveal_with_fuel(is_char_boundary, 2);
            }
            assert(encode_utf8(head@) == bytes.subrange(0, SERVICE_BITS as int));
            assert(decode_utf8(encode_utf8(head@)) == head@);
            lemma_text_no_longer_than_encoding(head@);
        }
        let set_bits: Vec<usize> = Self::get_set_bits(head);
        Self::map_values(&set_bits)
    }

    /// The bit positions that the digits `1` of `binary` stand for.
    pub fn get_set_bits(binary: &str) -> (bits: Vec<usize>)
        requires
            binary@.len() <= TOP_BIT + 1,
        ensures
            bits@ == set_bits(binary@),
    {
        let default_binary_length: usize = TOP_BIT + 1;
        let mut set_bits: Vec<usize> = Vec::new();
        let len: usize = binary.unicode_len();
        let mut index: usize = 0;
        while index < len
            invariant
                len == binary@.len(),
                len <= TOP_BIT + 1,
                default_binary_length == TOP_BIT + 1,
                0 <= index <= len,
                set_bits@ == self::set_bits(binary@.subrange(0, index as int)),
            decreases len - index,
        {
            let c: char = binary.get_char(index);
            proof {
                let after = binary@.subrange(0, index as int + 1);
                assert(after.drop_last() =~= binary@.subrange(0, index as int));
                assert(after.last() == c);
            }
            if c == '1' {
                let set_bit: usize = default_binary_length - (index + 1);
                set_bits.push(set_bit);
            }
            index = index + 1;
        }
        proof {
            assert(binary@.subrange(0, len as int) =~= binary@);
        }
        set_bits
    }

    /// The service flag of one bit position.
    pub fn map_value(bit: usize) -> (class: MajorServiceClass)
        ensures
            class == Self::of_position(bit as int),
    {
        if bit == 23 {
            MajorServiceClass::Information
        } else if bit == 22 {
            MajorServiceClass::Telephony
        } else if bit == 21 {
            MajorServiceClass::Audio
        } else if bit == 20 {
            MajorServiceClass::ObjectTransfer
        } else if bit == 19 {
            MajorServiceClass::Capturing
        } else if bit == 18 {
            MajorServiceClass::Rendering
        } else if bit == 17 {
            MajorServiceClass::Networking
        } else if bit == 16 {
            MajorServiceClass::Positioning
        } else if bit == 15 {
            MajorServiceClass::Reserved
        } else if bit == 14 {
            MajorServiceClass::Reserved
        } else if bit == 13 {
            MajorServiceClass::LimitedDiscoverableMode
        } else {
            MajorServiceClass::Unknow
        }
    }

    /// The service flags of a list of bit positions, each flag once.
    pub fn map_values(bits: &Vec<usize>) -> (classes: Vec<MajorServiceClass>)
        ensures
            classes@ == Self::of_positions(bits@),
    {
        let mut classes: Vec<MajorServiceClass> = Vec::new();
        let mut i: usize = 0;
        while i < bits.len()
            invariant
                0 <= i <= bits.len(),
                classes@ == Self::of_positions(bits@.subrange(0, i as int)),
            decreases bits.len() - i,
        {
            let flag = Self::map_value(bits[i]);
            proof {
                let after = bits@.subrange(0, i as int + 1);
                assert(after.drop_last() =~= bits@.subrange(0, i as int));
                assert(after.last() == bits@[i as int]);
            }
            if !Self::holds(&classes, flag) {
                classes.push(flag);
            }
            i = i + 1;
        }
        proof {
            assert(bits@.subrange(0, bits.len() as int) =~= bits@);
        }
        classes
    }

    /// Whether `flag` is among `classes`.
    pub fn holds(classes: &Vec<MajorServiceClass>, flag: MajorServiceClass) -> (found: bool)
        ensures
            found == classes@.contains(flag),
    {
        let mut i: usize = 0;
        while i < classes.len()
            invariant
                0 <= i <= classes.len(),
                forall|j: int| 0 <= j < i ==> classes@[j] != flag,
            decreases classes.len() - i,
        {
            if classes[i] == flag {
                return true;
            }
            i = i + 1;
        }
        false
    }

    /// The service flags of a Class of Device, from bit 23 downwards.
    pub fn from_bits(class_bits: u32) -> (classes: Vec<MajorServiceClass>)
        ensures
            classes@ == Self::of_bits(class_bits),
    {
        let mut positions: Vec<usize> = Vec::new();
        let mut count: usize = 0;
        while count < SERVICE_BITS
            invariant
                0 <= count <= SERVICE_BITS,
                positions@ == set_positions(class_bits, count as nat),
            decreases SERVICE_BITS - count,
        {
            count = count + 1;
            let position: usize = TOP_BIT + 1 - count;
            let mask: u32 = 1u32 << (position as u32);
            if class_bits & mask != 0 {
                positions.push(position);
            }
        }
        Self::map_values(&positions)
    }
}

/// The text that the first `n` bytes of the encoding of `text` hold.
pub open spec fn leading_text(text: Seq<char>, n: int) -> Seq<char> {
    decode_utf8(encode_utf8(text).subrange(0, n))
}

/// A text has at most as many characters as its encoding has bytes.
pub proof fn lemma_text_no_longer_than_encoding(text: Seq<char>)
    ensures
        text.len() <= encode_utf8(text).len(),
    decreases text.len(),
{
    if text.len() > 0 {
        lemma_text_no_longer_than_encoding(text.drop_first());
    }
}

impl MajorDeviceClass {
    /// The major device class of a Class of Device: the class of the code in
    /// bits 12 to 8.
    pub open spec fn of_bits(class_bits: u32) -> MajorDeviceClass {
        Self::of_code(((class_bits >> 8) & 0x1f) as nat)
    }
}

impl MinorDeviceClass {
    /// The minor device class of a Class of Device: the class of the code in
    /// bits 7 to 2 under the major class of bits 12 to 8.
    pub open spec fn of_bits(class_bits: u32) -> MinorDeviceClass {
        Self::of_code(((class_bits >> 2) & 0x3f) as nat, MajorDeviceClass::of_bits(class_bits))
    }
}

/// A decoded Class of Device.
#[derive(Debug, Clone, PartialEq, Eq)]
pub struct ClassOfDevice {
    /// The service flags that are set, each once, from bit 23 downwards.
    pub major_service_classes: Vec<MajorServiceClass>,
    pub major_device_class: MajorDeviceClass,
    pub minor_device_class: MinorDeviceClass,
}

/// Decodes a Class of Device. Only bits 23 to 2 are read: what lies above bit
/// 23 and the two lowest bits do not change the result.
pub fn classify(class_bits: u32) -> (class: ClassOfDevice)
    ensures
        class.major_service_classes@ == MajorServiceClass::of_bits(class_bits),
        class.major_device_class == MajorDeviceClass::of_bits(class_bits),
        class.minor_device_class == MinorDeviceClass::of_bits(class_bits),
{
    let major_service_classes = MajorServiceClass::from_bits(class_bits);
    let major_code: u32 = (class_bits >> 8) & 0x1f;
    let minor_code: u32 = (class_bits >> 2) & 0x3f;
    let major_device_class = MajorDeviceClass::from_code(major_code);
    let minor_device_class = MinorDeviceClass::from_code(minor_code, major_device_class);
    ClassOfDevice { major_service_classes, major_device_class, minor_device_class }
}

/// The flags of a sequence of positions hold no flag twice, and hold a flag
/// exactly when it is the flag of one of the positions.
pub proof fn lemma_flags_of_positions(positions: Seq<usize>)
    ensures
        MajorServiceClass::of_positions(positions).no_duplicates(),
        forall|flag: MajorServiceClass|
            MajorServiceClass::of_positions(positions).contains(flag) <==> exists|i: int|
                0 <= i < positions.len() && MajorServiceClass::of_position(
                    #[trigger] positions[i] as int,
                ) == flag,
    decreases positions.len(),
{
    let flags = MajorServiceClass::of_positions(positions);
    if positions.len() > 0 {
        let front = positions.drop_last();
        let rest = MajorServiceClass::of_positions(front);
        let last = MajorServiceClass::of_position(positions.last() as int);
        lemma_flags_of_positions(front);
        assert forall|flag: MajorServiceClass| flags.contains(flag) <==> exists|i: int|
            0 <= i < positions.len() && MajorServiceClass::of_position(
                #[trigger] positions[i] as int,
            ) == flag by {
            if flags.contains(flag) {
                if rest.contains(flag) {
                    let i = choose|i: int|
                        0 <= i < front.len() && MajorServiceClass::of_position(
                            #[trigger] front[i] as int,
                        ) == flag;
                    assert(positions[i] == front[i]);
                } else {
                    let k = choose|k: int| 0 <= k < flags.len() && flags[k] == flag;
                    if k < rest.len() {
                        assert(rest[k] == flag);
                    }
                    assert(flag == last);
                    assert(positions[positions.len() - 1] == positions.last());
                }
            }
            if exists|i: int|
                0 <= i < positions.len() && MajorServiceClass::of_position(
                    #[trigger] positions[i] as int,
                ) == flag {
                let i = choose|i: int|
                    0 <= i < positions.len() && MajorServiceClass::of_position(
                        #[trigger] positions[i] as int,
                    ) == flag;
                if i < front.len() {
                    assert(front[i] == positions[i]);
                    assert(rest.contains(flag));
                    let k = choose|k: int| 0 <= k < rest.len() && rest[k] == flag;
                    assert(flags[k] == flag);
                } else {
                    assert(flag == last);
                    if !rest.contains(last) {
                        assert(flags[rest.len() as int] == last);
                    }
                }
            }
        }
    }
}

/// The positions found among the `count` highest bits are those of the bits
/// that are set there.
pub proof fn lemma_set_positions(class_bits: u32, count: nat)
    requires
        count <= TOP_BIT + 1,
    ensures
        forall|p: usize| #[trigger]
            set_positions(class_bits, count).contains(p) <==> (TOP_BIT + 1 - count <= p <= TOP_BIT
                && has_bit(class_bits, p as u32)),
    decreases count,
{
    if count > 0 {
        let rest = set_positions(class_bits, (count - 1) as nat);
        let all = set_positions(class_bits, count);
        let position = (TOP_BIT + 1 - count) as u32;
        lemma_set_positions(class_bits, (count - 1) as nat);
        assert forall|p: usize| #[trigger]
            all.contains(p) <==> (TOP_BIT + 1 - count <= p <= TOP_BIT && has_bit(
                class_bits,
                p as u32,
            )) by {
            assert(rest.contains(p) <==> (TOP_BIT + 2 - count <= p <= TOP_BIT && has_bit(
                class_bits,
                p as u32,
            )));
            if all.contains(p) {
                let k = choose|k: int| 0 <= k < all.len() && all[k] == p;
                if k < rest.len() {
                    assert(rest[k] == p);
                    assert(rest.contains(p));
                } else {
                    assert(p == position as usize);
                }
            }
            if TOP_BIT + 1 - count <= p <= TOP_BIT && has_bit(class_bits, p as u32) {
                if p == position as usize {
                    assert(p as u32 == position);
                    assert(all[rest.len() as int] == p);
                } else {
                    assert(rest.contains(p));
                    let k = choose|k: int| 0 <= k < rest.len() && rest[k] == p;
                    assert(all[k] == p);
                }
            }
        }
    }
}

/// The service flags of a Class of Device form a set: no flag occurs twice,
/// and a flag occurs exactly when a bit that stands for it, among bits 23 to
/// 13, is set.
pub proof fn lemma_service_classes_are_the_flags_set(class_bits: u32, flag: MajorServiceClass)
    ensures
        MajorServiceClass::of_bits(class_bits).no_duplicates(),
        MajorServiceClass::of_bits(class_bits).contains(flag) <==> exists|p: u32|
            13 <= p <= 23 && #[trigger] has_bit(class_bits, p) && MajorServiceClass::of_position(
                p as int,
            ) == flag,
{
    let positions = set_positions(class_bits, SERVICE_BITS as nat);
    lemma_flags_of_positions(positions);
    lemma_set_positions(class_bits, SERVICE_BITS as nat);
    if MajorServiceClass::of_bits(class_bits).contains(flag) {
        let i = choose|i: int|
            0 <= i < positions.len() && MajorServiceClass::of_position(
                #[trigger] positions[i] as int,
            ) == flag;
        assert(positions.contains(positions[i]));
        assert(has_bit(class_bits, positions[i] as u32));
    }
    if exists|p: u32|
        13 <= p <= 23 && #[trigger] has_bit(class_bits, p) && MajorServiceClass::of_position(
            p as int,
        ) == flag {
        let p = choose|p: u32|
            13 <= p <= 23 && #[trigger] has_bit(class_bits, p) && MajorServiceClass::of_position(
                p as int,
            ) == flag;
        assert((p as usize) as u32 == p);
        assert(positions.contains(p as usize));
        let i = choose|i: int| 0 <= i < positions.len() && positions[i] == p as usize;
        assert(MajorServiceClass::of_position(positions[i] as int) == flag);
    }
}

/// Nothing above bit 23 and neither of the two lowest bits takes part in the
/// classification.
pub proof fn lemma_undefined_bits_are_ignored(class_bits: u32)
    ensures
        MajorServiceClass::of_bits(class_bits & 0x00ff_fffc) == MajorServiceClass::of_bits(
            class_bits,
        ),
        MajorDeviceClass::of_bits(class_bits & 0x00ff_fffc) == MajorDeviceClass::of_bits(
            class_bits,
        ),
        MinorDeviceClass::of_bits(class_bits & 0x00ff_fffc) == MinorDeviceClass::of_bits(
            class_bits,
        ),
{
    let kept: u32 = class_bits & 0x00ff_fffc;
    assert((kept >> 8) & 0x1f == (class_bits >> 8) & 0x1f) by (bit_vector)
        requires
            kept == class_bits & 0x00ff_fffc,
    ;
    assert((kept >> 2) & 0x3f == (class_bits >> 2) & 0x3f) by (bit_vector)
        requires
            kept == class_bits & 0x00ff_fffc,
    ;
    lemma_set_positions_of_kept_bits(class_bits, SERVICE_BITS as nat);
}

/// Masking the undefined bits away leaves the positions of the set bits
/// among the highest `count` bits as they were, as long as these lie above
/// bit 1.
proof fn lemma_set_positions_of_kept_bits(class_bits: u32, count: nat)
    requires
        count <= TOP_BIT - 1,
    ensures
        set_positions(class_bits & 0x00ff_fffc, count) == set_positions(class_bits, count),
    decreases count,
{
    if count > 0 {
        lemma_set_positions_of_kept_bits(class_bits, (count - 1) as nat);
        let position = (TOP_BIT + 1 - count) as u32;
        let kept: u32 = class_bits & 0x00ff_fffc;
        assert((kept & (1u32 << position) != 0) == (class_bits & (1u32 << position) != 0))
            by (bit_vector)
            requires
                kept == class_bits & 0x00ff_fffc,
                2 <= position <= 23,
        ;
    }
}

/// The number of binary digits of a Class of Device.
pub const DIGITS: usize = 24;

/// The 24 binary digits of bits 23 to 0 of a Class of Device, the highest
/// bit first.
pub open spec fn binary_digits(class_bits: u32) -> Seq<char> {
    Seq::new(
        DIGITS as nat,
        |i: int|
            if has_bit(class_bits, (TOP_BIT - i) as u32) {
                '1'
            } else {
                '0'
            },
    )
}

/// Writes bits 23 to 0 of a Class of Device as 24 binary digits, the highest
/// bit first.
pub fn binary_text(class_bits: u32) -> (text: String)
    ensures
        text@ == binary_digits(class_bits),
{
    let mut text: String = String::new();
    let mut i: usize = 0;
    while i < DIGITS
        invariant
            0 <= i <= DIGITS,
            text@ == binary_digits(class_bits).subrange(0, i as int),
        decreases DIGITS - i,
    {
        let position: usize = TOP_BIT - i;
        let mask: u32 = 1u32 << (position as u32);
        let ghost before = text@;
        if class_bits & mask != 0 {
            proof {
                reveal_strlit("1");
            }
            text.append("1");
            assert(text@ =~= before.push('1'));
        } else {
            proof {
                reveal_strlit("0");
            }
            text.append("0");
            assert(text@ =~= before.push('0'));
        }
        assert(text@ =~= binary_digits(class_bits).subrange(0, i as int + 1));
        i = i + 1;
    }
    assert(binary_digits(class_bits).subrange(0, DIGITS as int) =~= binary_digits(class_bits));
    text
}

/// The first `n` bytes of a text of ASCII characters hold its first `n`
/// characters, and end between two characters.
pub proof fn lemma_leading_text_of_ascii(text: Seq<char>, n: int)
    requires
        is_ascii_chars(text),
        0 <= n <= text.len(),
    ensures
        is_char_boundary(encode_utf8(text), n),
        leading_text(text, n) == text.subrange(0, n),
{
    let bytes = encode_utf8(text);
    let head = text.subrange(0, n);
    is_ascii_chars_encode_utf8(text);
    is_ascii_chars_encode_utf8(head);
    encode_utf8_valid_utf8(text);
    encode_utf8_decode_utf8(head);
    assert(bytes.subrange(0, n) =~= encode_utf8(head)) by {
        assert forall|i: int| 0 <= i < n implies bytes.subrange(0, n)[i] == encode_utf8(head)[i] by {
            assert(head[i] == text[i]);
            assert(text[i] as u8 == bytes[i]);
            assert(head[i] as u8 == encode_utf8(head)[i]);
        }
    }
    if n == text.len() {
        is_char_boundary_start_end_of_seq(bytes);
    } else {
        is_char_boundary_iff_not_is_continuation_byte(bytes, n);
        assert(text[n] as u8 == bytes[n]);
        is_ascii_chars_nat_bound(text);
        assert((text[n] as nat) < 128);
    }
}

/// The digits from `from` up to `to` of a Class of Device spell the value of
/// the bits that they stand for.
pub proof fn lemma_value_of_digits(class_bits: u32, from: int, to: int)
    requires
        0 <= from <= to <= DIGITS,
    ensures
        is_binary_text(binary_digits(class_bits).subrange(from, to)),
        binary_value(binary_digits(class_bits).subrange(from, to)) == (class_bits >> ((DIGITS
            - to) as u32)) & (((1u32 << ((to - from) as u32)) - 1) as u32),
    decreases to - from,
{
    let digits = binary_digits(class_bits);
    let text = digits.subrange(from, to);
    let shift = (DIGITS - to) as u32;
    let width = (to - from) as u32;
    if from == to {
        assert((class_bits >> shift) & (((1u32 << 0u32) - 1) as u32) == 0) by (bit_vector);
    } else {
        lemma_value_of_digits(class_bits, from, to - 1);
        assert(text.drop_last() =~= digits.subrange(from, to - 1));
        assert(text.last() == digits[to - 1]);
        let bit: u32 = if class_bits & (1u32 << shift) != 0 {
            1
        } else {
            0
        };
        assert((class_bits >> shift) & (((1u32 << width) - 1) as u32) == 2 * ((class_bits >> ((
        shift + 1) as u32)) & (((1u32 << ((width - 1) as u32)) - 1) as u32)) + bit) by (bit_vector)
            requires
                1 <= width,
                shift + width <= 24,
                bit == if class_bits & (1u32 << shift) != 0 {
                    1u32
                } else {
                    0u32
                },
        ;
    }
}

/// The leading digits of a Class of Device stand for the positions of the
/// bits that are set among its highest bits.
pub proof fn lemma_set_bits_of_digits(class_bits: u32, count: nat)
    requires
        count <= DIGITS,
    ensures
        set_bits(binary_digits(class_bits).subrange(0, count as int)) == set_positions(
            class_bits,
            count,
        ),
    decreases count,
{
    let digits = binary_digits(class_bits);
    let text = digits.subrange(0, count as int);
    if count > 0 {
        lemma_set_bits_of_digits(class_bits, (count - 1) as nat);
        assert(text.drop_last() =~= digits.subrange(0, count - 1));
        assert(text.last() == digits[count - 1]);
    }
}

/// The binary digits of a Class of Device and its bits say the same: the
/// service flags of the first eleven digits, the major class of the next
/// five and the minor class of the six after them are those of bits 23 to
/// 13, 12 to 8 and 7 to 2.
pub proof fn lemma_digits_and_bits_agree(class_bits: u32)
    ensures
        ({
            let text = binary_digits(class_bits);
            let major = MajorDeviceClass::of_bits(class_bits);
            &&& text.len() == DIGITS
            &&& is_binary_text(text)
            &&& is_char_boundary(encode_utf8(text), SERVICE_BITS as int)
            &&& MajorServiceClass::of_text(leading_text(text, SERVICE_BITS as int))
                == MajorServiceClass::of_bits(class_bits)
            &&& MajorDeviceClass::of_text(text.subrange(11, 16)) == major
            &&& MinorDeviceClass::of_text(text.subrange(16, 22), major) == MinorDeviceClass::of_bits(
                class_bits,
            )
        }),
{
    let text = binary_digits(class_bits);
    lemma_leading_text_of_ascii(text, SERVICE_BITS as int);
    lemma_set_bits_of_digits(class_bits, SERVICE_BITS as nat);
    lemma_value_of_digits(class_bits, 11, 16);
    lemma_value_of_digits(class_bits, 16, 22);
    assert(((1u32 << 5u32) - 1) as u32 == 0x1f) by (bit_vector);
    assert(((1u32 << 6u32) - 1) as u32 == 0x3f) by (bit_vector);
}

/// What is known of one peripheral that a scan has seen.
#[derive(Debug, Clone, PartialEq, Eq)]
pub struct Device {
    /// The identifier under which the adapter knows the peripheral.
    pub id: String,
    /// The advertised local name, or a fallback where none was advertised.
    pub name: String,
    pub address: String,
    pub is_connected: bool,
    pub minor_device_class: MinorDeviceClass,
}

/// A peripheral descriptor as plain values.
pub struct DeviceView {
    pub id: Seq<char>,
    pub name: Seq<char>,
    pub address: Seq<char>,
    pub is_connected: bool,
    pub minor_device_class: MinorDeviceClass,
}

impl View for Device {
    type V = DeviceView;

    open spec fn view(&self) -> DeviceView {
        DeviceView {
            id: self.id@,
            name: self.name@,
            address: self.address@,
            is_connected: self.is_connected,
            minor_device_class: self.minor_device_class,
        }
    }
}

impl Device {
    /// A descriptor of the given values.
    pub fn new(
        id: String,
        name: String,
        address: String,
        is_connected: bool,
        device_class: MinorDeviceClass,
    ) -> (device: Device)
        ensures
            device@ == (DeviceView {
                id: id@,
                name: name@,
                address: address@,
                is_connected,
                minor_device_class: device_class,
            }),
    {
        Device { id, name, address, is_connected, minor_device_class: device_class }
    }

    /// A copy of this descriptor.
    pub fn duplicate(&self) -> (copy: Device)
        ensures
            copy@ == self@,
    {
        Device {
            id: self.id.clone(),
            name: self.name.clone(),
            address: self.address.clone(),
            is_connected: self.is_connected,
            minor_device_class: self.minor_device_class,
        }
    }
}

/// The most hexadecimal digits that a Class of Device is written with.
pub const HEX_DIGITS: usize = 8;

/// The value of a hexadecimal digit, in either case, or `None` for any other
/// character.
pub open spec fn hex_digit(c: char) -> Option<nat> {
    if '0' <= c <= '9' {
        Some((c as u32 - '0' as u32) as nat)
    } else if 'a' <= c <= 'f' {
        Some((c as u32 - 'a' as u32 + 10) as nat)
    } else if 'A' <= c <= 'F' {
        Some((c as u32 - 'A' as u32 + 10) as nat)
    } else {
        None
    }
}

/// A text of hexadecimal digits.
pub open spec fn is_hex_text(text: Seq<char>) -> bool {
    forall|i: int| 0 <= i < text.len() ==> (#[trigger] hex_digit(text[i])) is Some
}

/// The number that a text of hexadecimal digits spells, most significant
/// digit first.
pub open spec fn hex_value(text: Seq<char>) -> nat
    decreases text.len(),
{
    if text.len() == 0 {
        0
    } else {
        16 * hex_value(text.drop_last()) + match hex_digit(text.last()) {
            Some(digit) => digit,
            None => 0,
        }
    }
}

/// The Class of Device that a text spells: the value of one to eight
/// hexadecimal digits, `None` for any other text.
pub open spec fn hex_code(text: Seq<char>) -> Option<nat> {
    if 1 <= text.len() <= HEX_DIGITS && is_hex_text(text) {
        Some(hex_value(text))
    } else {
        None
    }
}

/// Sixteen to the power `n`.
pub open spec fn sixteen_to(n: nat) -> nat
    decreases n,
{
    if n == 0 {
        1
    } else {
        16 * sixteen_to((n - 1) as nat)
    }
}

/// A text of `n` hexadecimal digits spells a number below sixteen to the
/// `n`.
pub proof fn lemma_hex_value_bound(text: Seq<char>)
    requires
        is_hex_text(text),
    ensures
        hex_value(text) < sixteen_to(text.len()),
    decreases text.len(),
{
    if text.len() > 0 {
        let front = text.drop_last();
        assert forall|i: int| 0 <= i < front.len() implies (#[trigger] hex_digit(
            front[i],
        )) is Some by {
            assert(front[i] == text[i]);
        }
        lemma_hex_value_bound(front);
        assert(hex_digit(text[text.len() - 1]) is Some);
    }
}

/// Up to eight hexadecimal digits fit in 32 bits.
pub proof fn lemma_eight_digits_fit(n: nat)
    requires
        n <= HEX_DIGITS,
    ensures
        sixteen_to(n) <= 0x1_0000_0000,
{
    reveal_with_fuel(sixteen_to, 9);
}

/// The value of one hexadecimal digit.
pub fn hex_digit_value(c: char) -> (digit: Option<u32>)
    ensures
        match digit {
            Some(d) => hex_digit(c) == Some(d as nat) && d < 16,
            None => hex_digit(c) is None,
        },
{
    let code: u32 = c as u32;
    if '0' <= c && c <= '9' {
        Some(code - 48)
    } else if 'a' <= c && c <= 'f' {
        Some(code - 97 + 10)
    } else if 'A' <= c && c <= 'F' {
        Some(code - 65 + 10)
    } else {
        None
    }
}

/// Reads `text` as one to eight hexadecimal digits.
pub fn parse_hex(text: &str) -> (code: Option<u32>)
    ensures
        match code {
            Some(v) => hex_code(text@) == Some(v as nat),
            None => hex_code(text@) is None,
        },
{
    let len: usize = text.unicode_len();
    if len == 0 || len > HEX_DIGITS {
        return None;
    }
    let mut value: u32 = 0;
    let mut i: usize = 0;
    while i < len
        invariant
            len == text@.len(),
            1 <= len <= HEX_DIGITS,
            0 <= i <= len,
            is_hex_text(text@.subrange(0, i as int)),
            value as nat == hex_value(text@.subrange(0, i as int)),
        decreases len - i,
    {
        let c: char = text.get_char(i);
        let ghost before = text@.subrange(0, i as int);
        let ghost after = text@.subrange(0, i as int + 1);
        proof {
            assert(after.drop_last() =~= before);
            assert(after.last() == c);
        }
        match hex_digit_value(c) {
            Some(digit) => {
                proof {
                    assert forall|j: int| 0 <= j < after.len() implies (#[trigger] hex_digit(
                        after[j],
                    )) is Some by {
                        if j < i {
                            assert(after[j] == before[j]);
                        }
                    }
                    lemma_hex_value_bound(after);
                    lemma_eight_digits_fit(after.len());
                }
                value = 16 * value + digit;
            },
            None => {
                proof {
                    assert(text@[i as int] == c);
                }
                return None;
            },
        }
        i = i + 1;
    }
    proof {
        assert(text@.subrange(0, len as int) =~= text@);
    }
    Some(value)
}

impl Device {
    /// The minor device class that a Class of Device, written as one to
    /// eight hexadecimal digits, tells: `Unknown` for any other text.
    pub open spec fn class_of_text(text: Seq<char>) -> MinorDeviceClass {
        match hex_code(text) {
            Some(code) => MinorDeviceClass::of_bits(code as u32),
            None => MinorDeviceClass::Unknown,
        }
    }

    /// The minor device class of a Class of Device that is written in
    /// hexadecimal digits, as in `00240404`.
    pub fn get_class(hex_class: String) -> (class: MinorDeviceClass)
        ensures
            class == Self::class_of_text(hex_class@),
    {
        match parse_hex(hex_class.as_str()) {
            Some(class_bits) => classify(class_bits).minor_device_class,
            None => MinorDeviceClass::Unknown,
        }
    }
}

} // verus!
