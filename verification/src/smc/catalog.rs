//! The bounded sensor catalogs: which SMC keys carry CPU temperature and
//! system power on each Apple Silicon family, and what each sensor role
//! reports.
use vstd::prelude::*;

use crate::smc::value::{be_value, SmcKey};
use crate::smc::{CAPABILITY_CPU_TEMPERATURE, CAPABILITY_FAN_SPEED, CAPABILITY_SYSTEM_POWER};
use crate::text::{contains_str, contains_text};

verus! {

/// The packed code of a key written as four ASCII characters.
pub open spec fn key_code(c0: char, c1: char, c2: char, c3: char) -> u32 {
    be_value(c0 as u8, c1 as u8, c2 as u8, c3 as u8) as u32
}

/// The packed codes of a list of keys.
pub open spec fn codes(keys: Seq<SmcKey>) -> Seq<u32> {
    keys.map_values(|k: SmcKey| k.0)
}

fn key(c0: char, c1: char, c2: char, c3: char) -> (k: SmcKey)
    requires
        (c0 as u32) < 128,
        (c1 as u32) < 128,
        (c2 as u32) < 128,
        (c3 as u32) < 128,
    ensures
        k.0 == key_code(c0, c1, c2, c3),
{
    SmcKey::from_chars(c0, c1, c2, c3)
}

/// CPU temperature keys of the M1 family.
pub open spec fn m1_temperature_codes() -> Seq<u32> {
    seq![
        key_code('T', 'p', '0', '9'),
        key_code('T', 'p', '0', 'T'),
        key_code('T', 'p', '0', '1'),
        key_code('T', 'p', '0', '5'),
        key_code('T', 'p', '0', 'D'),
        key_code('T', 'p', '0', 'H'),
        key_code('T', 'p', '0', 'L'),
        key_code('T', 'p', '0', 'P'),
        key_code('T', 'p', '0', 'X'),
        key_code('T', 'p', '0', 'b'),
    ]
}

fn m1_temperatures() -> (keys: Vec<SmcKey>)
    ensures
        codes(keys@) == m1_temperature_codes(),
{
    let mut keys: Vec<SmcKey> = Vec::new();
    keys.push(key('T', 'p', '0', '9'));
    keys.push(key('T', 'p', '0', 'T'));
    keys.push(key('T', 'p', '0', '1'));
    keys.push(key('T', 'p', '0', '5'));
    keys.push(key('T', 'p', '0', 'D'));
    keys.push(key('T', 'p', '0', 'H'));
    keys.push(key('T', 'p', '0', 'L'));
    keys.push(key('T', 'p', '0', 'P'));
    keys.push(key('T', 'p', '0', 'X'));
    keys.push(key('T', 'p', '0', 'b'));
    assert(codes(keys@) =~= m1_temperature_codes());
    keys
}

/// CPU temperature keys of the M2 family.
pub open spec fn m2_temperature_codes() -> Seq<u32> {
    seq![
        key_code('T', 'p', '1', 'h'),
        key_code('T', 'p', '1', 't'),
        key_code('T', 'p', '1', 'p'),
        key_code('T', 'p', '1', 'l'),
        key_code('T', 'p', '0', '1'),
        key_code('T', 'p', '0', '5'),
        key_code('T', 'p', '0', '9'),
        key_code('T', 'p', '0', 'D'),
        key_code('T', 'p', '0', 'X'),
        key_code('T', 'p', '0', 'b'),
        key_code('T', 'p', '0', 'f'),
        key_code('T', 'p', '0', 'j'),
    ]
}

fn m2_temperatures() -> (keys: Vec<SmcKey>)
    ensures
        codes(keys@) == m2_temperature_codes(),
{
    let mut keys: Vec<SmcKey> = Vec::new();
    keys.push(key('T', 'p', '1', 'h'));
    keys.push(key('T', 'p', '1', 't'));
    keys.push(key('T', 'p', '1', 'p'));
    keys.push(key('T', 'p', '1', 'l'));
    keys.push(key('T', 'p', '0', '1'));
    keys.push(key('T', 'p', '0', '5'));
    keys.push(key('T', 'p', '0', '9'));
    keys.push(key('T', 'p', '0', 'D'));
    keys.push(key('T', 'p', '0', 'X'));
    keys.push(key('T', 'p', '0', 'b'));
    keys.push(key('T', 'p', '0', 'f'));
    keys.push(key('T', 'p', '0', 'j'));
    assert(codes(keys@) =~= m2_temperature_codes());
    keys
}

/// CPU temperature keys of the M3 family.
pub open spec fn m3_temperature_codes() -> Seq<u32> {
    seq![
        key_code('T', 'e', '0', '5'),
        key_code('T', 'e', '0', 'L'),
        key_code('T', 'e', '0', 'P'),
        key_code('T', 'e', '0', 'S'),
        key_code('T', 'f', '0', '4'),
        key_code('T', 'f', '0', '9'),
        key_code('T', 'f', '0', 'A'),
        key_code('T', 'f', '0', 'B'),
        key_code('T', 'f', '0', 'D'),
        key_code('T', 'f', '0', 'E'),
        key_code('T', 'f', '4', '4'),
        key_code('T', 'f', '4', '9'),
        key_code('T', 'f', '4', 'A'),
        key_code('T', 'f', '4', 'B'),
        key_code('T', 'f', '4', 'D'),
        key_code('T', 'f', '4', 'E'),
    ]
}

fn m3_temperatures() -> (keys: Vec<SmcKey>)
    ensures
        codes(keys@) == m3_temperature_codes(),
{
    let mut keys: Vec<SmcKey> = Vec::new();
    keys.push(key('T', 'e', '0', '5'));
    keys.push(key('T', 'e', '0', 'L'));
    keys.push(key('T', 'e', '0', 'P'));
    keys.push(key('T', 'e', '0', 'S'));
    keys.push(key('T', 'f', '0', '4'));
    keys.push(key('T', 'f', '0', '9'));
    keys.push(key('T', 'f', '0', 'A'));
    keys.push(key('T', 'f', '0', 'B'));
    keys.push(key('T', 'f', '0', 'D'));
    keys.push(key('T', 'f', '0', 'E'));
    keys.push(key('T', 'f', '4', '4'));
    keys.push(key('T', 'f', '4', '9'));
    keys.push(key('T', 'f', '4', 'A'));
    keys.push(key('T', 'f', '4', 'B'));
    keys.push(key('T', 'f', '4', 'D'));
    keys.push(key('T', 'f', '4', 'E'));
    assert(codes(keys@) =~= m3_temperature_codes());
    keys
}

/// CPU temperature keys of the M4 family.
pub open spec fn m4_temperature_codes() -> Seq<u32> {
    seq![
        key_code('T', 'e', '0', '5'),
        key_code('T', 'e', '0', 'S'),
        key_code('T', 'e', '0', '9'),
        key_code('T', 'e', '0', 'H'),
        key_code('T', 'p', '0', '1'),
        key_code('T', 'p', '0', '5'),
        key_code('T', 'p', '0', '9'),
        key_code('T', 'p', '0', 'D'),
        key_code('T', 'p', '0', 'V'),
        key_code('T', 'p', '0', 'Y'),
        key_code('T', 'p', '0', 'b'),
        key_code('T', 'p', '0', 'e'),
    ]
}

fn m4_temperatures() -> (keys: Vec<SmcKey>)
    ensures
        codes(keys@) == m4_temperature_codes(),
{
    let mut keys: Vec<SmcKey> = Vec::new();
    keys.push(key('T', 'e', '0', '5'));
    keys.push(key('T', 'e', '0', 'S'));
    keys.push(key('T', 'e', '0', '9'));
    keys.push(key('T', 'e', '0', 'H'));
    keys.push(key('T', 'p', '0', '1'));
    keys.push(key('T', 'p', '0', '5'));
    keys.push(key('T', 'p', '0', '9'));
    keys.push(key('T', 'p', '0', 'D'));
    keys.push(key('T', 'p', '0', 'V'));
    keys.push(key('T', 'p', '0', 'Y'));
    keys.push(key('T', 'p', '0', 'b'));
    keys.push(key('T', 'p', '0', 'e'));
    assert(codes(keys@) =~= m4_temperature_codes());
    keys
}

/// CPU temperature keys of the M5 family.
pub open spec fn m5_temperature_codes() -> Seq<u32> {
    seq![
        key_code('T', 'p', '0', '0'),
        key_code('T', 'p', '0', '4'),
        key_code('T', 'p', '0', '8'),
        key_code('T', 'p', '0', 'C'),
        key_code('T', 'p', '0', 'G'),
        key_code('T', 'p', '0', 'K'),
        key_code('T', 'p', '0', 'O'),
        key_code('T', 'p', '0', 'R'),
        key_code('T', 'p', '0', 'U'),
        key_code('T', 'p', '0', 'X'),
        key_code('T', 'p', '0', 'a'),
        key_code('T', 'p', '0', 'd'),
        key_code('T', 'p', '0', 'g'),
        key_code('T', 'p', '0', 'j'),
        key_code('T', 'p', '0', 'm'),
        key_code('T', 'p', '0', 'p'),
        key_code('T', 'p', '0', 'u'),
        key_code('T', 'p', '0', 'y'),
    ]
}

fn m5_temperatures() -> (keys: Vec<SmcKey>)
    ensures
        codes(keys@) == m5_temperature_codes(),
{
    let mut keys: Vec<SmcKey> = Vec::new();
    keys.push(key('T', 'p', '0', '0'));
    keys.push(key('T', 'p', '0', '4'));
    keys.push(key('T', 'p', '0', '8'));
    keys.push(key('T', 'p', '0', 'C'));
    keys.push(key('T', 'p', '0', 'G'));
    keys.push(key('T', 'p', '0', 'K'));
    keys.push(key('T', 'p', '0', 'O'));
    keys.push(key('T', 'p', '0', 'R'));
    keys.push(key('T', 'p', '0', 'U'));
    keys.push(key('T', 'p', '0', 'X'));
    keys.push(key('T', 'p', '0', 'a'));
    keys.push(key('T', 'p', '0', 'd'));
    keys.push(key('T', 'p', '0', 'g'));
    keys.push(key('T', 'p', '0', 'j'));
    keys.push(key('T', 'p', '0', 'm'));
    keys.push(key('T', 'p', '0', 'p'));
    keys.push(key('T', 'p', '0', 'u'));
    keys.push(key('T', 'p', '0', 'y'));
    assert(codes(keys@) =~= m5_temperature_codes());
    keys
}

/// The system power key (`PSTR`).
pub open spec fn power_codes() -> Seq<u32> {
    seq![key_code('P', 'S', 'T', 'R')]
}

fn power_keys() -> (keys: Vec<SmcKey>)
    ensures
        codes(keys@) == power_codes(),
{
    let mut keys: Vec<SmcKey> = Vec::new();
    keys.push(key('P', 'S', 'T', 'R'));
    assert(codes(keys@) =~= power_codes());
    keys
}

/// An Apple Silicon chip family.
#[derive(Clone, Copy, Debug, PartialEq, Eq, Structural)]
pub enum ChipFamily {
    M1,
    M2,
    M3,
    M4,
    M5,
}

impl ChipFamily {
    /// The first family (M1 through M5) whose name occurs in the CPU brand
    /// string.
    pub open spec fn spec_from_brand(brand: Seq<char>) -> Option<ChipFamily> {
        if contains_text(brand, "M1"@) {
            Some(ChipFamily::M1)
        } else if contains_text(brand, "M2"@) {
            Some(ChipFamily::M2)
        } else if contains_text(brand, "M3"@) {
            Some(ChipFamily::M3)
        } else if contains_text(brand, "M4"@) {
            Some(ChipFamily::M4)
        } else if contains_text(brand, "M5"@) {
            Some(ChipFamily::M5)
        } else {
            None
        }
    }

    /// The chip family named in a CPU brand string such as
    /// `Apple M4 Pro`.
    pub fn from_brand(brand: &str) -> (family: Option<ChipFamily>)
        ensures
            family == ChipFamily::spec_from_brand(brand@),
    {
        if contains_str(brand, "M1") {
            Some(ChipFamily::M1)
        } else if contains_str(brand, "M2") {
            Some(ChipFamily::M2)
        } else if contains_str(brand, "M3") {
            Some(ChipFamily::M3)
        } else if contains_str(brand, "M4") {
            Some(ChipFamily::M4)
        } else if contains_str(brand, "M5") {
            Some(ChipFamily::M5)
        } else {
            None
        }
    }

    /// The CPU temperature keys of this family.
    pub open spec fn spec_temperatures(self) -> Seq<u32> {
        match self {
            ChipFamily::M1 => m1_temperature_codes(),
            ChipFamily::M2 => m2_temperature_codes(),
            ChipFamily::M3 => m3_temperature_codes(),
            ChipFamily::M4 => m4_temperature_codes(),
            ChipFamily::M5 => m5_temperature_codes(),
        }
    }

    /// The CPU temperature keys of this family.
    pub fn temperatures(self) -> (keys: Vec<SmcKey>)
        ensures
            codes(keys@) == self.spec_temperatures(),
    {
        match self {
            ChipFamily::M1 => m1_temperatures(),
            ChipFamily::M2 => m2_temperatures(),
            ChipFamily::M3 => m3_temperatures(),
            ChipFamily::M4 => m4_temperatures(),
            ChipFamily::M5 => m5_temperatures(),
        }
    }
}

/// The keys to resolve for one chip: CPU temperatures and system power.
#[derive(Debug)]
pub struct Catalog {
    pub cpu_temperatures: Vec<SmcKey>,
    pub power: Vec<SmcKey>,
}

/// The catalog for the chip named in a CPU brand string, if its family is
/// known.
pub fn catalog_for_brand(brand: &str) -> (catalog: Option<Catalog>)
    ensures
        match ChipFamily::spec_from_brand(brand@) {
            None => catalog is None,
            Some(family) => catalog matches Some(c) && codes(c.cpu_temperatures@)
                == family.spec_temperatures() && codes(c.power@) == power_codes(),
        },
{
    let family = ChipFamily::from_brand(brand)?;
    Some(Catalog { cpu_temperatures: family.temperatures(), power: power_keys() })
}

/// What a resolved sensor reports.
#[derive(Clone, Copy, Debug, PartialEq, Eq, Structural)]
pub enum SensorRole {
    CpuTemperature,
    FanSpeed,
    SystemPower,
}

impl SensorRole {
    pub open spec fn spec_capability(self) -> u64 {
        match self {
            SensorRole::CpuTemperature => CAPABILITY_CPU_TEMPERATURE,
            SensorRole::FanSpeed => CAPABILITY_FAN_SPEED,
            SensorRole::SystemPower => CAPABILITY_SYSTEM_POWER,
        }
    }

    /// The capability bit a resolved sensor of this role provides.
    pub fn capability(self) -> (flag: u64)
        ensures
            flag == self.spec_capability(),
    {
        match self {
            SensorRole::CpuTemperature => CAPABILITY_CPU_TEMPERATURE,
            SensorRole::FanSpeed => CAPABILITY_FAN_SPEED,
            SensorRole::SystemPower => CAPABILITY_SYSTEM_POWER,
        }
    }
}

/// The fan speed key of fan `index` (`F<index>Ac`).
pub open spec fn fan_code(index: u8) -> u32 {
    be_value(70, (48 + index) as u8, 65, 99) as u32
}

/// The fan speed keys of the first `count` fans (at most ten).
pub fn fan_keys(count: u8) -> (keys: Vec<SmcKey>)
    requires
        count <= 10,
    ensures
        codes(keys@) == Seq::new(count as nat, |i: int| fan_code(i as u8)),
{
    let mut keys: Vec<SmcKey> = Vec::new();
    let mut index: u8 = 0;
    while index < count
        invariant
            index <= count <= 10,
            codes(keys@) == Seq::new(index as nat, |i: int| fan_code(i as u8)),
        decreases count - index,
    {
        let k = SmcKey::from_bytes([70, 48 + index, 65, 99]);
        assert(k.0 == fan_code(index));
        let ghost before = keys@;
        keys.push(k);
        assert(codes(keys@) =~= codes(before).push(k.0));
        assert(codes(keys@) =~= Seq::new((index + 1) as nat, |i: int| fan_code(i as u8)));
        index += 1;
    }
    keys
}

} // verus!
