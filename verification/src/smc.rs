//! Typed, read-only AppleSMC sensor access: key naming, value decoding,
//! sensor catalogs and the outcome rules of the SMC user-client protocol.
//!
//! Normal sampling resolves a bounded catalog once and then issues value
//! reads only; full key enumeration is a separate diagnostics path.
pub mod catalog;
pub mod discovery;
pub mod error;
pub mod protocol;
pub mod value;

use vstd::prelude::*;

use crate::smc::catalog::{catalog_for_brand, codes, power_codes, Catalog, ChipFamily, SensorRole};
use crate::smc::error::SmcError;
use crate::smc::protocol::SmcConnection;
use crate::smc::value::ResolvedKey;

verus! {

/// Capability bit: CPU temperature sensors resolved.
pub const CAPABILITY_CPU_TEMPERATURE: u64 = 1;

/// Capability bit: fan speed sensors resolved.
pub const CAPABILITY_FAN_SPEED: u64 = 2;

/// Capability bit: system power sensor resolved.
pub const CAPABILITY_SYSTEM_POWER: u64 = 4;

/// Error bit: a CPU temperature read failed or was implausible.
pub const ERROR_CPU_TEMPERATURE: u64 = 1;

/// Error bit: a fan speed read failed or was implausible.
pub const ERROR_FAN_SPEED: u64 = 2;

/// Error bit: the system power read failed or was implausible.
pub const ERROR_SYSTEM_POWER: u64 = 4;

/// Error bit: the SMC provider could not be initialized.
pub const ERROR_SMC_INITIALIZATION: u64 = 256;

/// Error category: the SMC (or the CPU identity) could not be accessed.
pub const ERROR_SMC_ACCESS: u64 = 512;

/// Error category: an SMC call or key lookup failed.
pub const ERROR_SMC_IO: u64 = 1024;

/// Error category: the SMC returned data that could not be used.
pub const ERROR_SMC_DATA: u64 = 2048;

/// The keys of one sensor role that resolved and read back a plausible value
/// at initialization.
#[derive(Debug)]
pub struct SensorReader {
    pub role: SensorRole,
    pub keys: Vec<ResolvedKey>,
}

impl SensorReader {
    /// The reader of `role` over `keys`.
    pub fn new(role: SensorRole, keys: Vec<ResolvedKey>) -> (reader: SensorReader)
        ensures
            reader.role == role,
            reader.keys@ == keys@,
    {
        SensorReader { role, keys }
    }

    /// The capability of the role when at least one key resolved, else zero.
    pub open spec fn spec_capability(&self) -> u64 {
        if self.keys@.len() == 0 {
            0
        } else {
            self.role.spec_capability()
        }
    }

    /// The capability bit this reader provides.
    pub fn capability(&self) -> (flag: u64)
        ensures
            flag == self.spec_capability(),
    {
        if self.keys.len() == 0 {
            0
        } else {
            self.role.capability()
        }
    }
}

/// The sensor catalog for the CPU named by `brand`, or `UnsupportedCpu` with
/// the brand when its chip family is unknown.
pub fn catalog_for_cpu(brand: String) -> (catalog: Result<Catalog, SmcError>)
    ensures
        match ChipFamily::spec_from_brand(brand@) {
            None => catalog matches Err(SmcError::UnsupportedCpu { brand: b }) && b@ == brand@,
            Some(family) => catalog matches Ok(c) && codes(c.cpu_temperatures@)
                == family.spec_temperatures() && codes(c.power@) == power_codes(),
        },
{
    match catalog_for_brand(brand.as_str()) {
        Some(catalog) => Ok(catalog),
        None => Err(SmcError::UnsupportedCpu { brand }),
    }
}

/// The SMC sensors resolved at initialization: CPU temperatures, fan speeds
/// and system power, read over one connection.
#[derive(Debug)]
pub struct SmcProvider {
    connection: SmcConnection,
    temperatures: SensorReader,
    fans: SensorReader,
    power: SensorReader,
    capability_flags: u64,
}

impl SmcProvider {
    /// The capability bits of the provider: one per role that resolved a key.
    pub closed spec fn spec_capability_flags(self) -> u64 {
        self.capability_flags
    }

    /// The provider over `connection` with the resolved readers, or
    /// `NoSensors` when no role resolved a key.
    pub fn new(connection: SmcConnection, temperatures: SensorReader, fans: SensorReader, power: SensorReader) -> (provider:
        Result<SmcProvider, SmcError>)
        requires
            temperatures.role == SensorRole::CpuTemperature,
            fans.role == SensorRole::FanSpeed,
            power.role == SensorRole::SystemPower,
        ensures
            temperatures.keys@.len() == 0 && fans.keys@.len() == 0 && power.keys@.len() == 0 ==> (
            provider matches Err(SmcError::NoSensors)),
            !(temperatures.keys@.len() == 0 && fans.keys@.len() == 0 && power.keys@.len() == 0)
                ==> (provider matches Ok(p) && p.spec_capability_flags() == (
            temperatures.spec_capability() | fans.spec_capability() | power.spec_capability())
                && p.spec_readers() == (temperatures, fans, power) && p.spec_connection()
                == connection),
            provider matches Ok(p) ==> p.spec_capability_flags() != 0,
    {
        let flags = temperatures.capability() | fans.capability() | power.capability();
        proof {
            let t = temperatures.spec_capability();
            let f = fans.spec_capability();
            let w = power.spec_capability();
            assert(t == 0 || t == 1);
            assert(f == 0 || f == 2);
            assert(w == 0 || w == 4);
            assert((t | f | w) == 0 <==> (t == 0 && f == 0 && w == 0)) by (bit_vector)
                requires
                    t == 0 || t == 1,
                    f == 0 || f == 2,
                    w == 0 || w == 4,
            ;
        }
        if flags == 0 {
            return Err(SmcError::NoSensors);
        }
        Ok(SmcProvider { connection, temperatures, fans, power, capability_flags: flags })
    }

    /// The capability bits of the provider.
    pub fn capability_flags(&self) -> (flags: u64)
        ensures
            flags == self.spec_capability_flags(),
    {
        self.capability_flags
    }

    /// The connection the provider reads over.
    pub closed spec fn spec_connection(self) -> SmcConnection {
        self.connection
    }

    /// The connection the provider reads over.
    pub fn connection(&self) -> (connection: &SmcConnection)
        ensures
            *connection == self.spec_connection(),
    {
        &self.connection
    }

    /// The readers of CPU temperatures, fan speeds and system power.
    pub closed spec fn spec_readers(self) -> (SensorReader, SensorReader, SensorReader) {
        (self.temperatures, self.fans, self.power)
    }

    /// The readers of CPU temperatures, fan speeds and system power.
    pub fn readers(&self) -> (readers: (&SensorReader, &SensorReader, &SensorReader))
        ensures
            (*readers.0, *readers.1, *readers.2) == self.spec_readers(),
    {
        (&self.temperatures, &self.fans, &self.power)
    }
}

/// The error bits of one sensor sample from whether each role had a failed
/// or implausible read.
pub fn sample_error_flags(temperature_failed: bool, fan_failed: bool, power_failed: bool) -> (flags:
    u64)
    ensures
        flags == (if temperature_failed {
            ERROR_CPU_TEMPERATURE
        } else {
            0
        }) + (if fan_failed {
            ERROR_FAN_SPEED
        } else {
            0
        }) + (if power_failed {
            ERROR_SYSTEM_POWER
        } else {
            0
        }),
{
    let mut flags: u64 = 0;
    if temperature_failed {
        flags = flags + ERROR_CPU_TEMPERATURE;
    }
    if fan_failed {
        flags = flags + ERROR_FAN_SPEED;
    }
    if power_failed {
        flags = flags + ERROR_SYSTEM_POWER;
    }
    flags
}

} // verus!
