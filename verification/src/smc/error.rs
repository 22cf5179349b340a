//! SMC failures and their broad runtime categories.
use vstd::prelude::*;

use crate::smc::{ERROR_SMC_ACCESS, ERROR_SMC_DATA, ERROR_SMC_IO};

verus! {

/// A failure to access the SMC, to read a key, or to use its value.
#[allow(inconsistent_fields)]
#[derive(Debug)]
pub enum SmcError {
    UnsupportedPlatform,
    ServiceMatching,
    ServiceNotFound,
    Open { status: i32 },
    NullConnection,
    Call { status: i32 },
    OutputSize { actual: usize, expected: usize },
    KeyNotFound { key: String },
    SmcResult { key: String, result: u8 },
    KeyDataSize { key: String, actual: u32, maximum: usize },
    KeyCountSize { actual: u32 },
    UnsupportedDataType { data_type: String },
    DataTypeSize { data_type: String, expected: usize, actual: u32 },
    ValueSize { expected: usize, actual: usize },
    NonFiniteValue,
    CpuBrandSysctl { operation: String, status: i32 },
    EmptyCpuBrand,
    CpuBrandUtf8,
    UnsupportedCpu { brand: String },
    NoSensors,
}

impl SmcError {
    /// The category of this failure: access (the service, connection or CPU
    /// identity), I/O (a call or key lookup) or data (a value that cannot be
    /// used).
    pub open spec fn spec_category_flag(&self) -> u64 {
        match self {
            SmcError::UnsupportedPlatform
            | SmcError::ServiceMatching
            | SmcError::ServiceNotFound
            | SmcError::Open { .. }
            | SmcError::NullConnection
            | SmcError::CpuBrandSysctl { .. }
            | SmcError::EmptyCpuBrand
            | SmcError::CpuBrandUtf8
            | SmcError::UnsupportedCpu { .. } => ERROR_SMC_ACCESS,
            SmcError::Call { .. }
            | SmcError::OutputSize { .. }
            | SmcError::KeyNotFound { .. }
            | SmcError::SmcResult { .. } => ERROR_SMC_IO,
            SmcError::KeyDataSize { .. }
            | SmcError::KeyCountSize { .. }
            | SmcError::UnsupportedDataType { .. }
            | SmcError::DataTypeSize { .. }
            | SmcError::ValueSize { .. }
            | SmcError::NonFiniteValue
            | SmcError::NoSensors => ERROR_SMC_DATA,
        }
    }

    /// Broad failure category for snapshots, CSV and the C ABI.
    pub fn category_flag(&self) -> (flag: u64)
        ensures
            flag == self.spec_category_flag(),
    {
        match self {
            SmcError::UnsupportedPlatform
            | SmcError::ServiceMatching
            | SmcError::ServiceNotFound
            | SmcError::Open { .. }
            | SmcError::NullConnection
            | SmcError::CpuBrandSysctl { .. }
            | SmcError::EmptyCpuBrand
            | SmcError::CpuBrandUtf8
            | SmcError::UnsupportedCpu { .. } => ERROR_SMC_ACCESS,
            SmcError::Call { .. }
            | SmcError::OutputSize { .. }
            | SmcError::KeyNotFound { .. }
            | SmcError::SmcResult { .. } => ERROR_SMC_IO,
            SmcError::KeyDataSize { .. }
            | SmcError::KeyCountSize { .. }
            | SmcError::UnsupportedDataType { .. }
            | SmcError::DataTypeSize { .. }
            | SmcError::ValueSize { .. }
            | SmcError::NonFiniteValue
            | SmcError::NoSensors => ERROR_SMC_DATA,
        }
    }
}

} // verus!
