//! The SMC user-client protocol: key metadata and the rules that turn a raw
//! call result into a value or a failure.
use vstd::prelude::*;
use vstd::string::StringExecFns;

use crate::smc::error::SmcError;
use crate::smc::value::{be_value, spec_key_name, SmcKey};
use crate::text::utf8_text;

verus! {

/// Largest value, in bytes, an SMC key can hold.
pub const MAX_SMC_DATA_SIZE: usize = 32;

/// SMC result code for a key that does not exist.
pub const SMC_KEY_NOT_FOUND: u8 = 0x84;

/// Metadata of one SMC key: value size in bytes, four-character type code
/// (big-endian) and attribute bits.
#[derive(Clone, Copy, Debug, Default, PartialEq, Eq, Structural)]
pub struct SmcKeyInfo {
    pub data_size: u32,
    pub data_type: u32,
    pub data_attributes: u8,
}

/// Whether `outcome` is the verdict on one user-client call made for
/// `key`: the call status must be zero, the returned structure must have
/// `expected_size` bytes, and the SMC result code in it must be zero (0x84
/// means the key does not exist). Errors that name the key carry its name.
pub open spec fn is_call_outcome(
    outcome: Result<(), SmcError>,
    status: i32,
    output_size: usize,
    expected_size: usize,
    result: u8,
    key: SmcKey,
) -> bool {
    if status != 0 {
        outcome matches Err(SmcError::Call { status: s }) && s == status
    } else if output_size != expected_size {
        outcome matches Err(SmcError::OutputSize { actual, expected }) && actual == output_size
            && expected == expected_size
    } else if result == SMC_KEY_NOT_FOUND {
        outcome matches Err(SmcError::KeyNotFound { key: name }) && name@ == spec_key_name(key.0)
    } else if result != 0 {
        outcome matches Err(SmcError::SmcResult { key: name, result: r }) && name@
            == spec_key_name(key.0) && r == result
    } else {
        outcome is Ok
    }
}

/// Decides whether a user-client call made for `key` succeeded.
pub fn call_outcome(
    status: i32,
    output_size: usize,
    expected_size: usize,
    result: u8,
    key: SmcKey,
) -> (outcome: Result<(), SmcError>)
    ensures
        is_call_outcome(outcome, status, output_size, expected_size, result, key),
{
    if status != 0 {
        return Err(SmcError::Call { status });
    }
    if output_size != expected_size {
        return Err(SmcError::OutputSize { actual: output_size, expected: expected_size });
    }
    if result == SMC_KEY_NOT_FOUND {
        return Err(SmcError::KeyNotFound { key: key.name() });
    }
    if result != 0 {
        return Err(SmcError::SmcResult { key: key.name(), result });
    }
    Ok(())
}

/// The metadata of `key`, refused when its value would not fit in a
/// response.
pub fn checked_key_info(key: SmcKey, info: SmcKeyInfo) -> (checked: Result<SmcKeyInfo, SmcError>)
    ensures
        info.data_size <= MAX_SMC_DATA_SIZE ==> checked == Ok::<SmcKeyInfo, SmcError>(info),
        info.data_size > MAX_SMC_DATA_SIZE ==> match checked {
            Err(SmcError::KeyDataSize { key: name, actual, maximum }) => name@ == spec_key_name(
                key.0,
            ) && actual == info.data_size && maximum == MAX_SMC_DATA_SIZE,
            _ => false,
        },
{
    if info.data_size as usize > MAX_SMC_DATA_SIZE {
        return Err(
            SmcError::KeyDataSize {
                key: key.name(),
                actual: info.data_size,
                maximum: MAX_SMC_DATA_SIZE,
            },
        );
    }
    Ok(info)
}

/// The number of SMC keys, from the metadata and value bytes of the `#KEY`
/// key: a big-endian `u32` that must be exactly four bytes long.
pub fn key_count_value(info: SmcKeyInfo, response: &[u8]) -> (count: Result<u32, SmcError>)
    requires
        response@.len() >= 4,
    ensures
        info.data_size == 4 ==> count == Ok::<u32, SmcError>(
            be_value(response@[0], response@[1], response@[2], response@[3]) as u32,
        ),
        info.data_size != 4 ==> count == Err::<u32, SmcError>(
            SmcError::KeyCountSize { actual: info.data_size },
        ),
{
    if info.data_size != 4 {
        return Err(SmcError::KeyCountSize { actual: info.data_size });
    }
    Ok(
        response[0] as u32 * 16777216 + response[1] as u32 * 65536 + response[2] as u32 * 256
            + response[3] as u32,
    )
}

/// Size in bytes of the structure the SMC user client exchanges.
pub const SMC_KEY_DATA_SIZE: usize = 80;

/// Command byte: read the value bytes of a key.
pub const SMC_CMD_READ_BYTES: u8 = 5;

/// Command byte: read the key at an index of the key table.
pub const SMC_CMD_READ_INDEX: u8 = 8;

/// Command byte: read the metadata of a key.
pub const SMC_CMD_READ_KEY_INFO: u8 = 9;

/// The fields of the structure exchanged with the SMC user client that a
/// request sets or a response is read from. The version and power-limit
/// blocks are always zero in requests and unused in responses.
#[derive(Clone, Copy, Debug)]
pub struct SmcKeyData {
    pub key: u32,
    pub key_info: SmcKeyInfo,
    pub result: u8,
    pub status: u8,
    pub data8: u8,
    pub data32: u32,
    pub bytes: [u8; 32],
}

/// Whether `data` is a request: all-zero apart from the key, metadata,
/// command byte and index given.
pub open spec fn is_request(data: SmcKeyData, key: u32, info: SmcKeyInfo, command: u8, index: u32) -> bool {
    &&& data.key == key
    &&& data.key_info == info
    &&& data.result == 0
    &&& data.status == 0
    &&& data.data8 == command
    &&& data.data32 == index
    &&& forall|i: int| 0 <= i < 32 ==> #[trigger] data.bytes@[i] == 0
}

/// Metadata with every field zero.
pub open spec fn no_info() -> SmcKeyInfo {
    SmcKeyInfo { data_size: 0, data_type: 0, data_attributes: 0 }
}

fn request(key: u32, key_info: SmcKeyInfo, command: u8, index: u32) -> (data: SmcKeyData)
    ensures
        is_request(data, key, key_info, command, index),
{
    SmcKeyData { key, key_info, result: 0, status: 0, data8: command, data32: index, bytes: [0u8; 32] }
}

impl SmcKeyData {
    /// The request for the key at `index` of the SMC key table.
    pub fn read_index_request(index: u32) -> (data: SmcKeyData)
        ensures
            is_request(data, 0, no_info(), SMC_CMD_READ_INDEX, index),
    {
        request(0, SmcKeyInfo { data_size: 0, data_type: 0, data_attributes: 0 }, SMC_CMD_READ_INDEX, index)
    }

    /// The request for the metadata of `key`.
    pub fn read_key_info_request(key: SmcKey) -> (data: SmcKeyData)
        ensures
            is_request(data, key.0, no_info(), SMC_CMD_READ_KEY_INFO, 0),
    {
        request(key.0, SmcKeyInfo { data_size: 0, data_type: 0, data_attributes: 0 }, SMC_CMD_READ_KEY_INFO, 0)
    }

    /// The request for the value bytes of `key`, whose metadata is `info`.
    pub fn read_bytes_request(key: SmcKey, info: SmcKeyInfo) -> (data: SmcKeyData)
        ensures
            is_request(data, key.0, info, SMC_CMD_READ_BYTES, 0),
    {
        request(key.0, info, SMC_CMD_READ_BYTES, 0)
    }
}

/// What one user-client call handed back: the call's status, how many bytes
/// it wrote, and the structure it wrote.
#[derive(Clone, Copy, Debug)]
pub struct SmcReply {
    pub status: i32,
    pub output_size: usize,
    pub output: SmcKeyData,
}

/// Whether `outcome` is the verdict on `reply` to a request made for `key`:
/// the output structure when the call succeeded, the failure otherwise.
pub open spec fn is_reply_outcome(outcome: Result<SmcKeyData, SmcError>, reply: SmcReply, key: u32) -> bool {
    match outcome {
        Ok(output) => output == reply.output && is_call_outcome(
            Ok(()),
            reply.status,
            reply.output_size,
            SMC_KEY_DATA_SIZE,
            reply.output.result,
            SmcKey(key),
        ),
        Err(e) => is_call_outcome(
            Err(e),
            reply.status,
            reply.output_size,
            SMC_KEY_DATA_SIZE,
            reply.output.result,
            SmcKey(key),
        ),
    }
}

/// An open connection to the AppleSMC user client.
#[derive(Debug)]
pub struct SmcConnection {
    handle: u32,
}

impl SmcConnection {
    /// The user-client connection handle.
    pub closed spec fn spec_handle(self) -> u32 {
        self.handle
    }

    /// Opens the connection from what the three IOKit steps returned: whether
    /// a matching dictionary for `AppleSMC` was made, the matching service
    /// (zero when none), and the status and handle `IOServiceOpen` gave. A
    /// step is only looked at when the steps before it succeeded.
    pub fn open(matched: bool, service: u32, open_status: i32, handle: u32) -> (connection: Result<
        SmcConnection,
        SmcError,
    >)
        ensures
            !matched ==> connection matches Err(SmcError::ServiceMatching),
            matched && service == 0 ==> connection matches Err(SmcError::ServiceNotFound),
            matched && service != 0 && open_status != 0 ==> (connection matches Err(
                SmcError::Open { status },
            ) && status == open_status),
            matched && service != 0 && open_status == 0 && handle == 0 ==> connection matches Err(
                SmcError::NullConnection,
            ),
            matched && service != 0 && open_status == 0 && handle != 0 ==> (connection matches Ok(c)
                && c.spec_handle() == handle),
    {
        if !matched {
            return Err(SmcError::ServiceMatching);
        }
        if service == 0 {
            return Err(SmcError::ServiceNotFound);
        }
        if open_status != 0 {
            return Err(SmcError::Open { status: open_status });
        }
        if handle == 0 {
            return Err(SmcError::NullConnection);
        }
        Ok(SmcConnection { handle })
    }

    /// The user-client connection handle.
    pub fn handle(&self) -> (handle: u32)
        ensures
            handle == self.spec_handle(),
    {
        self.handle
    }

    /// The output of a call made with `input`, or why the call failed.
    pub fn call(&self, input: &SmcKeyData, reply: SmcReply) -> (outcome: Result<SmcKeyData, SmcError>)
        ensures
            is_reply_outcome(outcome, reply, input.key),
    {
        match call_outcome(
            reply.status,
            reply.output_size,
            SMC_KEY_DATA_SIZE,
            reply.output.result,
            SmcKey(input.key),
        ) {
            Ok(()) => Ok(reply.output),
            Err(e) => Err(e),
        }
    }

    /// The key at `index` of the key table, from the reply to
    /// `SmcKeyData::read_index_request(index)`.
    pub fn key_by_index(&self, index: u32, reply: SmcReply) -> (key: Result<SmcKey, SmcError>)
        ensures
            match key {
                Ok(k) => is_reply_outcome(Ok(reply.output), reply, 0) && k.0 == reply.output.key,
                Err(e) => is_reply_outcome(Err(e), reply, 0),
            },
    {
        let input = SmcKeyData::read_index_request(index);
        let output = self.call(&input, reply)?;
        Ok(SmcKey::from_raw(output.key))
    }

    /// The metadata of `key`, from the reply to
    /// `SmcKeyData::read_key_info_request(key)`; refused when the value would
    /// not fit in a response.
    pub fn read_key_info(&self, key: SmcKey, reply: SmcReply) -> (info: Result<SmcKeyInfo, SmcError>)
        ensures
            is_reply_outcome(Ok(reply.output), reply, key.0) ==> match info {
                Ok(i) => i == reply.output.key_info && i.data_size <= MAX_SMC_DATA_SIZE,
                Err(SmcError::KeyDataSize { key: name, actual, maximum }) => reply.output.key_info.data_size
                    > MAX_SMC_DATA_SIZE && name@ == spec_key_name(key.0) && actual
                    == reply.output.key_info.data_size && maximum == MAX_SMC_DATA_SIZE,
                _ => false,
            },
            !is_reply_outcome(Ok(reply.output), reply, key.0) ==> (info matches Err(e)
                && is_reply_outcome(Err(e), reply, key.0)),
    {
        let input = SmcKeyData::read_key_info_request(key);
        let output = self.call(&input, reply)?;
        checked_key_info(key, output.key_info)
    }

    /// The value bytes of `key`, from the reply to
    /// `SmcKeyData::read_bytes_request(key, info)`.
    pub fn read_bytes(&self, key: SmcKey, info: SmcKeyInfo, reply: SmcReply) -> (bytes: Result<
        [u8; 32],
        SmcError,
    >)
        ensures
            match bytes {
                Ok(b) => is_reply_outcome(Ok(reply.output), reply, key.0) && b@ == reply.output.bytes@,
                Err(e) => is_reply_outcome(Err(e), reply, key.0),
            },
    {
        let input = SmcKeyData::read_bytes_request(key, info);
        let output = self.call(&input, reply)?;
        Ok(output.bytes)
    }

    /// The number of SMC keys, from the metadata `info` of the `#KEY` key and
    /// the reply to reading its bytes: a big-endian `u32` that must be
    /// exactly four bytes long.
    pub fn key_count(&self, info: SmcKeyInfo, reply: SmcReply) -> (count: Result<u32, SmcError>)
        ensures
            is_reply_outcome(Ok(reply.output), reply, key_count_key()) ==> {
                &&& info.data_size == 4 ==> count == Ok::<u32, SmcError>(
                    be_value(
                        reply.output.bytes@[0],
                        reply.output.bytes@[1],
                        reply.output.bytes@[2],
                        reply.output.bytes@[3],
                    ) as u32,
                )
                &&& info.data_size != 4 ==> count == Err::<u32, SmcError>(
                    SmcError::KeyCountSize { actual: info.data_size },
                )
            },
            !is_reply_outcome(Ok(reply.output), reply, key_count_key()) ==> (count matches Err(e)
                && is_reply_outcome(Err(e), reply, key_count_key())),
    {
        let key = SmcKey::from_bytes([35u8, 75u8, 69u8, 89u8]);
        let bytes = self.read_bytes(key, info, reply)?;
        key_count_value(info, &bytes)
    }
}

/// The code of the `#KEY` key, which holds the number of keys.
pub open spec fn key_count_key() -> u32 {
    be_value(35, 75, 69, 89) as u32
}

/// The length the `machdep.cpu.brand_string` sysctl reported, from the
/// status and length of the query; a brand of at most one byte (the NUL) is
/// empty.
pub fn brand_length(status: i32, length: usize) -> (checked: Result<usize, SmcError>)
    ensures
        status != 0 ==> (checked matches Err(SmcError::CpuBrandSysctl { operation, status: s })
            && operation@ == "query CPU brand length"@ && s == status),
        status == 0 && length <= 1 ==> checked matches Err(SmcError::EmptyCpuBrand),
        status == 0 && length > 1 ==> checked == Ok::<usize, SmcError>(length),
{
    if status != 0 {
        return Err(
            SmcError::CpuBrandSysctl {
                operation: String::from_str("query CPU brand length"),
                status,
            },
        );
    }
    if length <= 1 {
        return Err(SmcError::EmptyCpuBrand);
    }
    Ok(length)
}

/// The first `length` of `bytes`, without one trailing NUL.
pub open spec fn brand_bytes(bytes: Seq<u8>, length: nat) -> Seq<u8> {
    let kept = if length < bytes.len() {
        bytes.subrange(0, length as int)
    } else {
        bytes
    };
    if kept.len() > 0 && kept.last() == 0 {
        kept.drop_last()
    } else {
        kept
    }
}

/// The CPU brand from the read of the `machdep.cpu.brand_string` sysctl:
/// its status, the buffer and the length written. The text is the first
/// `length` bytes without the terminating NUL, and must be UTF-8.
pub fn brand_text(status: i32, bytes: Vec<u8>, length: usize) -> (brand: Result<String, SmcError>)
    ensures
        status != 0 ==> (brand matches Err(SmcError::CpuBrandSysctl { operation, status: s })
            && operation@ == "read CPU brand"@ && s == status),
        status == 0 && vstd::utf8::valid_utf8(brand_bytes(bytes@, length as nat)) ==> (brand matches Ok(
            text,
        ) && text@ == vstd::utf8::decode_utf8(brand_bytes(bytes@, length as nat))),
        status == 0 && !vstd::utf8::valid_utf8(brand_bytes(bytes@, length as nat)) ==> brand matches Err(
            SmcError::CpuBrandUtf8,
        ),
{
    if status != 0 {
        return Err(SmcError::CpuBrandSysctl { operation: String::from_str("read CPU brand"), status });
    }
    let mut kept = bytes;
    kept.truncate(length);
    let n = kept.len();
    if n > 0 && kept[n - 1] == 0 {
        kept.pop();
    }
    proof {
        assert(kept@ =~= brand_bytes(bytes@, length as nat));
    }
    match utf8_text(kept) {
        Some(text) => Ok(text),
        None => Err(SmcError::CpuBrandUtf8),
    }
}

} // verus!
