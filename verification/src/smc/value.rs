//! SMC keys and values: four-character key codes and the decoding of raw
//! value bytes by data type.
use vstd::prelude::*;

use crate::smc::error::SmcError;
use crate::smc::protocol::SmcKeyInfo;
use crate::text::{all_ascii, ascii_chars, ascii_decodes_bytewise, lossy_text, utf8_lossy};

verus! {

/// The big-endian value of four bytes.
pub open spec fn be_value(b0: u8, b1: u8, b2: u8, b3: u8) -> int {
    b0 * 16777216 + b1 * 65536 + b2 * 256 + b3
}

/// The four bytes of `raw`, most significant first.
pub open spec fn be_bytes(raw: u32) -> Seq<u8> {
    seq![
        (raw / 16777216) as u8,
        ((raw / 65536) % 256) as u8,
        ((raw / 256) % 256) as u8,
        (raw % 256) as u8,
    ]
}

fn be_bytes_exec(raw: u32) -> (bytes: [u8; 4])
    ensures
        bytes@ == be_bytes(raw),
{
    let bytes = [
        (raw / 16777216) as u8,
        ((raw / 65536) % 256) as u8,
        ((raw / 256) % 256) as u8,
        (raw % 256) as u8,
    ];
    assert(bytes@ =~= be_bytes(raw));
    bytes
}

/// The text of a four-character code, as `String::from_utf8_lossy` reads
/// its big-endian bytes.
pub open spec fn spec_key_name(raw: u32) -> Seq<char> {
    utf8_lossy(be_bytes(raw))
}

/// An SMC key: four ASCII characters packed big-endian into a `u32`.
#[derive(Clone, Copy, Debug, PartialEq, Eq, Structural)]
pub struct SmcKey(pub u32);

impl SmcKey {
    /// The key whose code is `bytes`, read big-endian.
    pub fn from_bytes(bytes: [u8; 4]) -> (key: SmcKey)
        ensures
            key.0 == be_value(bytes[0], bytes[1], bytes[2], bytes[3]),
    {
        SmcKey(
            bytes[0] as u32 * 16777216 + bytes[1] as u32 * 65536 + bytes[2] as u32 * 256
                + bytes[3] as u32,
        )
    }

    /// The key written as four characters, each of which must be ASCII.
    pub fn from_chars(c0: char, c1: char, c2: char, c3: char) -> (key: SmcKey)
        requires
            (c0 as u32) < 128,
            (c1 as u32) < 128,
            (c2 as u32) < 128,
            (c3 as u32) < 128,
        ensures
            key.0 == be_value(c0 as u8, c1 as u8, c2 as u8, c3 as u8),
    {
        SmcKey::from_bytes([c0 as u8, c1 as u8, c2 as u8, c3 as u8])
    }

    /// The key's four-character name (invalid UTF-8 replaced); the
    /// characters of its bytes when they are ASCII.
    pub fn name(self) -> (name: String)
        ensures
            name@ == spec_key_name(self.0),
            all_ascii(be_bytes(self.0)) ==> name@ == ascii_chars(be_bytes(self.0)),
    {
        let bytes = be_bytes_exec(self.0);
        proof {
            if all_ascii(bytes@) {
                ascii_decodes_bytewise(bytes@);
            }
        }
        lossy_text(&bytes)
    }

    /// The packed code.
    pub fn raw(self) -> (raw: u32)
        ensures
            raw == self.0,
    {
        self.0
    }

    /// The key with packed code `raw`.
    pub fn from_raw(raw: u32) -> (key: SmcKey)
        ensures
            key.0 == raw,
    {
        SmcKey(raw)
    }
}

/// Type code `flt `: IEEE-754 single precision, little-endian.
pub const TYPE_FLT: u32 = 0x666c7420;

/// Type code `sp78`: signed fixed point with 8 fraction bits, big-endian.
pub const TYPE_SP78: u32 = 0x73703738;

/// Type code `fpe2`: unsigned fixed point with 2 fraction bits, big-endian.
pub const TYPE_FPE2: u32 = 0x66706532;

/// Type code `ui8 `: unsigned 8-bit integer.
pub const TYPE_UI8: u32 = 0x75693820;

/// Type code `ui16`: unsigned 16-bit integer, big-endian.
pub const TYPE_UI16: u32 = 0x75693136;

/// Type code `ui32`: unsigned 32-bit integer, big-endian.
pub const TYPE_UI32: u32 = 0x75693332;

/// How the bytes of a supported SMC value are read.
#[derive(Clone, Copy, Debug, PartialEq, Eq, Structural)]
pub enum Decoder {
    Float,
    SignedFixed7_8,
    UnsignedFixed14_2,
    Unsigned8,
    Unsigned16,
    Unsigned32,
}

/// A decoded SMC value. `Float` carries the bits of a finite IEEE-754 single
/// precision number; `Scaled` is the exact value `numerator / denominator`.
#[derive(Clone, Copy, Debug, PartialEq, Eq, Structural)]
pub enum SmcValue {
    Float { bits: u32 },
    Scaled { numerator: i64, denominator: u32 },
}

/// The decoder for a type code and the value size it requires.
pub open spec fn decoder_for_type(data_type: u32) -> Option<(Decoder, usize)> {
    if data_type == TYPE_FLT {
        Some((Decoder::Float, 4))
    } else if data_type == TYPE_SP78 {
        Some((Decoder::SignedFixed7_8, 2))
    } else if data_type == TYPE_FPE2 {
        Some((Decoder::UnsignedFixed14_2, 2))
    } else if data_type == TYPE_UI8 {
        Some((Decoder::Unsigned8, 1))
    } else if data_type == TYPE_UI16 {
        Some((Decoder::Unsigned16, 2))
    } else if data_type == TYPE_UI32 {
        Some((Decoder::Unsigned32, 4))
    } else {
        None
    }
}

/// Whether `error` is the reason a key with metadata `info` has no decoder:
/// an unsupported type code, or a size that does not match the type.
pub open spec fn rejected_info(info: SmcKeyInfo, error: SmcError) -> bool {
    match decoder_for_type(info.data_type) {
        None => match error {
            SmcError::UnsupportedDataType { data_type } => data_type@ == spec_data_type_name(info),
            _ => false,
        },
        Some((_, size)) => info.data_size != size && match error {
            SmcError::DataTypeSize { data_type, expected, actual } => data_type@
                == spec_data_type_name(info) && expected == size && actual == info.data_size,
            _ => false,
        },
    }
}

/// The four-character name of a key's type code.
pub open spec fn spec_data_type_name(info: SmcKeyInfo) -> Seq<char> {
    utf8_lossy(be_bytes(info.data_type))
}

/// Whether IEEE-754 single-precision `bits` encode a finite number (the
/// exponent field is not all ones).
pub open spec fn f32_bits_finite(bits: u32) -> bool {
    (bits / 8388608) % 256 != 255
}

/// The little-endian value of four bytes.
pub open spec fn le_value(bytes: Seq<u8>) -> int {
    bytes[0] + bytes[1] * 256 + bytes[2] * 65536 + bytes[3] * 16777216
}

/// The big-endian value of two bytes.
pub open spec fn be16_value(bytes: Seq<u8>) -> int {
    bytes[0] * 256 + bytes[1]
}

impl Decoder {
    /// The number of value bytes this decoder reads.
    pub open spec fn spec_size(self) -> usize {
        match self {
            Decoder::Float => 4,
            Decoder::SignedFixed7_8 => 2,
            Decoder::UnsignedFixed14_2 => 2,
            Decoder::Unsigned8 => 1,
            Decoder::Unsigned16 => 2,
            Decoder::Unsigned32 => 4,
        }
    }

    /// The value of `bytes` (which have the decoder's size), or
    /// `NonFiniteValue` for an infinite or NaN float.
    pub open spec fn spec_value(self, bytes: Seq<u8>) -> Result<SmcValue, SmcError> {
        match self {
            Decoder::Float => if f32_bits_finite(le_value(bytes) as u32) {
                Ok(SmcValue::Float { bits: le_value(bytes) as u32 })
            } else {
                Err(SmcError::NonFiniteValue)
            },
            Decoder::SignedFixed7_8 => Ok(
                SmcValue::Scaled {
                    numerator: if be16_value(bytes) >= 32768 {
                        (be16_value(bytes) - 65536) as i64
                    } else {
                        be16_value(bytes) as i64
                    },
                    denominator: 256,
                },
            ),
            Decoder::UnsignedFixed14_2 => Ok(
                SmcValue::Scaled { numerator: be16_value(bytes) as i64, denominator: 4 },
            ),
            Decoder::Unsigned8 => Ok(SmcValue::Scaled { numerator: bytes[0] as i64, denominator: 1 }),
            Decoder::Unsigned16 => Ok(
                SmcValue::Scaled { numerator: be16_value(bytes) as i64, denominator: 1 },
            ),
            Decoder::Unsigned32 => Ok(
                SmcValue::Scaled {
                    numerator: be_value(bytes[0], bytes[1], bytes[2], bytes[3]) as i64,
                    denominator: 1,
                },
            ),
        }
    }

    /// The decoder for the key's type code; fails when the type is not
    /// supported or the key's size does not match the type.
    pub fn from_info(info: SmcKeyInfo) -> (decoder: Result<Decoder, SmcError>)
        ensures
            match decoder {
                Ok(d) => decoder_for_type(info.data_type) == Some((d, info.data_size as usize)),
                Err(e) => rejected_info(info, e),
            },
    {
        let t = info.data_type;
        let (decoder, expected_size) = if t == TYPE_FLT {
            (Decoder::Float, 4usize)
        } else if t == TYPE_SP78 {
            (Decoder::SignedFixed7_8, 2usize)
        } else if t == TYPE_FPE2 {
            (Decoder::UnsignedFixed14_2, 2usize)
        } else if t == TYPE_UI8 {
            (Decoder::Unsigned8, 1usize)
        } else if t == TYPE_UI16 {
            (Decoder::Unsigned16, 2usize)
        } else if t == TYPE_UI32 {
            (Decoder::Unsigned32, 4usize)
        } else {
            return Err(SmcError::UnsupportedDataType { data_type: data_type_name(info) });
        };
        if info.data_size as usize != expected_size {
            return Err(
                SmcError::DataTypeSize {
                    data_type: data_type_name(info),
                    expected: expected_size,
                    actual: info.data_size,
                },
            );
        }
        Ok(decoder)
    }

    /// The number of value bytes this decoder reads.
    pub fn size(self) -> (size: usize)
        ensures
            size == self.spec_size(),
    {
        match self {
            Decoder::Float => 4,
            Decoder::SignedFixed7_8 => 2,
            Decoder::UnsignedFixed14_2 => 2,
            Decoder::Unsigned8 => 1,
            Decoder::Unsigned16 => 2,
            Decoder::Unsigned32 => 4,
        }
    }

    /// Decodes `bytes`, which must be exactly the decoder's size.
    pub fn decode(self, bytes: &[u8]) -> (value: Result<SmcValue, SmcError>)
        ensures
            bytes@.len() == self.spec_size() ==> value == self.spec_value(bytes@),
            bytes@.len() != self.spec_size() ==> value == Err::<SmcValue, SmcError>(
                SmcError::ValueSize { expected: self.spec_size(), actual: bytes@.len() as usize },
            ),
    {
        let expected = self.size();
        if bytes.len() != expected {
            return Err(SmcError::ValueSize { expected, actual: bytes.len() });
        }
        match self {
            Decoder::Float => {
                let bits = bytes[0] as u32 + bytes[1] as u32 * 256 + bytes[2] as u32 * 65536
                    + bytes[3] as u32 * 16777216;
                if (bits / 8388608) % 256 == 255 {
                    Err(SmcError::NonFiniteValue)
                } else {
                    Ok(SmcValue::Float { bits })
                }
            },
            Decoder::SignedFixed7_8 => {
                let raw = bytes[0] as i64 * 256 + bytes[1] as i64;
                let numerator = if raw >= 32768 {
                    raw - 65536
                } else {
                    raw
                };
                Ok(SmcValue::Scaled { numerator, denominator: 256 })
            },
            Decoder::UnsignedFixed14_2 => Ok(
                SmcValue::Scaled {
                    numerator: bytes[0] as i64 * 256 + bytes[1] as i64,
                    denominator: 4,
                },
            ),
            Decoder::Unsigned8 => Ok(SmcValue::Scaled { numerator: bytes[0] as i64, denominator: 1 }),
            Decoder::Unsigned16 => Ok(
                SmcValue::Scaled {
                    numerator: bytes[0] as i64 * 256 + bytes[1] as i64,
                    denominator: 1,
                },
            ),
            Decoder::Unsigned32 => Ok(
                SmcValue::Scaled {
                    numerator: bytes[0] as i64 * 16777216 + bytes[1] as i64 * 65536
                        + bytes[2] as i64 * 256 + bytes[3] as i64,
                    denominator: 1,
                },
            ),
        }
    }
}

/// The four-character name of a key's type code; the characters of its
/// bytes when they are ASCII.
pub fn data_type_name(info: SmcKeyInfo) -> (name: String)
    ensures
        name@ == spec_data_type_name(info),
        all_ascii(be_bytes(info.data_type)) ==> name@ == ascii_chars(be_bytes(info.data_type)),
{
    let bytes = be_bytes_exec(info.data_type);
    proof {
        if all_ascii(bytes@) {
            ascii_decodes_bytewise(bytes@);
        }
    }
    lossy_text(&bytes)
}

/// A key whose type is supported and whose size matches it.
#[derive(Clone, Copy, Debug)]
pub struct ResolvedKey {
    pub key: SmcKey,
    pub info: SmcKeyInfo,
    pub decoder: Decoder,
}

impl ResolvedKey {
    /// Resolves `key` from the metadata the SMC reported for it.
    pub fn resolve(key: SmcKey, info: SmcKeyInfo) -> (resolved: Result<ResolvedKey, SmcError>)
        ensures
            match resolved {
                Ok(r) => r.key == key && r.info == info && decoder_for_type(info.data_type)
                    == Some((r.decoder, info.data_size as usize)),
                Err(e) => rejected_info(info, e),
            },
    {
        let decoder = Decoder::from_info(info)?;
        Ok(ResolvedKey { key, info, decoder })
    }

    /// Decodes the value bytes the SMC returned for this key: the first
    /// `data_size` bytes of the response. A key whose reported size is not
    /// its decoder's, or exceeds the response, gives `ValueSize` with the
    /// decoder's size and the reported one.
    pub fn read(self, response: &[u8]) -> (value: Result<SmcValue, SmcError>)
        ensures
            self.decoder.spec_size() == self.info.data_size && self.info.data_size <= response@.len()
                ==> value == self.decoder.spec_value(response@.subrange(0, self.info.data_size as int)),
            !(self.decoder.spec_size() == self.info.data_size && self.info.data_size <= response@.len())
                ==> value == Err::<SmcValue, SmcError>(
                SmcError::ValueSize {
                    expected: self.decoder.spec_size(),
                    actual: self.info.data_size as usize,
                },
            ),
    {
        if self.decoder.size() != self.info.data_size as usize || self.info.data_size as usize
            > response.len() {
            return Err(
                SmcError::ValueSize {
                    expected: self.decoder.size(),
                    actual: self.info.data_size as usize,
                },
            );
        }
        let size = self.info.data_size as usize;
        let mut prefix: Vec<u8> = Vec::new();
        let mut i: usize = 0;
        while i < size
            invariant
                i <= size,
                size <= response@.len(),
                prefix@ == response@.subrange(0, i as int),
            decreases size - i,
        {
            prefix.push(response[i]);
            assert(prefix@ =~= response@.subrange(0, i + 1));
            i += 1;
        }
        self.decoder.decode(prefix.as_slice())
    }
}

/// A key code and its four bytes determine each other: packing bytes and
/// reading them back gives the same bytes, and every code is the packing of
/// its own bytes.
pub proof fn key_code_round_trip(raw: u32, b0: u8, b1: u8, b2: u8, b3: u8)
    ensures
        be_bytes(be_value(b0, b1, b2, b3) as u32) == seq![b0, b1, b2, b3],
        be_value(be_bytes(raw)[0], be_bytes(raw)[1], be_bytes(raw)[2], be_bytes(raw)[3]) == raw,
{
    let v = be_value(b0, b1, b2, b3);
    assert(0 <= v < 0x1_0000_0000);
    assert(v / 16777216 == b0 && (v / 65536) % 256 == b1 && (v / 256) % 256 == b2 && v % 256
        == b3) by (nonlinear_arith)
        requires
            v == b0 * 16777216 + b1 * 65536 + b2 * 256 + b3,
            0 <= b0 < 256,
            0 <= b1 < 256,
            0 <= b2 < 256,
            0 <= b3 < 256,
    ;
    assert(be_bytes(v as u32) =~= seq![b0, b1, b2, b3]);
    let r = raw as int;
    assert((r / 16777216) * 16777216 + ((r / 65536) % 256) * 65536 + ((r / 256) % 256) * 256 + r
        % 256 == r) by (nonlinear_arith)
        requires
            0 <= r < 0x1_0000_0000,
    ;
    assert(r / 16777216 < 256) by (nonlinear_arith)
        requires
            0 <= r < 0x1_0000_0000,
    ;
}

/// Every decoder reads its bytes as the SMC lays them out: `fpe2` and
/// `ui16` are the big-endian 16-bit integer of the two bytes over 4 and over
/// 1, `sp78` is that integer read as two's complement over 256, `ui8` is the
/// byte itself, `ui32` is the big-endian 32-bit integer, and `flt` carries the
/// little-endian bits of the IEEE-754 single (refused when infinite or NaN).
pub proof fn decoders_read_the_bytes_as_laid_out(bytes: Seq<u8>)
    ensures
        bytes.len() == 2 ==> Decoder::UnsignedFixed14_2.spec_value(bytes) == Ok::<SmcValue, SmcError>(
            SmcValue::Scaled { numerator: (bytes[0] * 256 + bytes[1]) as i64, denominator: 4 },
        ),
        bytes.len() == 2 ==> Decoder::Unsigned16.spec_value(bytes) == Ok::<SmcValue, SmcError>(
            SmcValue::Scaled { numerator: (bytes[0] * 256 + bytes[1]) as i64, denominator: 1 },
        ),
        bytes.len() == 2 ==> Decoder::SignedFixed7_8.spec_value(bytes) == Ok::<SmcValue, SmcError>(
            SmcValue::Scaled {
                numerator: (bytes[0] * 256 + bytes[1] - if bytes[0] >= 128 {
                    65536int
                } else {
                    0int
                }) as i64,
                denominator: 256,
            },
        ),
        bytes.len() == 1 ==> Decoder::Unsigned8.spec_value(bytes) == Ok::<SmcValue, SmcError>(
            SmcValue::Scaled { numerator: bytes[0] as i64, denominator: 1 },
        ),
        bytes.len() == 4 ==> Decoder::Unsigned32.spec_value(bytes) == Ok::<SmcValue, SmcError>(
            SmcValue::Scaled {
                numerator: (bytes[0] * 16777216 + bytes[1] * 65536 + bytes[2] * 256 + bytes[3]) as i64,
                denominator: 1,
            },
        ),
        bytes.len() == 4 ==> match Decoder::Float.spec_value(bytes) {
            Ok(SmcValue::Float { bits }) => bits == bytes[0] + bytes[1] * 256 + bytes[2] * 65536
                + bytes[3] * 16777216 && (bytes[3] % 128) * 2 + bytes[2] / 128 != 255,
            Err(e) => e == SmcError::NonFiniteValue && (bytes[3] % 128) * 2 + bytes[2] / 128 == 255,
            _ => false,
        },
{
    if bytes.len() == 4 {
        let bits = bytes[0] + bytes[1] * 256 + bytes[2] * 65536 + bytes[3] * 16777216;
        assert((bits / 8388608) % 256 == (bytes[3] % 128) * 2 + bytes[2] / 128) by (nonlinear_arith)
            requires
                bits == bytes[0] + bytes[1] * 256 + bytes[2] * 65536 + bytes[3] * 16777216,
                0 <= bytes[0] < 256,
                0 <= bytes[1] < 256,
                0 <= bytes[2] < 256,
                0 <= bytes[3] < 256,
        ;
    }
}

/// A 16-bit reading stored big-endian decodes back to itself: the bytes
/// `[n / 256, n % 256]` give `n / 4` as `fpe2` and `n` as `ui16`.
pub proof fn sixteen_bit_readings_round_trip(n: u16)
    ensures
        Decoder::UnsignedFixed14_2.spec_value(seq![(n / 256) as u8, (n % 256) as u8]) == Ok::<
            SmcValue,
            SmcError,
        >(SmcValue::Scaled { numerator: n as i64, denominator: 4 }),
        Decoder::Unsigned16.spec_value(seq![(n / 256) as u8, (n % 256) as u8]) == Ok::<
            SmcValue,
            SmcError,
        >(SmcValue::Scaled { numerator: n as i64, denominator: 1 }),
{
    let bytes = seq![(n / 256) as u8, (n % 256) as u8];
    decoders_read_the_bytes_as_laid_out(bytes);
    assert((n / 256) * 256 + n % 256 == n) by (nonlinear_arith);
}

} // verus!
