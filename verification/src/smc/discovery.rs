//! The full-catalog SMC diagnostics: what each key's replies give, and the
//! hexadecimal rendering of raw values.
use vstd::prelude::*;

use crate::smc::error::SmcError;
use crate::smc::protocol::{SmcKeyInfo, MAX_SMC_DATA_SIZE};
use crate::smc::value::{
    data_type_name, decoder_for_type, rejected_info, spec_data_type_name, spec_key_name, Decoder,
    SmcKey, SmcValue,
};
use crate::text::push_char;

verus! {

/// The lowercase hexadecimal digit for `d` (`d < 16`).
pub open spec fn hex_digit(d: nat) -> char {
    if d < 10 {
        ((48 + d) as u8) as char
    } else {
        ((87 + d) as u8) as char
    }
}

/// Two lowercase hexadecimal digits per byte, high nibble first.
pub open spec fn hex_text(bytes: Seq<u8>) -> Seq<char>
    decreases bytes.len(),
{
    if bytes.len() == 0 {
        Seq::empty()
    } else {
        hex_text(bytes.drop_last()).push(hex_digit((bytes.last() / 16) as nat)).push(
            hex_digit((bytes.last() % 16) as nat),
        )
    }
}

fn hex_digit_exec(d: u8) -> (c: char)
    requires
        d < 16,
    ensures
        c == hex_digit(d as nat),
{
    if d < 10 {
        (48 + d) as char
    } else {
        (87 + d) as char
    }
}

/// Raw value bytes as stable lowercase hexadecimal.
pub fn hex(bytes: &[u8]) -> (text: String)
    ensures
        text@ == hex_text(bytes@),
{
    let mut text = String::new();
    let mut i: usize = 0;
    while i < bytes.len()
        invariant
            i <= bytes@.len(),
            text@ == hex_text(bytes@.subrange(0, i as int)),
        decreases bytes@.len() - i,
    {
        let byte = bytes[i];
        push_char(&mut text, hex_digit_exec(byte / 16));
        push_char(&mut text, hex_digit_exec(byte % 16));
        assert(bytes@.subrange(0, i + 1).drop_last() =~= bytes@.subrange(0, i as int));
        i += 1;
    }
    assert(bytes@.subrange(0, bytes@.len() as int) =~= bytes@);
    text
}

/// Whether `c` is a lowercase hexadecimal digit.
pub open spec fn is_lower_hex(c: char) -> bool {
    ('0' <= c <= '9') || ('a' <= c <= 'f')
}

/// The value of a lowercase hexadecimal digit.
pub open spec fn hex_value(c: char) -> int {
    if c <= '9' {
        c as int - 48
    } else {
        c as int - 87
    }
}

/// Raw bytes render as two lowercase hexadecimal digits each, high nibble
/// first, so the text has twice as many characters as there are bytes and
/// reads back to the same bytes.
pub proof fn hex_text_reads_back(bytes: Seq<u8>)
    ensures
        hex_text(bytes).len() == 2 * bytes.len(),
        forall|i: int| 0 <= i < hex_text(bytes).len() ==> is_lower_hex(#[trigger] hex_text(bytes)[i]),
        forall|i: int|
            0 <= i < bytes.len() ==> 16 * hex_value(hex_text(bytes)[2 * i]) + hex_value(
                hex_text(bytes)[2 * i + 1],
            ) == #[trigger] bytes[i],
    decreases bytes.len(),
{
    if bytes.len() > 0 {
        let init = bytes.drop_last();
        hex_text_reads_back(init);
        let b = bytes.last();
        let t = hex_text(bytes);
        let hi = (b / 16) as nat;
        let lo = (b % 16) as nat;
        assert(t[2 * init.len() as int] == hex_digit(hi));
        assert(t[2 * init.len() as int + 1] == hex_digit(lo));
        assert forall|i: int| 0 <= i < t.len() implies is_lower_hex(#[trigger] t[i]) by {
            if i < 2 * init.len() {
                assert(t[i] == hex_text(init)[i]);
            }
        }
        assert forall|i: int|
            0 <= i < bytes.len() implies 16 * hex_value(t[2 * i]) + hex_value(t[2 * i + 1])
            == #[trigger] bytes[i] by {
            if i < init.len() {
                assert(t[2 * i] == hex_text(init)[2 * i]);
                assert(t[2 * i + 1] == hex_text(init)[2 * i + 1]);
                assert(bytes[i] == init[i]);
            }
        }
    }
}

/// One key of a full diagnostic scan: its index, name, type and size, raw
/// value bytes in hexadecimal, and the decoded value or the first failure.
/// What could not be read is left empty.
#[derive(Debug)]
pub struct KeyDiagnosis {
    pub index: u32,
    pub key: String,
    pub data_type: String,
    pub data_size: u32,
    pub raw_hex: String,
    pub value: Option<SmcValue>,
    pub error: Option<SmcError>,
}

/// Whether `value` and `error` are what decoding `raw`, a value of a key
/// with metadata `info`, gives: the decoder for the key's type when its size
/// matches, else the refusal of the metadata.
pub open spec fn scan_decoding(info: SmcKeyInfo, raw: Seq<u8>, value: Option<SmcValue>, error: Option<SmcError>) -> bool {
    match decoder_for_type(info.data_type) {
        Some((d, size)) if info.data_size == size => match d.spec_value(raw) {
            Ok(v) => value == Some(v) && error is None,
            Err(e) => value is None && error == Some(e),
        },
        _ => value is None && (error matches Some(e) && rejected_info(info, e)),
    }
}

/// The diagnosis of key `index` from the replies read for it, in order: the
/// key at the index, then its metadata (read once the key is known), then its
/// value bytes (read once the metadata is known). The first failure is kept:
/// a failed key read leaves everything else empty, a failed metadata read
/// keeps the name, a failed value read keeps the type and size too.
pub fn diagnose_key(
    index: u32,
    key: Result<SmcKey, SmcError>,
    info: Option<Result<SmcKeyInfo, SmcError>>,
    bytes: Option<Result<[u8; 32], SmcError>>,
) -> (d: KeyDiagnosis)
    requires
        key is Ok <==> info is Some,
        (info matches Some(Ok(_))) <==> bytes is Some,
        info matches Some(Ok(i)) ==> i.data_size <= MAX_SMC_DATA_SIZE,
    ensures
        d.index == index,
        match key {
            Err(e) => {
                &&& d.key@ == Seq::<char>::empty()
                &&& d.data_type@ == Seq::<char>::empty()
                &&& d.data_size == 0
                &&& d.raw_hex@ == Seq::<char>::empty()
                &&& d.value is None
                &&& d.error == Some(e)
            },
            Ok(k) => d.key@ == spec_key_name(k.0) && match info->0 {
                Err(e) => {
                    &&& d.data_type@ == Seq::<char>::empty()
                    &&& d.data_size == 0
                    &&& d.raw_hex@ == Seq::<char>::empty()
                    &&& d.value is None
                    &&& d.error == Some(e)
                },
                Ok(i) => d.data_type@ == spec_data_type_name(i) && d.data_size == i.data_size && match bytes->0 {
                    Err(e) => d.raw_hex@ == Seq::<char>::empty() && d.value is None && d.error == Some(e),
                    Ok(b) => {
                        let raw = b@.subrange(0, i.data_size as int);
                        d.raw_hex@ == hex_text(raw) && scan_decoding(i, raw, d.value, d.error)
                    },
                },
            },
        },
{
    let key = match key {
        Ok(k) => k,
        Err(e) => {
            return KeyDiagnosis {
                index,
                key: String::new(),
                data_type: String::new(),
                data_size: 0,
                raw_hex: String::new(),
                value: None,
                error: Some(e),
            };
        },
    };
    let name = key.name();
    let info = match info {
        Some(Ok(i)) => i,
        Some(Err(e)) => {
            return KeyDiagnosis {
                index,
                key: name,
                data_type: String::new(),
                data_size: 0,
                raw_hex: String::new(),
                value: None,
                error: Some(e),
            };
        },
        None => {
            assert(false);
            return KeyDiagnosis {
                index,
                key: name,
                data_type: String::new(),
                data_size: 0,
                raw_hex: String::new(),
                value: None,
                error: None,
            };
        },
    };
    let bytes = match bytes {
        Some(Ok(b)) => b,
        Some(Err(e)) => {
            return KeyDiagnosis {
                index,
                key: name,
                data_type: data_type_name(info),
                data_size: info.data_size,
                raw_hex: String::new(),
                value: None,
                error: Some(e),
            };
        },
        None => {
            assert(false);
            return KeyDiagnosis {
                index,
                key: name,
                data_type: data_type_name(info),
                data_size: info.data_size,
                raw_hex: String::new(),
                value: None,
                error: None,
            };
        },
    };
    let size = info.data_size as usize;
    let mut raw: Vec<u8> = Vec::new();
    let mut i: usize = 0;
    while i < size
        invariant
            i <= size,
            size == info.data_size,
            size <= bytes@.len(),
            raw@ == bytes@.subrange(0, i as int),
        decreases size - i,
    {
        raw.push(bytes[i]);
        assert(raw@ =~= bytes@.subrange(0, i + 1));
        i += 1;
    }
    let (value, error) = match Decoder::from_info(info) {
        Ok(decoder) => match decoder.decode(raw.as_slice()) {
            Ok(v) => (Some(v), None),
            Err(e) => (None, Some(e)),
        },
        Err(e) => (None, Some(e)),
    };
    KeyDiagnosis {
        index,
        key: name,
        data_type: data_type_name(info),
        data_size: info.data_size,
        raw_hex: hex(raw.as_slice()),
        value,
        error,
    }
}

} // verus!
