//! The bytes of the IMEI handshake and of frame acknowledgements.
use vstd::prelude::*;
use vstd::string::StringSliceAdditionalSpecFns;
use vstd::utf8::{decode_utf8, encode_utf8, valid_utf8};

use crate::bigendian::u32_be_bytes;
use crate::error::IoError;
use crate::text::{all_ascii_digits, is_all_ascii_digits};
use crate::text::string_from_utf8;

verus! {

/// The longest IMEI a device may announce.
pub const MAX_IMEI_LEN: usize = 32;

/// The IMEI length that the two-byte big-endian prefix announces, if it is
/// between 1 and `MAX_IMEI_LEN`.
pub fn imei_length(len_buf: [u8; 2]) -> (r: Result<usize, IoError>)
    ensures
        ({
            let n = len_buf[0] as int * 256 + len_buf[1] as int;
            r == if n == 0 || n > MAX_IMEI_LEN {
                Err::<usize, IoError>(IoError::InvalidImeiLength(n as usize))
            } else {
                Ok::<usize, IoError>(n as usize)
            }
        }),
{
    let imei_len = (len_buf[0] as usize) * 256 + len_buf[1] as usize;
    if imei_len == 0 || imei_len > MAX_IMEI_LEN {
        return Err(IoError::InvalidImeiLength(imei_len));
    }
    Ok(imei_len)
}

/// Checks the IMEI bytes that followed a length prefix announcing
/// `imei_len` bytes: they must be UTF-8 of exactly that length, and ASCII
/// digits.
pub fn parse_imei(imei_bytes: Vec<u8>, imei_len: usize) -> (r: Result<String, IoError>)
    ensures
        !valid_utf8(imei_bytes@) ==> r == Err::<String, IoError>(IoError::ImeiNotUtf8),
        valid_utf8(imei_bytes@) ==> {
            let imei = decode_utf8(imei_bytes@);
            if imei_bytes@.len() != imei_len || !all_ascii_digits(imei) {
                r matches Err(IoError::InvalidImeiFormat(s)) && s@ == imei
            } else {
                r matches Ok(s) && s@ == imei
            }
        },
{
    let ghost bytes = imei_bytes@;
    let byte_len = imei_bytes.len();
    let imei = match string_from_utf8(imei_bytes) {
        Some(s) => s,
        None => return Err(IoError::ImeiNotUtf8),
    };
    proof {
        vstd::utf8::decode_utf8_encode_utf8(bytes);
    }
    let text = imei.as_str();
    assert(text.spec_bytes() == bytes);
    assert(text.spec_bytes().len() == byte_len);
    if text.len() != imei_len || !is_all_ascii_digits(text) {
        return Err(IoError::InvalidImeiFormat(imei));
    }
    Ok(imei)
}

/// The byte that answers a device's IMEI: 1 to accept it, 0 to refuse.
pub fn imei_handshake_byte(accepted: bool) -> (b: u8)
    ensures
        b == (if accepted { 1u8 } else { 0u8 }),
{
    if accepted {
        0x01u8
    } else {
        0x00u8
    }
}

/// The acknowledgement of an AVL frame: the number of accepted records as a
/// big-endian `u32`.
pub fn frame_ack_bytes(record_count: u8) -> (ack: Vec<u8>)
    ensures
        ack@ == u32_be_bytes(record_count as nat),
{
    let ack: Vec<u8> = vec![0, 0, 0, record_count];
    proof {
        let y = (record_count as nat) % 0x1_0000_0000;
        assert(y == record_count);
        assert(y / 0x100_0000 == 0);
        assert(ack@ =~= u32_be_bytes(record_count as nat));
    }
    ack
}

/// The acknowledgement of a frame is three zero bytes and then the record
/// count, and it reads back, big-endian, as the record count.
pub proof fn lemma_frame_ack_reads_back(record_count: u8)
    ensures
        u32_be_bytes(record_count as nat) == seq![0u8, 0u8, 0u8, record_count],
        crate::bigendian::be_value(u32_be_bytes(record_count as nat)) == record_count,
{
    crate::bigendian::lemma_u32_be_bytes_roundtrip(record_count as nat);
    assert(u32_be_bytes(record_count as nat) =~= seq![0u8, 0u8, 0u8, record_count]);
}

} // verus!
