//! Codec 12: text commands sent to a device and the device's text responses.
use vstd::prelude::*;
use vstd::string::StringSliceAdditionalSpecFns;
use vstd::utf8::{decode_utf8, encode_utf8, valid_utf8};

use crate::bigendian::{be_value, read_u32_be_at, u32_be_bytes};
use crate::error::IoError;
use crate::text::string_from_utf8;
use crate::units::utils::Cur;

verus! {

pub const CODEC12_ID: u8 = 0x0C;

pub const COMMAND_TYPE: u8 = 0x05;

pub const RESPONSE_TYPE: u8 = 0x06;

// ==================================
//        CRC-16/IBM (ARC)
// ==================================

/// One step of the reflected CRC-16 with polynomial 0xA001.
pub open spec fn crc_shift(c: u16) -> u16 {
    if c & 1 != 0 {
        (c >> 1) ^ 0xA001
    } else {
        c >> 1
    }
}

/// `k` steps of `crc_shift`.
pub open spec fn crc_shifts(c: u16, k: nat) -> u16
    decreases k,
{
    if k == 0 {
        c
    } else {
        crc_shift(crc_shifts(c, (k - 1) as nat))
    }
}

/// The CRC after feeding one more byte.
pub open spec fn crc_byte(c: u16, b: u8) -> u16 {
    crc_shifts(c ^ (b as u16), 8)
}

/// The CRC-16/IBM of `s`, with initial value 0.
pub open spec fn crc16(s: Seq<u8>) -> u16
    decreases s.len(),
{
    if s.len() == 0 {
        0
    } else {
        crc_byte(crc16(s.drop_last()), s.last())
    }
}

/// CRC-16/IBM of `data`, starting from 0 (the checksum of Teltonika frames).
pub fn crc16_ibm(data: &[u8]) -> (crc: u16)
    ensures
        crc == crc16(data@),
{
    let mut crc: u16 = 0;
    let mut i: usize = 0;
    while i < data.len()
        invariant
            i <= data@.len(),
            crc == crc16(data@.take(i as int)),
        decreases data@.len() - i,
    {
        let byte = data[i];
        let ghost start = crc ^ (byte as u16);
        crc = crc ^ (byte as u16);
        let mut j: usize = 0;
        while j < 8
            invariant
                j <= 8,
                crc == crc_shifts(start, j as nat),
            decreases 8 - j,
        {
            if crc & 1 != 0 {
                crc = (crc >> 1) ^ 0xA001;
            } else {
                crc = crc >> 1;
            }
            j = j + 1;
        }
        proof {
            assert(data@.take(i + 1).drop_last() =~= data@.take(i as int));
        }
        i = i + 1;
    }
    proof {
        assert(data@.take(data@.len() as int) =~= data@);
    }
    crc
}

// ==================================
//        Frame layout
// ==================================

/// The data part of a Codec 12 frame carrying one message:
/// codec id, quantity, type, size(4), payload, quantity.
pub open spec fn codec12_data(kind: u8, quantity: u8, payload: Seq<u8>) -> Seq<u8> {
    seq![CODEC12_ID, quantity, kind] + u32_be_bytes(payload.len()) + payload + seq![quantity]
}

/// A whole Codec 12 frame: preamble, data size(4), data, CRC(4).
pub open spec fn codec12_frame(kind: u8, quantity: u8, payload: Seq<u8>) -> Seq<u8> {
    let data = codec12_data(kind, quantity, payload);
    seq![0u8, 0u8, 0u8, 0u8] + u32_be_bytes(data.len()) + data + u32_be_bytes(crc16(data) as nat)
}

/// The response text of a Codec 12 frame, or why it is refused. Bytes after
/// the second quantity are not looked at.
pub open spec fn spec_parse_response_frame(f: Seq<u8>) -> Result<Seq<char>, IoError> {
    if f.len() < 4 + 4 + 1 + 1 + 1 + 4 + 1 + 4 {
        Err(IoError::Codec12TooShort)
    } else if f.subrange(0, 4) != seq![0u8, 0u8, 0u8, 0u8] {
        Err(IoError::Codec12MissingPreamble)
    } else {
        let dl = be_value(f.subrange(4, 8)) as int;
        if f.len() != 8 + dl + 4 {
            Err(IoError::Codec12LengthMismatch)
        } else {
            let data = f.subrange(8, 8 + dl);
            let expected = be_value(f.subrange(8 + dl, 12 + dl));
            let actual = crc16(data);
            if expected != actual {
                Err(IoError::Codec12CrcMismatch { expected: expected as u32, actual: actual as u32 })
            } else if data[0] != CODEC12_ID {
                Err(IoError::Codec12UnexpectedCodecId(data[0]))
            } else if data[2] != RESPONSE_TYPE {
                Err(IoError::Codec12UnexpectedMessageType(data[2]))
            } else {
                let size = be_value(data.subrange(3, 7)) as int;
                if 7 + size + 1 > data.len() {
                    Err(IoError::NotEnoughBytes)
                } else if data[1] != data[7 + size] {
                    Err(IoError::Codec12QuantityMismatch)
                } else {
                    let response = data.subrange(7, 7 + size);
                    if valid_utf8(response) {
                        Ok(decode_utf8(response))
                    } else {
                        Err(IoError::Codec12NotUtf8)
                    }
                }
            }
        }
    }
}

pub open spec fn response_result_view(r: Result<String, IoError>) -> Result<Seq<char>, IoError> {
    match r {
        Ok(s) => Ok(s@),
        Err(e) => Err(e),
    }
}

// ==================================
//        Code
// ==================================

/// Appends the four big-endian bytes of `x mod 2^32`.
fn push_u32_be(v: &mut Vec<u8>, x: u64)
    ensures
        final(v)@ == old(v)@ + u32_be_bytes(x as nat),
{
    let y = x % 0x1_0000_0000;
    v.push((y / 0x100_0000) as u8);
    v.push(((y / 0x1_0000) % 256) as u8);
    v.push(((y / 256) % 256) as u8);
    v.push((y % 256) as u8);
    assert(final(v)@ =~= old(v)@ + u32_be_bytes(x as nat));
}

/// Appends the bytes of `s`.
fn push_bytes(v: &mut Vec<u8>, s: &[u8])
    ensures
        final(v)@ == old(v)@ + s@,
{
    let mut i: usize = 0;
    while i < s.len()
        invariant
            i <= s@.len(),
            v@ == old(v)@ + s@.take(i as int),
        decreases s@.len() - i,
    {
        v.push(s[i]);
        i = i + 1;
        assert(v@ =~= old(v)@ + s@.take(i as int));
    }
    assert(s@.take(s@.len() as int) =~= s@);
}

/// Builds the Codec 12 frame that sends `command` to a device.
pub fn build_command_frame(command: &str) -> (frame: Vec<u8>)
    requires
        command.spec_bytes().len() + 20 <= isize::MAX,
    ensures
        frame@ == codec12_frame(COMMAND_TYPE, 1, command.spec_bytes()),
{
    let command_bytes = command.as_bytes();
    let data_size = 1 + 1 + 1 + 4 + command_bytes.len() + 1;

    let mut frame: Vec<u8> = Vec::with_capacity(8 + data_size + 4);
    push_bytes(&mut frame, &[0, 0, 0, 0]);  // Preamble 4 bytes
    push_u32_be(&mut frame, data_size as u64);  // Data size from codec ID to second quantity
    frame.push(CODEC12_ID);
    frame.push(0x01);  // one command per frame
    frame.push(COMMAND_TYPE);
    push_u32_be(&mut frame, command_bytes.len() as u64);  // Command size in bytes
    push_bytes(&mut frame, command_bytes);
    frame.push(0x01);  // one command per frame

    let ghost data = codec12_data(COMMAND_TYPE, 1, command.spec_bytes());
    let data_part = vstd::slice::slice_subrange(frame.as_slice(), 8, frame.len());
    assert(data_part@ =~= data);
    let crc = crc16_ibm(data_part);
    push_u32_be(&mut frame, crc as u64);
    assert(frame@ =~= codec12_frame(COMMAND_TYPE, 1, command.spec_bytes()));
    frame
}

/// Decodes a Codec 12 response frame into its text.
pub fn parse_response_frame(frame: &[u8]) -> (r: Result<String, IoError>)
    ensures
        response_result_view(r) == spec_parse_response_frame(frame@),
{
    if frame.len() < 4 + 4 + 1 + 1 + 1 + 4 + 1 + 4 {
        return Err(IoError::Codec12TooShort);
    }
    if frame[0] != 0 || frame[1] != 0 || frame[2] != 0 || frame[3] != 0 {
        assert(frame@.subrange(0, 4) != seq![0u8, 0u8, 0u8, 0u8]) by {
            if frame@.subrange(0, 4) == seq![0u8, 0u8, 0u8, 0u8] {
                assert(frame@.subrange(0, 4)[0] == frame@[0]);
                assert(frame@.subrange(0, 4)[1] == frame@[1]);
                assert(frame@.subrange(0, 4)[2] == frame@[2]);
                assert(frame@.subrange(0, 4)[3] == frame@[3]);
            }
        }
        return Err(IoError::Codec12MissingPreamble);
    }
    assert(frame@.subrange(0, 4) =~= seq![0u8, 0u8, 0u8, 0u8]);

    let data_len = read_u32_be_at(frame, 4);
    if frame.len() as u64 != 8 + data_len as u64 + 4 {
        return Err(IoError::Codec12LengthMismatch);
    }
    let data_len = data_len as usize;

    let expected_crc = read_u32_be_at(frame, 8 + data_len);
    let data = vstd::slice::slice_subrange(frame, 8, 8 + data_len);
    let actual_crc = crc16_ibm(data) as u32;
    if expected_crc != actual_crc {
        return Err(IoError::Codec12CrcMismatch { expected: expected_crc, actual: actual_crc });
    }

    let mut cur = Cur::new(data);
    let codec_id = cur.u8()?;
    assert(data@.subrange(0, 1).drop_last() =~= Seq::<u8>::empty());
    assert(be_value(data@.subrange(0, 1).drop_last()) == 0);
    if codec_id != CODEC12_ID {
        return Err(IoError::Codec12UnexpectedCodecId(codec_id));
    }

    let quantity_1 = cur.u8()?;
    assert(data@.subrange(1, 2).drop_last() =~= Seq::<u8>::empty());
    assert(be_value(data@.subrange(1, 2).drop_last()) == 0);
    let message_type = cur.u8()?;
    assert(data@.subrange(2, 3).drop_last() =~= Seq::<u8>::empty());
    assert(be_value(data@.subrange(2, 3).drop_last()) == 0);
    if message_type != RESPONSE_TYPE {
        return Err(IoError::Codec12UnexpectedMessageType(message_type));
    }

    let response_size = cur.u32()? as usize;
    let response = cur.take(response_size)?;
    let quantity_2 = cur.u8()?;
    let ghost p2 = 7 + response_size;
    assert(data@.subrange(p2, p2 + 1).drop_last() =~= Seq::<u8>::empty());
    assert(be_value(data@.subrange(p2, p2 + 1).drop_last()) == 0);

    if quantity_1 != quantity_2 {
        return Err(IoError::Codec12QuantityMismatch);
    }

    match string_from_utf8(vstd::slice::slice_to_vec(response)) {
        Some(s) => Ok(s),
        None => Err(IoError::Codec12NotUtf8),
    }
}

// ==================================
//        Laws
// ==================================

/// A step of the CRC is linear over XOR.
proof fn lemma_crc_shift_xor(a: u16, b: u16)
    ensures
        crc_shift(a ^ b) == crc_shift(a) ^ crc_shift(b),
{
    assert(crc_shift(a ^ b) == crc_shift(a) ^ crc_shift(b)) by (bit_vector);
}

/// `k` steps of the CRC are linear over XOR.
proof fn lemma_crc_shifts_xor(a: u16, b: u16, k: nat)
    ensures
        crc_shifts(a ^ b, k) == crc_shifts(a, k) ^ crc_shifts(b, k),
    decreases k,
{
    if k > 0 {
        lemma_crc_shifts_xor(a, b, (k - 1) as nat);
        lemma_crc_shift_xor(crc_shifts(a, (k - 1) as nat), crc_shifts(b, (k - 1) as nat));
    }
}

/// Eight steps move the high byte down unchanged.
proof fn lemma_crc_shifts_high_byte(c: u16)
    ensures
        crc_shifts(c & 0xFF00, 8) == c >> 8,
{
    let h0 = c & 0xFF00u16;
    let h1 = crc_shift(h0);
    assert(h1 == (c & 0xFF00u16) >> 1) by (bit_vector)
        requires
            h0 == c & 0xFF00u16,
            h1 == crc_shift(h0),
    ;
    let h2 = crc_shift(h1);
    assert(h2 == (c & 0xFF00u16) >> 2) by (bit_vector)
        requires
            h1 == (c & 0xFF00u16) >> 1,
            h2 == crc_shift(h1),
    ;
    let h3 = crc_shift(h2);
    assert(h3 == (c & 0xFF00u16) >> 3) by (bit_vector)
        requires
            h2 == (c & 0xFF00u16) >> 2,
            h3 == crc_shift(h2),
    ;
    let h4 = crc_shift(h3);
    assert(h4 == (c & 0xFF00u16) >> 4) by (bit_vector)
        requires
            h3 == (c & 0xFF00u16) >> 3,
            h4 == crc_shift(h3),
    ;
    let h5 = crc_shift(h4);
    assert(h5 == (c & 0xFF00u16) >> 5) by (bit_vector)
        requires
            h4 == (c & 0xFF00u16) >> 4,
            h5 == crc_shift(h4),
    ;
    let h6 = crc_shift(h5);
    assert(h6 == (c & 0xFF00u16) >> 6) by (bit_vector)
        requires
            h5 == (c & 0xFF00u16) >> 5,
            h6 == crc_shift(h5),
    ;
    let h7 = crc_shift(h6);
    assert(h7 == (c & 0xFF00u16) >> 7) by (bit_vector)
        requires
            h6 == (c & 0xFF00u16) >> 6,
            h7 == crc_shift(h6),
    ;
    let h8 = crc_shift(h7);
    assert(h8 == c >> 8) by (bit_vector)
        requires
            h7 == (c & 0xFF00u16) >> 7,
            h8 == crc_shift(h7),
    ;
    reveal_with_fuel(crc_shifts, 9);
}

/// CRC-16/ARC runs a byte at a time through a table of single-byte CRCs:
/// appending the byte `b` to `s` shifts the high byte of `crc16(s)` down and
/// XORs in the CRC of the one byte `(low byte of crc16(s)) ^ b`. The byte
/// enters the CRC as the unsigned number it is.
pub proof fn lemma_crc16_push(s: Seq<u8>, b: u8)
    ensures
        crc16(s.push(b)) == (crc16(s) >> 8) ^ crc16(seq![((crc16(s) % 256) as u8) ^ b]),
{
    let c = crc16(s);
    let x: u8 = ((c % 256) as u8) ^ b;
    assert(s.push(b).drop_last() =~= s);
    assert(seq![x].drop_last() =~= Seq::<u8>::empty());
    assert(crc16(Seq::<u8>::empty()) == 0);
    assert(seq![x].last() == x);
    assert(crc16(seq![x]) == crc_byte(0, x));
    assert(c ^ (b as u16) == (c & 0xFF00u16) ^ (x as u16)) by (bit_vector)
        requires
            x == ((c % 256) as u8) ^ b,
    ;
    assert(0u16 ^ (x as u16) == x as u16) by (bit_vector);
    lemma_crc_shifts_xor(c & 0xFF00u16, x as u16, 8);
    lemma_crc_shifts_high_byte(c);
}

/// The CRC of a single byte, in terms of `crc_shifts`.
proof fn lemma_crc16_one_byte(x: u8)
    ensures
        crc16(seq![x]) == crc_shifts(x as u16, 8),
{
    assert(seq![x].drop_last() =~= Seq::<u8>::empty());
    assert(crc16(Seq::<u8>::empty()) == 0);
    assert(seq![x].last() == x);
    assert(0u16 ^ (x as u16) == x as u16) by (bit_vector);
}

/// The CRC of a single byte is linear in the byte, and on the eight one-bit
/// bytes it takes the values of the reflected polynomial 0xA001 (CRC-16/ARC):
/// together these fix the CRC of every byte.
pub proof fn lemma_crc16_single_byte(a: u8, b: u8)
    ensures
        crc16(seq![a ^ b]) == crc16(seq![a]) ^ crc16(seq![b]),
        crc16(seq![0x01u8]) == 0xC0C1,
        crc16(seq![0x02u8]) == 0xC181,
        crc16(seq![0x04u8]) == 0xC301,
        crc16(seq![0x08u8]) == 0xC601,
        crc16(seq![0x10u8]) == 0xCC01,
        crc16(seq![0x20u8]) == 0xD801,
        crc16(seq![0x40u8]) == 0xF001,
        crc16(seq![0x80u8]) == 0xA001,
{
    lemma_crc16_one_byte(a);
    lemma_crc16_one_byte(b);
    lemma_crc16_one_byte(a ^ b);
    assert((a ^ b) as u16 == (a as u16) ^ (b as u16)) by (bit_vector);
    lemma_crc_shifts_xor(a as u16, b as u16, 8);
    lemma_crc16_one_byte(0x01);
    lemma_crc16_one_byte(0x02);
    lemma_crc16_one_byte(0x04);
    lemma_crc16_one_byte(0x08);
    lemma_crc16_one_byte(0x10);
    lemma_crc16_one_byte(0x20);
    lemma_crc16_one_byte(0x40);
    lemma_crc16_one_byte(0x80);
    reveal_with_fuel(crc_shifts, 9);
    assert(crc_shift(crc_shift(crc_shift(crc_shift(crc_shift(crc_shift(crc_shift(crc_shift(0x01u16)))))))) == 0xC0C1u16) by (bit_vector);
    assert(crc_shift(crc_shift(crc_shift(crc_shift(crc_shift(crc_shift(crc_shift(crc_shift(0x02u16)))))))) == 0xC181u16) by (bit_vector);
    assert(crc_shift(crc_shift(crc_shift(crc_shift(crc_shift(crc_shift(crc_shift(crc_shift(0x04u16)))))))) == 0xC301u16) by (bit_vector);
    assert(crc_shift(crc_shift(crc_shift(crc_shift(crc_shift(crc_shift(crc_shift(crc_shift(0x08u16)))))))) == 0xC601u16) by (bit_vector);
    assert(crc_shift(crc_shift(crc_shift(crc_shift(crc_shift(crc_shift(crc_shift(crc_shift(0x10u16)))))))) == 0xCC01u16) by (bit_vector);
    assert(crc_shift(crc_shift(crc_shift(crc_shift(crc_shift(crc_shift(crc_shift(crc_shift(0x20u16)))))))) == 0xD801u16) by (bit_vector);
    assert(crc_shift(crc_shift(crc_shift(crc_shift(crc_shift(crc_shift(crc_shift(crc_shift(0x40u16)))))))) == 0xF001u16) by (bit_vector);
    assert(crc_shift(crc_shift(crc_shift(crc_shift(crc_shift(crc_shift(crc_shift(crc_shift(0x80u16)))))))) == 0xA001u16) by (bit_vector);
}

/// What the response decoder accepts is a well-formed Codec 12 response:
/// four zero bytes, a data length that the frame fills exactly, a trailer
/// holding the CRC-16/IBM of the data, codec 0x0C, message type 0x06, a
/// response size that fits, and equal quantities around the response; the
/// text is the UTF-8 decoding of the response bytes.
pub proof fn lemma_accepted_response_is_well_formed(f: Seq<u8>)
    ensures
        spec_parse_response_frame(f) matches Ok(text) ==> {
            let dl = be_value(f.subrange(4, 8)) as int;
            let data = f.subrange(8, 8 + dl);
            let size = be_value(data.subrange(3, 7)) as int;
            &&& f[0] == 0 && f[1] == 0 && f[2] == 0 && f[3] == 0
            &&& f.len() == dl + 12
            &&& be_value(f.subrange(8 + dl, 12 + dl)) == crc16(data)
            &&& data[0] == 0x0C
            &&& data[2] == 0x06
            &&& 7 + size + 1 <= dl
            &&& data[1] == data[7 + size]
            &&& valid_utf8(data.subrange(7, 7 + size))
            &&& text == decode_utf8(data.subrange(7, 7 + size))
        },
        f.len() >= 4 && (f[0] != 0 || f[1] != 0 || f[2] != 0 || f[3] != 0) ==> spec_parse_response_frame(f) is Err,
{
    if f.len() >= 4 {
        let pre = f.subrange(0, 4);
        if pre == seq![0u8, 0u8, 0u8, 0u8] {
            assert(pre[0] == f[0] && pre[1] == f[1] && pre[2] == f[2] && pre[3] == f[3]);
        }
    }
}

/// The fields of a Codec 12 frame sit where the decoder looks for them.
pub proof fn lemma_codec12_frame_layout(kind: u8, quantity: u8, payload: Seq<u8>)
    requires
        payload.len() + 8 < 0x1_0000_0000,
    ensures
        ({
            let data = codec12_data(kind, quantity, payload);
            let f = codec12_frame(kind, quantity, payload);
            &&& data.len() == payload.len() + 8
            &&& f.len() == data.len() + 12
            &&& f.subrange(0, 4) == seq![0u8, 0u8, 0u8, 0u8]
            &&& be_value(f.subrange(4, 8)) == data.len()
            &&& f.subrange(8, 8 + data.len() as int) == data
            &&& be_value(f.subrange(8 + data.len() as int, 12 + data.len() as int)) == crc16(data)
            &&& data[0] == CODEC12_ID
            &&& data[1] == quantity
            &&& data[2] == kind
            &&& be_value(data.subrange(3, 7)) == payload.len()
            &&& data[7 + payload.len() as int] == quantity
            &&& data.subrange(7, 7 + payload.len() as int) == payload
        }),
{
    let data = codec12_data(kind, quantity, payload);
    let f = codec12_frame(kind, quantity, payload);
    crate::bigendian::lemma_u32_be_bytes_roundtrip(payload.len());
    crate::bigendian::lemma_u32_be_bytes_roundtrip(data.len());
    crate::bigendian::lemma_u32_be_bytes_roundtrip(crc16(data) as nat);
    assert(data.subrange(3, 7) =~= u32_be_bytes(payload.len()));
    assert(data.subrange(7, 7 + payload.len() as int) =~= payload);
    assert(f.subrange(0, 4) =~= seq![0u8, 0u8, 0u8, 0u8]);
    assert(f.subrange(4, 8) =~= u32_be_bytes(data.len()));
    assert(f.subrange(8, 8 + data.len() as int) =~= data);
    assert(f.subrange(8 + data.len() as int, 12 + data.len() as int) =~= u32_be_bytes(crc16(data) as nat));
}

/// A Codec 12 response frame built around a UTF-8 text decodes back to
/// that text.
pub proof fn lemma_response_frame_roundtrip(quantity: u8, payload: Seq<u8>)
    requires
        payload.len() + 8 < 0x1_0000_0000,
        valid_utf8(payload),
    ensures
        spec_parse_response_frame(codec12_frame(RESPONSE_TYPE, quantity, payload)) == Ok::<
            Seq<char>,
            IoError,
        >(decode_utf8(payload)),
{
    lemma_codec12_frame_layout(RESPONSE_TYPE, quantity, payload);
}

/// Turning the message type of a command frame for `text` into the response
/// type and writing its CRC anew over the data gives the response frame for
/// `text`, and the response decoder gives `text` back from it.
pub proof fn lemma_retyped_command_frame_decodes_to_text(text: Seq<char>)
    requires
        encode_utf8(text).len() + 8 < 0x1_0000_0000,
    ensures
        ({
            let payload = encode_utf8(text);
            let n = payload.len() as int;
            let retyped = codec12_frame(COMMAND_TYPE, 1, payload).update(10, RESPONSE_TYPE);
            let f = retyped.subrange(0, 16 + n) + u32_be_bytes(
                crc16(retyped.subrange(8, 16 + n)) as nat,
            );
            &&& f == codec12_frame(RESPONSE_TYPE, 1, payload)
            &&& spec_parse_response_frame(f) == Ok::<Seq<char>, IoError>(text)
        }),
{
    let payload = encode_utf8(text);
    let n = payload.len() as int;
    let command = codec12_data(COMMAND_TYPE, 1, payload);
    let response = codec12_data(RESPONSE_TYPE, 1, payload);
    let retyped = codec12_frame(COMMAND_TYPE, 1, payload).update(10, RESPONSE_TYPE);
    assert(command.len() == n + 8);
    assert(response =~= command.update(2, RESPONSE_TYPE));
    assert(retyped.subrange(8, 16 + n) =~= response);
    assert(retyped.subrange(0, 16 + n) =~= seq![0u8, 0u8, 0u8, 0u8] + u32_be_bytes(response.len())
        + response);
    assert(retyped.subrange(0, 16 + n) + u32_be_bytes(crc16(retyped.subrange(8, 16 + n)) as nat)
        =~= codec12_frame(RESPONSE_TYPE, 1, payload));
    vstd::utf8::encode_utf8_valid_utf8(text);
    vstd::utf8::encode_utf8_decode_utf8(text);
    lemma_response_frame_roundtrip(1, payload);
}

/// A command frame, as `build_command_frame` makes it, passes the framing
/// and CRC checks of the response decoder and is refused as a response only
/// for its message type.
pub proof fn lemma_command_frame_is_not_a_response(payload: Seq<u8>)
    requires
        payload.len() + 8 < 0x1_0000_0000,
    ensures
        spec_parse_response_frame(codec12_frame(COMMAND_TYPE, 1, payload)) == Err::<
            Seq<char>,
            IoError,
        >(IoError::Codec12UnexpectedMessageType(COMMAND_TYPE)),
{
    lemma_codec12_frame_layout(COMMAND_TYPE, 1, payload);
}

} // verus!
