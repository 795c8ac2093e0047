//! Decoding of Codec 8 Extended AVL frames.
use std::collections::BTreeMap;

use vstd::prelude::*;

use crate::bigendian::{be_value, read_u32_be_at};
use crate::error::{ClockError, IoError};
use crate::units::teltonika::errors::{DiscardReason, TeltonikaFrameError};
use crate::units::teltonika::types::{
    AvlData, AvlModel, FrameModel, GpsElementBlock, IoElementBlock, IoModel, TeltonikaFrame,
    lemma_nat_map_u16_insert, lemma_nat_map_u32_insert, lemma_nat_map_u64_insert,
    lemma_nat_map_u8_insert, lemma_seq_map_insert, nat_map_u16, nat_map_u32, nat_map_u64,
    nat_map_u8, records_view, seq_map,
};
use crate::units::teltonika::validations::{
    TimestampValidationError, current_timestamp_ms, spec_validate_timestamp_with,
    validate_timestamp_with,
};
use crate::units::utils::{Cur, signed16, signed32, spec_read_be};

verus! {

broadcast use vstd::laws_cmp::group_laws_cmp;

// ==================================
//        The format, as specs
// ==================================

/// `n` entries `[id(2), value(w)]` from position `p`: the map that inserting
/// them in order gives, and the position after them.
pub open spec fn entry_map(s: Seq<u8>, p: int, n: nat, w: int) -> Option<(Map<u16, nat>, int)>
    decreases n,
{
    if n == 0 {
        Some((Map::empty(), p))
    } else {
        match entry_map(s, p, (n - 1) as nat, w) {
            None => None,
            Some((m, q)) => match spec_read_be(s, q, 2) {
                None => None,
                Some(id) => match spec_read_be(s, q + 2, w) {
                    None => None,
                    Some(v) => Some((m.insert(id as u16, v), q + 2 + w)),
                },
            },
        }
    }
}

/// `n` entries `[id(2), len(2), value(len)]` from position `p`.
pub open spec fn var_entry_map(s: Seq<u8>, p: int, n: nat) -> Option<(Map<u16, Seq<u8>>, int)>
    decreases n,
{
    if n == 0 {
        Some((Map::empty(), p))
    } else {
        match var_entry_map(s, p, (n - 1) as nat) {
            None => None,
            Some((m, q)) => match spec_read_be(s, q, 2) {
                None => None,
                Some(id) => match spec_read_be(s, q + 2, 2) {
                    None => None,
                    Some(len) => if q + 4 + len <= s.len() {
                        Some((m.insert(id as u16, s.subrange(q + 4, q + 4 + len)), q + 4 + len))
                    } else {
                        None
                    },
                },
            },
        }
    }
}

/// A group of fixed-width entries led by its two-byte count:
/// the count, the entries, and the position after them.
pub open spec fn fixed_section(s: Seq<u8>, p: int, w: int) -> Option<(nat, Map<u16, nat>, int)> {
    match spec_read_be(s, p, 2) {
        None => None,
        Some(n) => match entry_map(s, p + 2, n, w) {
            None => None,
            Some((m, q)) => Some((n, m, q)),
        },
    }
}

/// The group of variable-width entries led by its two-byte count.
pub open spec fn var_section(s: Seq<u8>, p: int) -> Option<(nat, Map<u16, Seq<u8>>, int)> {
    match spec_read_be(s, p, 2) {
        None => None,
        Some(n) => match var_entry_map(s, p + 2, n) {
            None => None,
            Some((m, q)) => Some((n, m, q)),
        },
    }
}

/// The IO element at `p` (Codec 8 Extended): event id, total, then the
/// 1-, 2-, 4-, 8-byte and variable-width groups; the total must equal the
/// sum of the group counts, taken modulo `2^16`.
pub open spec fn spec_io_element(s: Seq<u8>, p: int) -> Result<(IoModel, int), IoError> {
    match (spec_read_be(s, p, 2), spec_read_be(s, p + 2, 2)) {
        (Some(event), Some(total)) => match fixed_section(s, p + 4, 1) {
            None => Err(IoError::NotEnoughBytes),
            Some((n1, m1, p1)) => match fixed_section(s, p1, 2) {
                None => Err(IoError::NotEnoughBytes),
                Some((n2, m2, p2)) => match fixed_section(s, p2, 4) {
                    None => Err(IoError::NotEnoughBytes),
                    Some((n4, m4, p4)) => match fixed_section(s, p4, 8) {
                        None => Err(IoError::NotEnoughBytes),
                        Some((n8, m8, p8)) => match var_section(s, p8) {
                            None => Err(IoError::NotEnoughBytes),
                            Some((nx, mx, px)) => {
                                let computed = ((n1 + n2 + n4 + n8 + nx) % 0x1_0000) as u16;
                                if total != computed {
                                    Err(IoError::NTotalMismatch { got: total as u16, computed })
                                } else {
                                    Ok(
                                        (
                                            IoModel {
                                                event_io_id: event as u16,
                                                n_total: total as u16,
                                                one_byte: m1,
                                                two_bytes: m2,
                                                four_bytes: m4,
                                                eight_bytes: m8,
                                                x_bytes: mx,
                                            },
                                            px,
                                        ),
                                    )
                                }
                            },
                        },
                    },
                },
            },
        },
        _ => Err(IoError::NotEnoughBytes),
    }
}

/// The GPS element: longitude(4) latitude(4) altitude(2) angle(2)
/// satellites(1) speed(2), signed where the field is signed.
pub open spec fn spec_gps(s: Seq<u8>, p: int) -> Option<GpsElementBlock> {
    if 0 <= p && p + 15 <= s.len() {
        Some(
            GpsElementBlock {
                longitude: signed32(be_value(s.subrange(p, p + 4))) as i32,
                latitude: signed32(be_value(s.subrange(p + 4, p + 8))) as i32,
                altitude: signed16(be_value(s.subrange(p + 8, p + 10))) as i16,
                angle: be_value(s.subrange(p + 10, p + 12)) as u16,
                satellites: s[p + 12],
                speed: be_value(s.subrange(p + 13, p + 15)) as u16,
            },
        )
    } else {
        None
    }
}

/// One AVL record at `p`: timestamp(8) priority(1) GPS(15) IO(variable).
/// A timestamp too far in the future discards the whole frame, which is
/// then acknowledged with `ack` records; `clock` is what reading the server
/// clock gave.
pub open spec fn spec_avl_record(
    s: Seq<u8>,
    p: int,
    ack: u8,
    clock: Result<u64, ClockError>,
) -> Result<(AvlModel, int), TeltonikaFrameError> {
    match spec_read_be(s, p, 8) {
        None => Err(TeltonikaFrameError::Parse(IoError::NotEnoughBytes)),
        Some(ts) => match spec_validate_timestamp_with(ts as u64, clock) {
            Err(TimestampValidationError::TooFarInFuture(e)) => Err(
                TeltonikaFrameError::Discarded {
                    ack_record_count: ack,
                    reason: DiscardReason::FutureTimestamp(e),
                },
            ),
            Err(TimestampValidationError::Clock(c)) => Err(
                TeltonikaFrameError::Parse(IoError::Clock(c)),
            ),
            Ok(()) => match spec_read_be(s, p + 8, 1) {
                None => Err(TeltonikaFrameError::Parse(IoError::NotEnoughBytes)),
                Some(priority) => match spec_gps(s, p + 9) {
                    None => Err(TeltonikaFrameError::Parse(IoError::NotEnoughBytes)),
                    Some(gps) => match spec_io_element(s, p + 24) {
                        Err(e) => Err(TeltonikaFrameError::Parse(e)),
                        Ok((io, q)) => Ok(
                            (
                                AvlModel {
                                    timestamp: ts as u64,
                                    priority: priority as u8,
                                    gps_element: gps,
                                    io_element: io,
                                },
                                q,
                            ),
                        ),
                    },
                },
            },
        },
    }
}

/// The first `n` records of `s`, read from position 0.
pub open spec fn spec_records(
    s: Seq<u8>,
    n: nat,
    ack: u8,
    clock: Result<u64, ClockError>,
) -> Result<(Seq<AvlModel>, int), TeltonikaFrameError>
    decreases n,
{
    if n == 0 {
        Ok((Seq::empty(), 0))
    } else {
        match spec_records(s, (n - 1) as nat, ack, clock) {
            Err(e) => Err(e),
            Ok((rs, q)) => match spec_avl_record(s, q, ack, clock) {
                Err(e) => Err(e),
                Ok((r, q2)) => Ok((rs.push(r), q2)),
            },
        }
    }
}

/// The declared data length of a frame (bytes 4..8).
pub open spec fn frame_data_len(f: Seq<u8>) -> nat {
    be_value(f.subrange(4, 8))
}

/// The inputs on which the frame layout is decoded without slicing out of
/// bounds: a frame that passes the length checks declares at least three
/// data bytes (codec id and the two record counts).
pub open spec fn frame_slices_in_bounds(f: Seq<u8>) -> bool {
    f.len() >= 15 && f.len() >= 8 + frame_data_len(f) + 4 ==> frame_data_len(f) >= 3
}

/// A Codec 8 Extended frame:
/// preamble(4) data_len(4) [codec(1) n1(1) records n2(1)] crc(4).
/// The CRC is not checked; the records must fill the data exactly.
pub open spec fn spec_parse_frame(
    f: Seq<u8>,
    imei: Seq<char>,
    clock: Result<u64, ClockError>,
) -> Result<FrameModel, TeltonikaFrameError> {
    if f.len() < 15 {
        Err(TeltonikaFrameError::Parse(IoError::FrameTooShort))
    } else if f.len() < 8 + frame_data_len(f) + 4 {
        Err(TeltonikaFrameError::Parse(IoError::FrameShorterThanDataLen))
    } else {
        let data_end = 8 + frame_data_len(f);
        let codec_id = f[8];
        let record_count = f[9];
        let record_count_2 = f[data_end - 1];
        let avl = f.subrange(10, data_end - 1);
        if codec_id != 0x8E {
            Err(TeltonikaFrameError::Parse(IoError::UnexpectedCodec(codec_id)))
        } else if record_count != record_count_2 {
            Err(TeltonikaFrameError::Parse(IoError::RecordCountMismatch))
        } else {
            match spec_records(avl, record_count as nat, record_count, clock) {
                Err(e) => Err(e),
                Ok((rs, q)) => if q != avl.len() {
                    Err(TeltonikaFrameError::Parse(IoError::ExtraBytes((avl.len() - q) as usize)))
                } else {
                    Ok(FrameModel { imei, codec_id, record_count, records: rs })
                },
            }
        }
    }
}

/// The frame result seen through the frame's view.
pub open spec fn frame_result_view(r: Result<TeltonikaFrame, TeltonikaFrameError>) -> Result<
    FrameModel,
    TeltonikaFrameError,
> {
    match r {
        Ok(f) => Ok(f@),
        Err(e) => Err(e),
    }
}

// ==================================
//        Lemmas on the specs
// ==================================

proof fn lemma_entry_map_none(s: Seq<u8>, p: int, k: nat, n: nat, w: int)
    requires
        k <= n,
        entry_map(s, p, k, w) is None,
    ensures
        entry_map(s, p, n, w) is None,
    decreases n,
{
    if k < n {
        lemma_entry_map_none(s, p, k, (n - 1) as nat, w);
    }
}

proof fn lemma_var_entry_map_none(s: Seq<u8>, p: int, k: nat, n: nat)
    requires
        k <= n,
        var_entry_map(s, p, k) is None,
    ensures
        var_entry_map(s, p, n) is None,
    decreases n,
{
    if k < n {
        lemma_var_entry_map_none(s, p, k, (n - 1) as nat);
    }
}

proof fn lemma_records_err(s: Seq<u8>, k: nat, n: nat, ack: u8, clock: Result<u64, ClockError>)
    requires
        k <= n,
        spec_records(s, k, ack, clock) is Err,
    ensures
        spec_records(s, n, ack, clock) == spec_records(s, k, ack, clock),
    decreases n,
{
    if k < n {
        lemma_records_err(s, k, (n - 1) as nat, ack, clock);
    }
}

proof fn lemma_records_step(
    s: Seq<u8>,
    k: nat,
    ack: u8,
    clock: Result<u64, ClockError>,
    rs: Seq<AvlModel>,
    q: int,
)
    requires
        spec_records(s, k, ack, clock) == Ok::<(Seq<AvlModel>, int), TeltonikaFrameError>((rs, q)),
    ensures
        spec_records(s, k + 1, ack, clock) == match spec_avl_record(s, q, ack, clock) {
            Err(e) => Err(e),
            Ok((r, q2)) => Ok((rs.push(r), q2)),
        },
{
}

// ==================================
//        Decoding, in code
// ==================================

fn read_entries_u8(cur: &mut Cur, n: u16) -> (r: Result<BTreeMap<u16, u8>, IoError>)
    requires
        old(cur).pos() <= old(cur).bytes().len(),
    ensures
        final(cur).bytes() == old(cur).bytes(),
        final(cur).pos() <= final(cur).bytes().len(),
        match entry_map(old(cur).bytes(), old(cur).pos(), n as nat, 1) {
            Some((m, q)) => (r matches Ok(x) && nat_map_u8(x@) == m) && final(cur).pos() == q,
            None => r == Err::<BTreeMap<u16, u8>, IoError>(IoError::NotEnoughBytes),
        },
{
    let ghost s = cur.bytes();
    let ghost p0 = cur.pos();
    let mut m: BTreeMap<u16, u8> = BTreeMap::new();
    let mut k: u16 = 0;
    proof {
        assert(nat_map_u8(m@) =~= Map::empty());
    }
    while k < n
        invariant
            k <= n,
            s == old(cur).bytes(),
            p0 == old(cur).pos(),
            cur.bytes() == s,
            cur.pos() <= s.len(),
            entry_map(s, p0, k as nat, 1) == Some((nat_map_u8(m@), cur.pos())),
        decreases n - k,
    {
        let id = match cur.u16() {
            Ok(id) => id,
            Err(e) => {
                proof {
                    lemma_entry_map_none(s, p0, (k + 1) as nat, n as nat, 1);
                }
                return Err(e);
            },
        };
        let val = match cur.u8() {
            Ok(val) => val,
            Err(e) => {
                proof {
                    lemma_entry_map_none(s, p0, (k + 1) as nat, n as nat, 1);
                }
                return Err(e);
            },
        };
        proof {
            lemma_nat_map_u8_insert(m@, id, val);
        }
        m.insert(id, val);
        k = k + 1;
    }
    Ok(m)
}

fn read_entries_u16(cur: &mut Cur, n: u16) -> (r: Result<BTreeMap<u16, u16>, IoError>)
    requires
        old(cur).pos() <= old(cur).bytes().len(),
    ensures
        final(cur).bytes() == old(cur).bytes(),
        final(cur).pos() <= final(cur).bytes().len(),
        match entry_map(old(cur).bytes(), old(cur).pos(), n as nat, 2) {
            Some((m, q)) => (r matches Ok(x) && nat_map_u16(x@) == m) && final(cur).pos() == q,
            None => r == Err::<BTreeMap<u16, u16>, IoError>(IoError::NotEnoughBytes),
        },
{
    let ghost s = cur.bytes();
    let ghost p0 = cur.pos();
    let mut m: BTreeMap<u16, u16> = BTreeMap::new();
    let mut k: u16 = 0;
    proof {
        assert(nat_map_u16(m@) =~= Map::empty());
    }
    while k < n
        invariant
            k <= n,
            s == old(cur).bytes(),
            p0 == old(cur).pos(),
            cur.bytes() == s,
            cur.pos() <= s.len(),
            entry_map(s, p0, k as nat, 2) == Some((nat_map_u16(m@), cur.pos())),
        decreases n - k,
    {
        let id = match cur.u16() {
            Ok(id) => id,
            Err(e) => {
                proof {
                    lemma_entry_map_none(s, p0, (k + 1) as nat, n as nat, 2);
                }
                return Err(e);
            },
        };
        let val = match cur.u16() {
            Ok(val) => val,
            Err(e) => {
                proof {
                    lemma_entry_map_none(s, p0, (k + 1) as nat, n as nat, 2);
                }
                return Err(e);
            },
        };
        proof {
            lemma_nat_map_u16_insert(m@, id, val);
        }
        m.insert(id, val);
        k = k + 1;
    }
    Ok(m)
}

fn read_entries_u32(cur: &mut Cur, n: u16) -> (r: Result<BTreeMap<u16, u32>, IoError>)
    requires
        old(cur).pos() <= old(cur).bytes().len(),
    ensures
        final(cur).bytes() == old(cur).bytes(),
        final(cur).pos() <= final(cur).bytes().len(),
        match entry_map(old(cur).bytes(), old(cur).pos(), n as nat, 4) {
            Some((m, q)) => (r matches Ok(x) && nat_map_u32(x@) == m) && final(cur).pos() == q,
            None => r == Err::<BTreeMap<u16, u32>, IoError>(IoError::NotEnoughBytes),
        },
{
    let ghost s = cur.bytes();
    let ghost p0 = cur.pos();
    let mut m: BTreeMap<u16, u32> = BTreeMap::new();
    let mut k: u16 = 0;
    proof {
        assert(nat_map_u32(m@) =~= Map::empty());
    }
    while k < n
        invariant
            k <= n,
            s == old(cur).bytes(),
            p0 == old(cur).pos(),
            cur.bytes() == s,
            cur.pos() <= s.len(),
            entry_map(s, p0, k as nat, 4) == Some((nat_map_u32(m@), cur.pos())),
        decreases n - k,
    {
        let id = match cur.u16() {
            Ok(id) => id,
            Err(e) => {
                proof {
                    lemma_entry_map_none(s, p0, (k + 1) as nat, n as nat, 4);
                }
                return Err(e);
            },
        };
        let val = match cur.u32() {
            Ok(val) => val,
            Err(e) => {
                proof {
                    lemma_entry_map_none(s, p0, (k + 1) as nat, n as nat, 4);
                }
                return Err(e);
            },
        };
        proof {
            lemma_nat_map_u32_insert(m@, id, val);
        }
        m.insert(id, val);
        k = k + 1;
    }
    Ok(m)
}

fn read_entries_u64(cur: &mut Cur, n: u16) -> (r: Result<BTreeMap<u16, u64>, IoError>)
    requires
        old(cur).pos() <= old(cur).bytes().len(),
    ensures
        final(cur).bytes() == old(cur).bytes(),
        final(cur).pos() <= final(cur).bytes().len(),
        match entry_map(old(cur).bytes(), old(cur).pos(), n as nat, 8) {
            Some((m, q)) => (r matches Ok(x) && nat_map_u64(x@) == m) && final(cur).pos() == q,
            None => r == Err::<BTreeMap<u16, u64>, IoError>(IoError::NotEnoughBytes),
        },
{
    let ghost s = cur.bytes();
    let ghost p0 = cur.pos();
    let mut m: BTreeMap<u16, u64> = BTreeMap::new();
    let mut k: u16 = 0;
    proof {
        assert(nat_map_u64(m@) =~= Map::empty());
    }
    while k < n
        invariant
            k <= n,
            s == old(cur).bytes(),
            p0 == old(cur).pos(),
            cur.bytes() == s,
            cur.pos() <= s.len(),
            entry_map(s, p0, k as nat, 8) == Some((nat_map_u64(m@), cur.pos())),
        decreases n - k,
    {
        let id = match cur.u16() {
            Ok(id) => id,
            Err(e) => {
                proof {
                    lemma_entry_map_none(s, p0, (k + 1) as nat, n as nat, 8);
                }
                return Err(e);
            },
        };
        let val = match cur.u64() {
            Ok(val) => val,
            Err(e) => {
                proof {
                    lemma_entry_map_none(s, p0, (k + 1) as nat, n as nat, 8);
                }
                return Err(e);
            },
        };
        proof {
            lemma_nat_map_u64_insert(m@, id, val);
        }
        m.insert(id, val);
        k = k + 1;
    }
    Ok(m)
}

fn read_entries_var(cur: &mut Cur, n: u16) -> (r: Result<BTreeMap<u16, Vec<u8>>, IoError>)
    requires
        old(cur).pos() <= old(cur).bytes().len(),
    ensures
        final(cur).bytes() == old(cur).bytes(),
        final(cur).pos() <= final(cur).bytes().len(),
        match var_entry_map(old(cur).bytes(), old(cur).pos(), n as nat) {
            Some((m, q)) => (r matches Ok(x) && seq_map(x@) == m) && final(cur).pos() == q,
            None => r == Err::<BTreeMap<u16, Vec<u8>>, IoError>(IoError::NotEnoughBytes),
        },
{
    let ghost s = cur.bytes();
    let ghost p0 = cur.pos();
    let mut m: BTreeMap<u16, Vec<u8>> = BTreeMap::new();
    let mut k: u16 = 0;
    proof {
        assert(seq_map(m@) =~= Map::empty());
    }
    while k < n
        invariant
            k <= n,
            s == old(cur).bytes(),
            p0 == old(cur).pos(),
            cur.bytes() == s,
            cur.pos() <= s.len(),
            var_entry_map(s, p0, k as nat) == Some((seq_map(m@), cur.pos())),
        decreases n - k,
    {
        let id = match cur.u16() {
            Ok(id) => id,
            Err(e) => {
                proof {
                    lemma_var_entry_map_none(s, p0, (k + 1) as nat, n as nat);
                }
                return Err(e);
            },
        };
        let len = match cur.u16() {
            Ok(len) => len,
            Err(e) => {
                proof {
                    lemma_var_entry_map_none(s, p0, (k + 1) as nat, n as nat);
                }
                return Err(e);
            },
        };
        let bytes = match cur.take(len as usize) {
            Ok(bytes) => bytes,
            Err(e) => {
                proof {
                    lemma_var_entry_map_none(s, p0, (k + 1) as nat, n as nat);
                }
                return Err(e);
            },
        };
        let val = vstd::slice::slice_to_vec(bytes);
        proof {
            lemma_seq_map_insert(m@, id, val);
        }
        m.insert(id, val);
        k = k + 1;
    }
    Ok(m)
}

/// Codec 8 Extended IO element parsing:
/// Event IO ID (2)
/// N of Total (2)
/// N1 (2) => [id(2), val(1)] * N1
/// N2 (2) => [id(2), val(2)] * N2
/// N4 (2) => [id(2), val(4)] * N4
/// N8 (2) => [id(2), val(8)] * N8
/// NX (2) => [id(2), len(2), val(len)] * NX
fn parse_io_8e(cur: &mut Cur) -> (r: Result<IoElementBlock, IoError>)
    requires
        old(cur).pos() <= old(cur).bytes().len(),
    ensures
        final(cur).bytes() == old(cur).bytes(),
        final(cur).pos() <= final(cur).bytes().len(),
        match spec_io_element(old(cur).bytes(), old(cur).pos()) {
            Ok((m, q)) => (r matches Ok(x) && x@ == m) && final(cur).pos() == q,
            Err(e) => r == Err::<IoElementBlock, IoError>(e),
        },
{
    let event_io_id = cur.u16()?;
    let n_total = cur.u16()?;

    let n1 = cur.u16()?;
    let one_byte = read_entries_u8(cur, n1)?;

    let n2 = cur.u16()?;
    let two_bytes = read_entries_u16(cur, n2)?;

    let n4 = cur.u16()?;
    let four_bytes = read_entries_u32(cur, n4)?;

    let n8 = cur.u16()?;
    let eight_bytes = read_entries_u64(cur, n8)?;

    let nx = cur.u16()?;
    let x_bytes = read_entries_var(cur, nx)?;

    let sum: u32 = n1 as u32 + n2 as u32 + n4 as u32 + n8 as u32 + nx as u32;
    let computed_total = (sum % 0x1_0000) as u16;
    if n_total != computed_total {
        return Err(IoError::NTotalMismatch { got: n_total, computed: computed_total });
    }

    Ok(
        IoElementBlock {
            event_io_id,
            n_total,
            one_byte,
            two_bytes,
            four_bytes,
            eight_bytes,
            x_bytes,
        },
    )
}

fn parse_gps(cur: &mut Cur) -> (r: Result<GpsElementBlock, IoError>)
    requires
        old(cur).pos() <= old(cur).bytes().len(),
    ensures
        final(cur).bytes() == old(cur).bytes(),
        final(cur).pos() <= final(cur).bytes().len(),
        match spec_gps(old(cur).bytes(), old(cur).pos()) {
            Some(g) => r == Ok::<GpsElementBlock, IoError>(g) && final(cur).pos() == old(cur).pos() + 15,
            None => r == Err::<GpsElementBlock, IoError>(IoError::NotEnoughBytes),
        },
{
    let longitude = cur.i32()?;
    let latitude = cur.i32()?;
    let altitude = cur.i16()?;
    let angle = cur.u16()?;
    let satellites = cur.u8()?;
    let speed = cur.u16()?;
    proof {
        let s = old(cur).bytes();
        let p = old(cur).pos();
        assert(s.subrange(p + 12, p + 13).drop_last() =~= Seq::<u8>::empty());
        assert(be_value(s.subrange(p + 12, p + 13).drop_last()) == 0);
    }
    Ok(GpsElementBlock { longitude, latitude, altitude, angle, satellites, speed })
}

fn parse_avl_record_8e(
    cur: &mut Cur,
    ack_record_count: u8,
    clock: Result<u64, ClockError>,
) -> (r: Result<AvlData, TeltonikaFrameError>)
    requires
        old(cur).pos() <= old(cur).bytes().len(),
    ensures
        final(cur).bytes() == old(cur).bytes(),
        final(cur).pos() <= final(cur).bytes().len(),
        match spec_avl_record(old(cur).bytes(), old(cur).pos(), ack_record_count, clock) {
            Ok((m, q)) => (r matches Ok(x) && x@ == m) && final(cur).pos() == q,
            Err(e) => r == Err::<AvlData, TeltonikaFrameError>(e),
        },
{
    // Timestamp(8) Priority(1) GPS(15) IO(variable)
    let timestamp = match cur.u64() {
        Ok(t) => t,
        Err(e) => return Err(TeltonikaFrameError::Parse(e)),
    };
    match validate_timestamp_with(timestamp, clock) {
        Ok(()) => {},
        Err(TimestampValidationError::TooFarInFuture(err)) => {
            return Err(
                TeltonikaFrameError::Discarded {
                    ack_record_count,
                    reason: DiscardReason::FutureTimestamp(err),
                },
            );
        },
        Err(TimestampValidationError::Clock(err)) => {
            return Err(TeltonikaFrameError::Parse(IoError::Clock(err)));
        },
    }
    let priority = match cur.u8() {
        Ok(p) => p,
        Err(e) => return Err(TeltonikaFrameError::Parse(e)),
    };
    let gps_element = match parse_gps(cur) {
        Ok(g) => g,
        Err(e) => return Err(TeltonikaFrameError::Parse(e)),
    };
    let io_element = match parse_io_8e(cur) {
        Ok(io) => io,
        Err(e) => return Err(TeltonikaFrameError::Parse(e)),
    };
    Ok(AvlData { timestamp, priority, gps_element, io_element })
}

/// Decodes an AVL frame, checking each record's timestamp against what
/// reading the server clock gave (`clock`).
pub fn teltonika_parse_frame_at(
    frame: &[u8],
    imei: &str,
    clock: Result<u64, ClockError>,
) -> (r: Result<TeltonikaFrame, TeltonikaFrameError>)
    requires
        frame_slices_in_bounds(frame@),
    ensures
        frame_result_view(r) == spec_parse_frame(frame@, imei@, clock),
{
    // preamble(4) + data_len(4) + codec(1) + n1(1) + ... + n2(1) + crc(4)
    if frame.len() < 4 + 4 + 1 + 1 + 1 + 4 {
        return Err(TeltonikaFrameError::Parse(IoError::FrameTooShort));
    }
    let data_len = read_u32_be_at(frame, 4);
    if (frame.len() as u64) < 8 + (data_len as u64) + 4 {
        return Err(TeltonikaFrameError::Parse(IoError::FrameShorterThanDataLen));
    }
    let data_start: usize = 8;
    let data_end: usize = data_start + data_len as usize;

    let codec_id = frame[data_start];
    let record_count = frame[data_start + 1];
    let record_count_2 = frame[data_end - 1];

    // AVL payload sits between record_count and record_count_2
    let avl_bytes = vstd::slice::slice_subrange(frame, data_start + 2, data_end - 1);

    // Codec 8 Extended should be 0x8E
    if codec_id != 0x8E {
        return Err(TeltonikaFrameError::Parse(IoError::UnexpectedCodec(codec_id)));
    }
    if record_count != record_count_2 {
        return Err(TeltonikaFrameError::Parse(IoError::RecordCountMismatch));
    }

    let mut cur = Cur::new(avl_bytes);
    let mut records: Vec<AvlData> = Vec::new();
    let mut k: u8 = 0;
    proof {
        assert(records_view(records@) =~= Seq::<AvlModel>::empty());
    }
    while k < record_count
        invariant
            k <= record_count,
            frame@.len() >= 15,
            frame@.len() >= 8 + frame_data_len(frame@) + 4,
            data_end == 8 + frame_data_len(frame@),
            codec_id == frame@[8] && codec_id == 0x8E,
            record_count == frame@[9] && record_count == frame@[data_end - 1],
            avl_bytes@ == frame@.subrange(10, data_end - 1),
            cur.bytes() == avl_bytes@,
            cur.pos() <= cur.bytes().len(),
            spec_records(avl_bytes@, k as nat, record_count, clock) == Ok::<
                (Seq<AvlModel>, int),
                TeltonikaFrameError,
            >((records_view(records@), cur.pos())),
        decreases record_count - k,
    {
        proof {
            lemma_records_step(avl_bytes@, k as nat, record_count, clock, records_view(records@), cur.pos());
        }
        let record = match parse_avl_record_8e(&mut cur, record_count, clock) {
            Ok(record) => record,
            Err(e) => {
                proof {
                    lemma_records_err(avl_bytes@, (k + 1) as nat, record_count as nat, record_count, clock);
                }
                return Err(e);
            },
        };
        proof {
            assert(records_view(records@.push(record)) =~= records_view(records@).push(record@));
        }
        records.push(record);
        k = k + 1;
    }

    let remaining = cur.remaining();
    if remaining != 0 {
        return Err(TeltonikaFrameError::Parse(IoError::ExtraBytes(remaining)));
    }

    Ok(
        TeltonikaFrame {
            imei: String::from_str(imei),
            codec_id,
            record_count,
            records,
        },
    )
}

/// Decodes an AVL frame received from the device `imei`, checking each
/// record's timestamp against the server clock.
pub fn teltonika_parse_frame(frame: &[u8], imei: &str) -> (r: Result<TeltonikaFrame, TeltonikaFrameError>)
    requires
        frame_slices_in_bounds(frame@),
    ensures
        exists|clock: Result<u64, ClockError>|
            frame_result_view(r) == #[trigger] spec_parse_frame(frame@, imei@, clock),
{
    let clock = current_timestamp_ms();
    teltonika_parse_frame_at(frame, imei, clock)
}

// ==================================
//        Laws of the decoder
// ==================================

proof fn lemma_records_shape(s: Seq<u8>, n: nat, ack: u8, clock: Result<u64, ClockError>)
    ensures
        spec_records(s, n, ack, clock) matches Ok((rs, _)) ==> rs.len() == n,
        spec_records(s, n, ack, clock) matches Err(TeltonikaFrameError::Discarded {
            ack_record_count,
            ..
        }) ==> ack_record_count == ack,
    decreases n,
{
    if n > 0 {
        lemma_records_shape(s, (n - 1) as nat, ack, clock);
    }
}

/// A decoded frame holds as many records as it announces, comes from the
/// device it was read from and is Codec 8 Extended; a frame discarded for a
/// record's timestamp is acknowledged with the record count it announces
/// (byte 9), so that the device drops all of it.
pub proof fn lemma_parse_frame_facts(f: Seq<u8>, imei: Seq<char>, clock: Result<u64, ClockError>)
    ensures
        spec_parse_frame(f, imei, clock) matches Ok(m) ==> {
            &&& m.records.len() == m.record_count
            &&& m.record_count == f[9]
            &&& m.codec_id == 0x8E
            &&& m.imei == imei
        },
        spec_parse_frame(f, imei, clock) matches Err(TeltonikaFrameError::Discarded {
            ack_record_count,
            ..
        }) ==> ack_record_count == f[9],
{
    if f.len() >= 15 && f.len() >= 8 + frame_data_len(f) + 4 {
        let data_end = 8 + frame_data_len(f);
        let avl = f.subrange(10, data_end - 1);
        lemma_records_shape(avl, f[9] as nat, f[9], clock);
    }
}

/// The value of a two-byte string.
proof fn lemma_be_value_2(s: Seq<u8>)
    requires
        s.len() == 2,
    ensures
        be_value(s) == s[0] * 256 + s[1],
{
    let s1 = s.drop_last();
    assert(s1.drop_last() =~= Seq::<u8>::empty());
    assert(be_value(s1.drop_last()) == 0);
    assert(be_value(s1) == s[0]);
}

/// The GPS element is read from its 15 bytes field by field, big-endian:
/// longitude and latitude as signed 32-bit, altitude as signed 16-bit,
/// angle and speed as unsigned 16-bit numbers, satellites as one byte.
/// It is read exactly when the 15 bytes are there.
pub proof fn lemma_gps_fields(s: Seq<u8>, p: int)
    ensures
        spec_gps(s, p) is Some <==> 0 <= p && p + 15 <= s.len(),
        spec_gps(s, p) matches Some(g) ==> {
            &&& g.longitude == s[p] * 0x100_0000 + s[p + 1] * 0x1_0000 + s[p + 2] * 0x100 + s[p + 3]
                - (if s[p] >= 0x80 { 0x1_0000_0000int } else { 0int })
            &&& g.latitude == s[p + 4] * 0x100_0000 + s[p + 5] * 0x1_0000 + s[p + 6] * 0x100 + s[p
                + 7] - (if s[p + 4] >= 0x80 { 0x1_0000_0000int } else { 0int })
            &&& g.altitude == s[p + 8] * 0x100 + s[p + 9] - (if s[p + 8] >= 0x80 {
                0x1_0000int
            } else {
                0int
            })
            &&& g.angle == s[p + 10] * 0x100 + s[p + 11]
            &&& g.satellites == s[p + 12]
            &&& g.speed == s[p + 13] * 0x100 + s[p + 14]
        },
{
    if 0 <= p && p + 15 <= s.len() {
        let lon = s.subrange(p, p + 4);
        let lat = s.subrange(p + 4, p + 8);
        let alt = s.subrange(p + 8, p + 10);
        let ang = s.subrange(p + 10, p + 12);
        let spd = s.subrange(p + 13, p + 15);
        crate::bigendian::lemma_be_value_4(lon);
        crate::bigendian::lemma_be_value_4(lat);
        lemma_be_value_2(alt);
        lemma_be_value_2(ang);
        lemma_be_value_2(spd);
        assert(lon[0] == s[p] && lon[1] == s[p + 1] && lon[2] == s[p + 2] && lon[3] == s[p + 3]);
        assert(lat[0] == s[p + 4] && lat[1] == s[p + 5] && lat[2] == s[p + 6] && lat[3] == s[p
            + 7]);
        assert(alt[0] == s[p + 8] && alt[1] == s[p + 9]);
        assert(ang[0] == s[p + 10] && ang[1] == s[p + 11]);
        assert(spd[0] == s[p + 13] && spd[1] == s[p + 14]);
    }
}

/// Where entry `i` of a group of `w`-byte entries from `p` starts.
pub open spec fn entry_at(p: int, w: int, i: int) -> int {
    p + i * (2 + w)
}

/// The id of entry `i` (its first two bytes, big-endian).
pub open spec fn entry_id(s: Seq<u8>, p: int, w: int, i: int) -> u16 {
    (s[entry_at(p, w, i)] * 256 + s[entry_at(p, w, i) + 1]) as u16
}

/// The value of entry `i` (the `w` bytes after its id, big-endian).
pub open spec fn entry_value(s: Seq<u8>, p: int, w: int, i: int) -> nat {
    be_value(s.subrange(entry_at(p, w, i) + 2, entry_at(p, w, i) + 2 + w))
}

/// A group of `n` entries `[id(2), value(w)]` is read entry after entry: it
/// is read exactly when its `n * (2 + w)` bytes are there, and ends right
/// after them. The map holds every entry's id and no other key; an id maps to
/// the value of its last entry, so with distinct ids every entry is kept.
pub proof fn lemma_entry_map_entries(s: Seq<u8>, p: int, n: nat, w: int)
    requires
        0 <= p <= s.len(),
        0 <= w,
    ensures
        entry_map(s, p, n, w) is Some <==> entry_at(p, w, n as int) <= s.len(),
        entry_map(s, p, n, w) matches Some((m, q)) ==> {
            &&& q == entry_at(p, w, n as int)
            &&& forall|k: u16|
                m.contains_key(k) <==> exists|i: int| 0 <= i < n && #[trigger] entry_id(s, p, w, i) == k
            &&& forall|i: int|
                0 <= i < n && (forall|j: int| i < j < n ==> entry_id(s, p, w, j) != entry_id(s, p, w, i))
                    ==> m[#[trigger] entry_id(s, p, w, i)] == entry_value(s, p, w, i)
        },
    decreases n,
{
    if n > 0 {
        let k = (n - 1) as int;
        lemma_entry_map_entries(s, p, (n - 1) as nat, w);
        assert(entry_at(p, w, n as int) == entry_at(p, w, k) + 2 + w) by (nonlinear_arith)
            requires
                k == n - 1,
        ;
        assert(entry_at(p, w, k) >= p) by (nonlinear_arith)
            requires
                k >= 0,
                w >= 0,
        ;
        let q = entry_at(p, w, k);
        if q + 2 + w <= s.len() {
            lemma_be_value_2(s.subrange(q, q + 2));
            let mq = entry_map(s, p, k as nat, w);
            let m = mq.unwrap().0;
            let id = entry_id(s, p, w, k);
            assert(entry_map(s, p, n, w) == Some((m.insert(id, entry_value(s, p, w, k)), q + 2 + w)));
            let m2 = m.insert(id, entry_value(s, p, w, k));
            assert forall|key: u16| m2.contains_key(key) implies exists|i: int|
                0 <= i < n && #[trigger] entry_id(s, p, w, i) == key by {
                if key != id {
                    let i = choose|i: int| 0 <= i < k && #[trigger] entry_id(s, p, w, i) == key;
                    assert(0 <= i < n && entry_id(s, p, w, i) == key);
                }
            }
            assert forall|key: u16| (exists|i: int| 0 <= i < n && #[trigger] entry_id(s, p, w, i) == key)
                implies m2.contains_key(key) by {
                let i = choose|i: int| 0 <= i < n && #[trigger] entry_id(s, p, w, i) == key;
                if i < k {
                    assert(m.contains_key(key));
                }
            }
            assert forall|i: int|
                0 <= i < n && (forall|j: int| i < j < n ==> entry_id(s, p, w, j) != entry_id(s, p, w, i))
                implies m2[#[trigger] entry_id(s, p, w, i)] == entry_value(s, p, w, i) by {
                if i < k {
                    assert(entry_id(s, p, w, k) != entry_id(s, p, w, i));
                    assert(forall|j: int| i < j < k ==> entry_id(s, p, w, j) != entry_id(s, p, w, i));
                }
            }
        } else if entry_map(s, p, k as nat, w) is None {
            lemma_entry_map_none(s, p, k as nat, n, w);
        } else {
            assert(spec_read_be(s, q, 2) is None || spec_read_be(s, q + 2, w) is None);
        }
    } else {
        assert(entry_at(p, w, 0) == p);
    }
}

/// Reading one more variable-width entry `[id(2), len(2), value(len)]`
/// keeps every entry read before it, except one with the same id, which the
/// new entry replaces; the new id maps to its `len` bytes, and reading ends
/// right after them.
pub proof fn lemma_var_entry_map_step(s: Seq<u8>, p: int, n: nat)
    ensures
        var_entry_map(s, p, n + 1) matches Some((m2, q2)) ==> var_entry_map(s, p, n) matches Some(
            (m1, q1),
        ) && {
            let id = (s[q1] * 256 + s[q1 + 1]) as u16;
            let len = s[q1 + 2] * 256 + s[q1 + 3];
            &&& 0 <= q1 && q1 + 4 + len <= s.len()
            &&& q2 == q1 + 4 + len
            &&& m2.dom() == m1.dom().insert(id)
            &&& m2[id] == s.subrange(q1 + 4, q1 + 4 + len)
            &&& forall|k: u16| m1.contains_key(k) && k != id ==> m2[k] == m1[k]
        },
        var_entry_map(s, p, n) is None ==> var_entry_map(s, p, n + 1) is None,
{
    if var_entry_map(s, p, n + 1) is Some {
        let (m1, q1) = var_entry_map(s, p, n).unwrap();
        lemma_be_value_2(s.subrange(q1, q1 + 2));
        lemma_be_value_2(s.subrange(q1 + 2, q1 + 4));
        let id = (s[q1] * 256 + s[q1 + 1]) as u16;
        let m2 = var_entry_map(s, p, n + 1).unwrap().0;
        assert(m2.dom() =~= m1.dom().insert(id));
    }
}

/// The IO element at `p`: the event id and the announced total are its first
/// two big-endian 16-bit numbers; the groups follow, each led by its count,
/// and are read entry by entry (see `lemma_entry_map_entries`). It is
/// refused, with both numbers, when the total differs from the sum of the
/// group counts modulo `2^16`.
pub proof fn lemma_io_element_fields(s: Seq<u8>, p: int)
    ensures
        spec_io_element(s, p) matches Ok((io, q)) ==> {
            &&& io.event_io_id == s[p] * 256 + s[p + 1]
            &&& io.n_total == s[p + 2] * 256 + s[p + 3]
            &&& fixed_section(s, p + 4, 1) matches Some((n1, m1, p1)) && m1 == io.one_byte && n1
                == s[p + 4] * 256 + s[p + 5] && entry_map(s, p + 6, n1, 1) == Some((m1, p1))
        },
        spec_io_element(s, p) matches Err(IoError::NTotalMismatch { got, computed }) ==> {
            &&& got == s[p + 2] * 256 + s[p + 3]
            &&& got != computed
        },
{
    if 0 <= p && p + 6 <= s.len() {
        lemma_be_value_2(s.subrange(p, p + 2));
        lemma_be_value_2(s.subrange(p + 2, p + 4));
        lemma_be_value_2(s.subrange(p + 4, p + 6));
    }
}

/// One AVL record at `p`: the timestamp is the big-endian number of its
/// first eight bytes, the priority is the next byte, the GPS element starts
/// at `p + 9` and the IO element at `p + 24`, and the record ends where the
/// IO element ends. A record is only read when its timestamp passes the
/// check against the clock.
pub proof fn lemma_avl_record_fields(
    s: Seq<u8>,
    p: int,
    ack: u8,
    clock: Result<u64, ClockError>,
)
    ensures
        spec_avl_record(s, p, ack, clock) matches Ok((r, q)) ==> {
            &&& 0 <= p && p + 24 <= s.len()
            &&& r.timestamp == be_value(s.subrange(p, p + 8))
            &&& spec_validate_timestamp_with(r.timestamp, clock) is Ok
            &&& r.priority == s[p + 8]
            &&& spec_gps(s, p + 9) == Some(r.gps_element)
            &&& spec_io_element(s, p + 24) == Ok::<(IoModel, int), IoError>((r.io_element, q))
        },
{
    if spec_avl_record(s, p, ack, clock) is Ok {
        let one = s.subrange(p + 8, p + 9);
        assert(one.drop_last() =~= Seq::<u8>::empty());
        assert(be_value(one.drop_last()) == 0);
        assert(one.last() == s[p + 8]);
        crate::bigendian::lemma_be_value_bound(s.subrange(p, p + 8));
        crate::bigendian::lemma_pow256_values();
    }
}

/// A Codec 8 Extended frame is refused unless it is long enough for the
/// data length it declares, carries codec 0x8E, and repeats its record
/// count after the records; a decoded frame satisfies all three, and its
/// records are read from byte 10 up to the closing count.
pub proof fn lemma_parse_frame_checks(f: Seq<u8>, imei: Seq<char>, clock: Result<u64, ClockError>)
    requires
        frame_slices_in_bounds(f),
    ensures
        spec_parse_frame(f, imei, clock) is Ok ==> {
            let data_end = 8 + frame_data_len(f);
            &&& f.len() >= 15
            &&& f.len() >= data_end + 4
            &&& f[8] == 0x8E
            &&& f[data_end - 1] == f[9]
            &&& (spec_records(f.subrange(10, data_end - 1), f[9] as nat, f[9], clock) matches Ok(
                (rs, q),
            ) && q == data_end - 11 && spec_parse_frame(f, imei, clock)
                == Ok::<FrameModel, TeltonikaFrameError>(
                FrameModel { imei, codec_id: 0x8E, record_count: f[9], records: rs },
            ))
        },
        f.len() >= 15 && f.len() >= 8 + frame_data_len(f) + 4 && f[8] != 0x8E ==> spec_parse_frame(
            f,
            imei,
            clock,
        ) == Err::<FrameModel, TeltonikaFrameError>(
            TeltonikaFrameError::Parse(IoError::UnexpectedCodec(f[8])),
        ),
{
}

/// Whether a frame can be decoded without slicing out of bounds (the
/// precondition of `teltonika_parse_frame`).
pub fn frame_slices_ok(frame: &[u8]) -> (r: bool)
    ensures
        r == frame_slices_in_bounds(frame@),
{
    if frame.len() < 15 {
        return true;
    }
    let data_len = read_u32_be_at(frame, 4);
    if (frame.len() as u64) < 8 + (data_len as u64) + 4 {
        return true;
    }
    data_len >= 3
}

} // verus!
