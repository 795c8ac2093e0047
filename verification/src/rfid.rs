//! RFID enrollment: finding the card scan that a device reported.
use vstd::prelude::*;

use crate::text::{decimal, lemma_decimal_parses_back, spec_parse_u64, u64_to_decimal_string};
use crate::units::teltonika::types::{AvlData, TeltonikaFrame};

verus! {

broadcast use vstd::laws_cmp::group_laws_cmp;

/// The AVL IO id of the RFID reader, both as event id and as the id of the
/// eight-byte card UID.
pub const RFID_AVL_ID: u16 = 78;

/// A card scan to publish for an active enrollment.
#[derive(Debug, PartialEq)]
pub struct RfidScanMessage<'a> {
    pub imei: &'a str,
    pub event_io_id: u16,
    /// The card UID in decimal, so that all 64 bits survive JSON.
    pub rfid_chip_uid: String,
    pub timestamp_ms: u64,
}

/// The record was triggered by the RFID reader and carries a card UID.
pub open spec fn spec_is_rfid_record(record: AvlData) -> bool {
    record.io_element.event_io_id == RFID_AVL_ID && record.io_element.eight_bytes@.contains_key(
        RFID_AVL_ID,
    )
}

/// Whether the record was triggered by the RFID reader and carries a card UID.
pub fn is_rfid_record(record: &AvlData) -> (r: bool)
    ensures
        r == spec_is_rfid_record(*record),
{
    record.io_element.event_io_id == RFID_AVL_ID && record.io_element.eight_bytes.contains_key(
        &RFID_AVL_ID,
    )
}

/// Whether any record of the frame is an RFID scan.
pub fn has_rfid_record(frame: &TeltonikaFrame) -> (r: bool)
    ensures
        r == exists|i: int|
            0 <= i < frame.records@.len() && #[trigger] spec_is_rfid_record(frame.records@[i]),
{
    let n = frame.records.len();
    let mut i: usize = 0;
    while i < n
        invariant
            n == frame.records@.len(),
            i <= n,
            forall|k: int| 0 <= k < i ==> !#[trigger] spec_is_rfid_record(frame.records@[k]),
        decreases n - i,
    {
        if is_rfid_record(&frame.records[i]) {
            return true;
        }
        i = i + 1;
    }
    false
}

/// Record `i` is an RFID scan made at or after `started_at_ms`.
pub open spec fn is_scan_after(records: Seq<AvlData>, started_at_ms: u64, i: int) -> bool {
    0 <= i < records.len() && spec_is_rfid_record(records[i]) && records[i].timestamp
        >= started_at_ms
}

/// Record `i` is the earliest such scan, the first one among equals.
pub open spec fn is_earliest_scan(records: Seq<AvlData>, started_at_ms: u64, i: int) -> bool {
    &&& is_scan_after(records, started_at_ms, i)
    &&& forall|j: int|
        #[trigger] is_scan_after(records, started_at_ms, j) ==> records[i].timestamp
            <= records[j].timestamp
    &&& forall|j: int|
        0 <= j < i && #[trigger] is_scan_after(records, started_at_ms, j) ==> records[j].timestamp
            > records[i].timestamp
}

/// The message reports record `i` of `frame`.
pub open spec fn reports_record(m: RfidScanMessage, frame: TeltonikaFrame, i: int) -> bool {
    let record = frame.records@[i];
    &&& m.imei@ == frame.imei@
    &&& m.event_io_id == record.io_element.event_io_id
    &&& m.rfid_chip_uid@ == decimal(record.io_element.eight_bytes@[RFID_AVL_ID] as nat)
    &&& m.timestamp_ms == record.timestamp
}

/// The earliest RFID scan of the frame made at or after `started_at_ms`.
pub fn extract_scan(frame: &TeltonikaFrame, started_at_ms: u64) -> (r: Option<RfidScanMessage<'_>>)
    ensures
        match r {
            None => forall|i: int| !#[trigger] is_scan_after(frame.records@, started_at_ms, i),
            Some(m) => exists|i: int|
                #[trigger] is_earliest_scan(frame.records@, started_at_ms, i) && reports_record(
                    m,
                    *frame,
                    i,
                ),
        },
{
    let n = frame.records.len();
    let ghost rs = frame.records@;
    let mut best: Option<usize> = None;
    let mut i: usize = 0;
    while i < n
        invariant
            n == rs.len(),
            rs == frame.records@,
            i <= n,
            match best {
                None => forall|j: int| 0 <= j < i ==> !#[trigger] is_scan_after(rs, started_at_ms, j),
                Some(b) => {
                    &&& b < i
                    &&& is_scan_after(rs, started_at_ms, b as int)
                    &&& forall|j: int|
                        0 <= j < i && #[trigger] is_scan_after(rs, started_at_ms, j)
                            ==> rs[b as int].timestamp <= rs[j].timestamp
                    &&& forall|j: int|
                        0 <= j < b && #[trigger] is_scan_after(rs, started_at_ms, j)
                            ==> rs[j].timestamp > rs[b as int].timestamp
                },
            },
        decreases n - i,
    {
        let record = &frame.records[i];
        if is_rfid_record(record) && record.timestamp >= started_at_ms {
            match best {
                None => {
                    best = Some(i);
                },
                Some(b) => {
                    if record.timestamp < frame.records[b].timestamp {
                        best = Some(i);
                    }
                },
            }
        }
        i = i + 1;
    }
    match best {
        None => {
            assert forall|j: int| !#[trigger] is_scan_after(rs, started_at_ms, j) by {
                if 0 <= j < n {
                }
            }
            None
        },
        Some(b) => {
            let record = &frame.records[b];
            let uid = match record.io_element.eight_bytes.get(&RFID_AVL_ID) {
                Some(uid) => *uid,
                None => 0,
            };
            let m = RfidScanMessage {
                imei: frame.imei.as_str(),
                event_io_id: record.io_element.event_io_id,
                rfid_chip_uid: u64_to_decimal_string(uid),
                timestamp_ms: record.timestamp,
            };
            assert(is_earliest_scan(rs, started_at_ms, b as int));
            Some(m)
        },
    }
}

/// The Redis key of a device's active enrollment: `rfid-enrollment:active:{imei}`.
pub fn active_enrollment_key(imei: &str) -> (key: String)
    ensures
        key@ == "rfid-enrollment:active:"@ + imei@,
{
    let mut key = String::from_str("rfid-enrollment:active:");
    key.append(imei);
    key
}

/// The subject on which a device's card scans are published: `units.rfid.{imei}`.
pub fn rfid_subject(imei: &str) -> (s: String)
    ensures
        s@ == "units.rfid."@ + imei@,
{
    let mut s = String::from_str("units.rfid.");
    s.append(imei);
    s
}

/// A reported scan is the device's earliest RFID scan at or after the start
/// of the enrollment: its record was triggered by the RFID reader (IO id 78)
/// and carries a card UID, it is not older than the start, no other such
/// record is older, and none before it has the same time. The message
/// carries the device, the event id, the record's time, and the card UID in
/// decimal, which reads back as the UID.
pub proof fn lemma_reported_scan(frame: TeltonikaFrame, started_at_ms: u64, m: RfidScanMessage, i: int)
    requires
        is_earliest_scan(frame.records@, started_at_ms, i),
        reports_record(m, frame, i),
    ensures
        ({
            let rs = frame.records@;
            let rec = rs[i];
            &&& 0 <= i < rs.len()
            &&& rec.io_element.event_io_id == 78
            &&& rec.io_element.eight_bytes@.contains_key(78)
            &&& rec.timestamp >= started_at_ms
            &&& m.imei@ == frame.imei@
            &&& m.event_io_id == 78
            &&& m.timestamp_ms == rec.timestamp
            &&& spec_parse_u64(m.rfid_chip_uid@) == Some(rec.io_element.eight_bytes@[78])
            &&& forall|j: int|
                0 <= j < rs.len() && rs[j].io_element.event_io_id == 78
                    && rs[j].io_element.eight_bytes@.contains_key(78) && rs[j].timestamp
                    >= started_at_ms ==> rec.timestamp <= #[trigger] rs[j].timestamp && (j < i
                    ==> rec.timestamp < rs[j].timestamp)
        }),
{
    let rs = frame.records@;
    lemma_decimal_parses_back(rs[i].io_element.eight_bytes@[78]);
    assert forall|j: int|
        0 <= j < rs.len() && rs[j].io_element.event_io_id == 78
            && rs[j].io_element.eight_bytes@.contains_key(78) && rs[j].timestamp
            >= started_at_ms implies rs[i].timestamp <= #[trigger] rs[j].timestamp && (j < i
            ==> rs[i].timestamp < rs[j].timestamp) by {
        assert(is_scan_after(rs, started_at_ms, j));
    }
}

} // verus!
