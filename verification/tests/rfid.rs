use std::collections::BTreeMap;

use broker::rfid::{
    active_enrollment_key, extract_scan, has_rfid_record, is_rfid_record, rfid_subject,
    RFID_AVL_ID,
};
use broker::units::teltonika::types::{AvlData, GpsElementBlock, IoElementBlock, TeltonikaFrame};

fn record(timestamp: u64, event_io_id: u16, uid: Option<u64>) -> AvlData {
    let mut eight_bytes = BTreeMap::new();
    if let Some(uid) = uid {
        eight_bytes.insert(RFID_AVL_ID, uid);
    }

    AvlData {
        timestamp,
        priority: 0,
        gps_element: GpsElementBlock {
            longitude: 0,
            latitude: 0,
            altitude: 0,
            angle: 0,
            satellites: 0,
            speed: 0,
        },
        io_element: IoElementBlock {
            event_io_id,
            n_total: eight_bytes.len() as u16,
            eight_bytes,
            ..Default::default()
        },
    }
}

#[test]
fn extracts_the_earliest_rfid_scan_after_enrollment_started() {
    let frame = TeltonikaFrame {
        imei: "866069063120602".to_string(),
        codec_id: 0x8e,
        record_count: 3,
        records: vec![
            record(1_749_999_999_999, RFID_AVL_ID, Some(1)),
            record(1_750_000_000_002, RFID_AVL_ID, Some(u64::MAX)),
            record(1_750_000_000_001, RFID_AVL_ID, Some(42)),
        ],
    };

    let message = extract_scan(&frame, 1_750_000_000_000).unwrap();

    assert_eq!(message.imei, frame.imei);
    assert_eq!(message.event_io_id, RFID_AVL_ID);
    assert_eq!(message.rfid_chip_uid, "42");
    assert_eq!(message.timestamp_ms, 1_750_000_000_001);
}

#[test]
fn requires_event_78_and_its_eight_byte_value() {
    let frame = TeltonikaFrame {
        imei: "866069063120602".to_string(),
        codec_id: 0x8e,
        record_count: 2,
        records: vec![
            record(1_750_000_000_001, 1, Some(42)),
            record(1_750_000_000_002, RFID_AVL_ID, None),
        ],
    };

    assert_eq!(extract_scan(&frame, 1_750_000_000_000), None);
}

#[test]
fn keeps_all_64_bits_of_the_uid_in_decimal() {
    let frame = TeltonikaFrame {
        imei: "866069063120602".to_string(),
        codec_id: 0x8e,
        record_count: 1,
        records: vec![record(1_750_000_000_001, RFID_AVL_ID, Some(u64::MAX))],
    };
    let message = extract_scan(&frame, 1_750_000_000_000).unwrap();
    assert_eq!(message.rfid_chip_uid, "18446744073709551615");
}

#[test]
fn picks_the_first_of_equally_early_scans() {
    let frame = TeltonikaFrame {
        imei: "1".to_string(),
        codec_id: 0x8e,
        record_count: 3,
        records: vec![
            record(10, RFID_AVL_ID, Some(7)),
            record(5, RFID_AVL_ID, Some(8)),
            record(5, RFID_AVL_ID, Some(9)),
        ],
    };
    let message = extract_scan(&frame, 5).unwrap();
    assert_eq!(message.rfid_chip_uid, "8");
    assert_eq!(message.timestamp_ms, 5);
    assert_eq!(extract_scan(&frame, 11), None);
}

#[test]
fn recognises_rfid_records() {
    assert!(is_rfid_record(&record(1, RFID_AVL_ID, Some(0))));
    assert!(!is_rfid_record(&record(1, RFID_AVL_ID, None)));
    assert!(!is_rfid_record(&record(1, 77, Some(0))));
    let frame = TeltonikaFrame {
        imei: "1".to_string(),
        codec_id: 0x8e,
        record_count: 2,
        records: vec![record(1, 1, None), record(2, RFID_AVL_ID, Some(3))],
    };
    assert!(has_rfid_record(&frame));
    let empty = TeltonikaFrame { imei: "1".to_string(), codec_id: 0x8e, record_count: 0, records: vec![] };
    assert!(!has_rfid_record(&empty));
}

#[test]
fn builds_enrollment_key_and_subject() {
    assert_eq!(active_enrollment_key("866"), "rfid-enrollment:active:866");
    assert_eq!(rfid_subject("866"), "units.rfid.866");
}
