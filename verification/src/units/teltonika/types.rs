//! The decoded form of a Codec 8 Extended AVL frame.
use std::collections::BTreeMap;

use vstd::prelude::*;

verus! {

/// A decoded AVL data frame from one device.
#[derive(Debug, Clone)]
pub struct TeltonikaFrame {
    pub imei: String,
    pub codec_id: u8,
    pub record_count: u8,
    pub records: Vec<AvlData>,
}

/// One AVL record.
#[derive(Debug, Clone)]
pub struct AvlData {
    /// Epoch milliseconds.
    pub timestamp: u64,
    pub priority: u8,
    pub gps_element: GpsElementBlock,
    pub io_element: IoElementBlock,
}

/// The GPS part of an AVL record.
#[derive(Debug, Clone, Copy, PartialEq, Eq, Structural)]
pub struct GpsElementBlock {
    pub longitude: i32,
    pub latitude: i32,
    pub altitude: i16,
    pub angle: u16,
    pub satellites: u8,
    pub speed: u16,
}

/// The IO part of an AVL record: values keyed by IO id, grouped by width.
#[derive(Debug, Clone)]
pub struct IoElementBlock {
    pub event_io_id: u16,
    pub n_total: u16,
    pub one_byte: BTreeMap<u16, u8>,
    pub two_bytes: BTreeMap<u16, u16>,
    pub four_bytes: BTreeMap<u16, u32>,
    pub eight_bytes: BTreeMap<u16, u64>,
    pub x_bytes: BTreeMap<u16, Vec<u8>>,
}

/// The abstract IO element: every value as a number or a byte string.
#[verifier::ext_equal]
pub struct IoModel {
    pub event_io_id: u16,
    pub n_total: u16,
    pub one_byte: Map<u16, nat>,
    pub two_bytes: Map<u16, nat>,
    pub four_bytes: Map<u16, nat>,
    pub eight_bytes: Map<u16, nat>,
    pub x_bytes: Map<u16, Seq<u8>>,
}

/// The abstract AVL record.
#[verifier::ext_equal]
pub struct AvlModel {
    pub timestamp: u64,
    pub priority: u8,
    pub gps_element: GpsElementBlock,
    pub io_element: IoModel,
}

/// The abstract frame.
#[verifier::ext_equal]
pub struct FrameModel {
    pub imei: Seq<char>,
    pub codec_id: u8,
    pub record_count: u8,
    pub records: Seq<AvlModel>,
}

pub open spec fn nat_map_u8(m: Map<u16, u8>) -> Map<u16, nat> {
    m.map_values(|v: u8| v as nat)
}

pub open spec fn nat_map_u16(m: Map<u16, u16>) -> Map<u16, nat> {
    m.map_values(|v: u16| v as nat)
}

pub open spec fn nat_map_u32(m: Map<u16, u32>) -> Map<u16, nat> {
    m.map_values(|v: u32| v as nat)
}

pub open spec fn nat_map_u64(m: Map<u16, u64>) -> Map<u16, nat> {
    m.map_values(|v: u64| v as nat)
}

pub open spec fn seq_map(m: Map<u16, Vec<u8>>) -> Map<u16, Seq<u8>> {
    m.map_values(|v: Vec<u8>| v@)
}

impl View for IoElementBlock {
    type V = IoModel;

    open spec fn view(&self) -> IoModel {
        IoModel {
            event_io_id: self.event_io_id,
            n_total: self.n_total,
            one_byte: nat_map_u8(self.one_byte@),
            two_bytes: nat_map_u16(self.two_bytes@),
            four_bytes: nat_map_u32(self.four_bytes@),
            eight_bytes: nat_map_u64(self.eight_bytes@),
            x_bytes: seq_map(self.x_bytes@),
        }
    }
}

impl View for AvlData {
    type V = AvlModel;

    open spec fn view(&self) -> AvlModel {
        AvlModel {
            timestamp: self.timestamp,
            priority: self.priority,
            gps_element: self.gps_element,
            io_element: self.io_element@,
        }
    }
}

pub open spec fn records_view(rs: Seq<AvlData>) -> Seq<AvlModel> {
    rs.map_values(|r: AvlData| r@)
}

impl View for TeltonikaFrame {
    type V = FrameModel;

    open spec fn view(&self) -> FrameModel {
        FrameModel {
            imei: self.imei@,
            codec_id: self.codec_id,
            record_count: self.record_count,
            records: records_view(self.records@),
        }
    }
}

impl Default for IoElementBlock {
    fn default() -> (r: Self)
        ensures
            r@ == (IoModel {
                event_io_id: 0,
                n_total: 0,
                one_byte: Map::empty(),
                two_bytes: Map::empty(),
                four_bytes: Map::empty(),
                eight_bytes: Map::empty(),
                x_bytes: Map::empty(),
            }),
    {
        let r = IoElementBlock {
            event_io_id: 0,
            n_total: 0,
            one_byte: BTreeMap::new(),
            two_bytes: BTreeMap::new(),
            four_bytes: BTreeMap::new(),
            eight_bytes: BTreeMap::new(),
            x_bytes: BTreeMap::new(),
        };
        assert(nat_map_u8(r.one_byte@) =~= Map::empty());
        assert(nat_map_u16(r.two_bytes@) =~= Map::empty());
        assert(nat_map_u32(r.four_bytes@) =~= Map::empty());
        assert(nat_map_u64(r.eight_bytes@) =~= Map::empty());
        assert(seq_map(r.x_bytes@) =~= Map::empty());
        r
    }
}

/// Inserting into a map commutes with widening its values.
pub proof fn lemma_nat_map_u8_insert(m: Map<u16, u8>, k: u16, v: u8)
    ensures
        nat_map_u8(m.insert(k, v)) == nat_map_u8(m).insert(k, v as nat),
{
    assert(nat_map_u8(m.insert(k, v)) =~= nat_map_u8(m).insert(k, v as nat));
}

pub proof fn lemma_nat_map_u16_insert(m: Map<u16, u16>, k: u16, v: u16)
    ensures
        nat_map_u16(m.insert(k, v)) == nat_map_u16(m).insert(k, v as nat),
{
    assert(nat_map_u16(m.insert(k, v)) =~= nat_map_u16(m).insert(k, v as nat));
}

pub proof fn lemma_nat_map_u32_insert(m: Map<u16, u32>, k: u16, v: u32)
    ensures
        nat_map_u32(m.insert(k, v)) == nat_map_u32(m).insert(k, v as nat),
{
    assert(nat_map_u32(m.insert(k, v)) =~= nat_map_u32(m).insert(k, v as nat));
}

pub proof fn lemma_nat_map_u64_insert(m: Map<u16, u64>, k: u16, v: u64)
    ensures
        nat_map_u64(m.insert(k, v)) == nat_map_u64(m).insert(k, v as nat),
{
    assert(nat_map_u64(m.insert(k, v)) =~= nat_map_u64(m).insert(k, v as nat));
}

pub proof fn lemma_seq_map_insert(m: Map<u16, Vec<u8>>, k: u16, v: Vec<u8>)
    ensures
        seq_map(m.insert(k, v)) == seq_map(m).insert(k, v@),
{
    assert(seq_map(m.insert(k, v)) =~= seq_map(m).insert(k, v@));
}

} // verus!
