//! The Teltonika device protocol: framing of the byte stream and what the
//! broker does with each frame.
use vstd::prelude::*;

use crate::bigendian::{be_value, read_u32_be_at};
use crate::error::{ClockError, IoError};
use crate::units::teltonika::codec12::{
    codec12_data, codec12_frame, lemma_codec12_frame_layout, parse_response_frame,
    spec_parse_response_frame,
};
use crate::units::teltonika::data_parser::{
    frame_slices_in_bounds, lemma_parse_frame_facts, spec_parse_frame, teltonika_parse_frame_at,
};
use crate::units::teltonika::errors::{DiscardReason, TeltonikaFrameError};
use crate::units::teltonika::types::{FrameModel, TeltonikaFrame};
use crate::units::teltonika::validations::current_timestamp_ms;

pub mod codec12;
pub mod data_parser;
pub mod errors;
pub mod types;
pub mod utils;
pub mod validations;

verus! {

// ==================================
//        Framing the stream
// ==================================

/// Four zero bytes start at `i`.
pub open spec fn is_preamble_at(s: Seq<u8>, i: int) -> bool {
    0 <= i && i + 4 <= s.len() && s[i] == 0 && s[i + 1] == 0 && s[i + 2] == 0 && s[i + 3] == 0
}

/// The first position at or after `i` where a preamble starts.
pub open spec fn preamble_from(s: Seq<u8>, i: int) -> Option<int>
    decreases s.len() - i,
{
    if i < 0 || i + 4 > s.len() {
        None
    } else if is_preamble_at(s, i) {
        Some(i)
    } else {
        preamble_from(s, i + 1)
    }
}

/// The length of the frame that starts at the head of `s`:
/// preamble(4) + data length(4) + data + CRC(4).
pub open spec fn head_frame_len(s: Seq<u8>) -> nat {
    be_value(s.subrange(4, 8)) + 12
}

/// What `try_extract_frame` does to a buffer: the frame it takes off, and
/// the buffer it leaves. Bytes before the first preamble are dropped; a
/// buffer without any preamble is emptied.
pub open spec fn spec_extract(s: Seq<u8>) -> (Option<Seq<u8>>, Seq<u8>) {
    if s.len() < 8 {
        (None, s)
    } else {
        match preamble_from(s, 0) {
            None => (None, Seq::empty()),
            Some(p) => {
                let t = s.skip(p);
                if t.len() < 8 {
                    (None, t)
                } else if t.len() < head_frame_len(t) {
                    (None, t)
                } else {
                    (Some(t.take(head_frame_len(t) as int)), t.skip(head_frame_len(t) as int))
                }
            },
        }
    }
}

proof fn lemma_preamble_from_found(s: Seq<u8>, i: int, j: int)
    requires
        0 <= i <= j,
        is_preamble_at(s, j),
        forall|k: int| i <= k < j ==> !is_preamble_at(s, k),
    ensures
        preamble_from(s, i) == Some(j),
    decreases j - i,
{
    if i < j {
        lemma_preamble_from_found(s, i + 1, j);
    }
}

proof fn lemma_preamble_from_none(s: Seq<u8>, i: int)
    requires
        0 <= i,
        forall|k: int| i <= k ==> !is_preamble_at(s, k),
    ensures
        preamble_from(s, i) is None,
    decreases s.len() - i,
{
    if i + 4 <= s.len() {
        lemma_preamble_from_none(s, i + 1);
    }
}

/// Takes the first complete frame off the head of `acc`, after dropping any
/// bytes before the first preamble (all of `acc` when it holds none).
pub fn try_extract_frame(acc: &mut Vec<u8>) -> (r: Option<Vec<u8>>)
    ensures
        spec_extract(old(acc)@).1 == final(acc)@,
        match spec_extract(old(acc)@).0 {
            Some(f) => r matches Some(v) && v@ == f,
            None => r is None,
        },
{
    if acc.len() < 8 {
        return None;
    }
    let ghost s = acc@;
    let ghost mut p: int = 0;
    if acc[0] != 0 || acc[1] != 0 || acc[2] != 0 || acc[3] != 0 {
        // Find the first four zero bytes.
        let mut i: usize = 1;
        let mut found = false;
        while acc.len() - i >= 4
            invariant_except_break
                1 <= i <= acc@.len(),
                !found,
                acc@ == s,
                forall|k: int| 0 <= k < i ==> !is_preamble_at(s, k),
            ensures
                acc@ == s,
                found ==> is_preamble_at(s, i as int) && forall|k: int|
                    0 <= k < i ==> !is_preamble_at(s, k),
                !found ==> forall|k: int| 0 <= k ==> !is_preamble_at(s, k),
            decreases acc@.len() - i,
        {
            if acc[i] == 0 && acc[i + 1] == 0 && acc[i + 2] == 0 && acc[i + 3] == 0 {
                found = true;
                break;
            }
            i = i + 1;
        }
        if found {
            proof {
                lemma_preamble_from_found(s, 0, i as int);
                p = i as int;
            }
            let tail = acc.split_off(i);
            *acc = tail;
            assert(acc@ =~= s.skip(i as int));
        } else {
            proof {
                lemma_preamble_from_none(s, 0);
            }
            acc.clear();
            return None;
        }
    } else {
        assert(is_preamble_at(s, 0));
        assert(s.skip(0) =~= s);
    }
    let ghost t = acc@;
    assert(preamble_from(s, 0) == Some(p) && t == s.skip(p));
    if acc.len() < 8 {
        return None;
    }
    let data_len = read_u32_be_at(acc.as_slice(), 4);
    if (acc.len() as u64) < 12 + data_len as u64 {
        return None;
    }
    let frame_len = 12 + data_len as usize;
    let mut frame = acc.split_off(frame_len);
    std::mem::swap(acc, &mut frame);
    assert(frame@ =~= t.take(frame_len as int));
    assert(acc@ =~= t.skip(frame_len as int));
    Some(frame)
}

// ==================================
//        Telling frames apart
// ==================================

/// The kind of a frame, by its codec id.
#[derive(Debug, Clone, Copy, PartialEq, Eq, Structural)]
pub enum IncomingFrame {
    /// Codec 8 Extended (0x8E): AVL data.
    Avl,
    /// Codec 12 (0x0C): a response to a command.
    CommandResponse,
    /// Any other codec.
    Unsupported(u8),
}

pub open spec fn spec_classify(frame: Seq<u8>) -> Result<IncomingFrame, IoError> {
    if frame.len() < 9 {
        Err(IoError::FrameTooShortToClassify)
    } else if frame[8] == 0x8E {
        Ok(IncomingFrame::Avl)
    } else if frame[8] == 0x0C {
        Ok(IncomingFrame::CommandResponse)
    } else {
        Ok(IncomingFrame::Unsupported(frame[8]))
    }
}

/// Tells frames apart by the codec id that follows the preamble and length.
pub fn classify_frame(frame: &[u8]) -> (r: Result<IncomingFrame, IoError>)
    ensures
        r == spec_classify(frame@),
{
    if frame.len() < 9 {
        return Err(IoError::FrameTooShortToClassify);
    }
    Ok(
        match frame[8] {
            0x8E => IncomingFrame::Avl,
            0x0C => IncomingFrame::CommandResponse,
            codec_id => IncomingFrame::Unsupported(codec_id),
        },
    )
}

/// Every frame that `try_extract_frame` hands out has a layout that the AVL
/// decoder can slice: its length is exactly its declared length plus twelve.
pub proof fn lemma_extracted_frames_in_bounds(s: Seq<u8>)
    ensures
        spec_extract(s).0 matches Some(f) ==> frame_slices_in_bounds(f),
{
    if let Some(f) = spec_extract(s).0 {
        let p = preamble_from(s, 0).unwrap();
        let t = s.skip(p);
        assert(f.subrange(4, 8) =~= t.subrange(4, 8));
    }
}

// ==================================
//        What to do with a frame
// ==================================

/// What the broker does with an AVL frame.
#[derive(Debug, Clone)]
pub enum AvlFrameOutcome {
    /// The frame decoded: publish it, then acknowledge `ack` records.
    Publish { frame: TeltonikaFrame, ack: u8 },
    /// The frame was refused: acknowledge it anyway with `ack` records, so
    /// that the device does not send it again.
    Discarded { ack: u8, reason: DiscardReason },
    /// The frame is malformed: report the error and do not acknowledge.
    Malformed(IoError),
}

/// The outcome that a decoding result calls for.
pub open spec fn avl_outcome_matches(
    r: AvlFrameOutcome,
    parsed: Result<FrameModel, TeltonikaFrameError>,
) -> bool {
    match parsed {
        Ok(m) => r matches AvlFrameOutcome::Publish { frame, ack } && frame@ == m && ack
            == m.record_count,
        Err(TeltonikaFrameError::Discarded { ack_record_count, reason }) => r
            == AvlFrameOutcome::Discarded { ack: ack_record_count, reason },
        Err(TeltonikaFrameError::Parse(e)) => r == AvlFrameOutcome::Malformed(e),
    }
}

/// Decides what to do with an AVL frame from `imei`, given what reading the
/// server clock gave.
pub fn avl_frame_outcome(frame: &[u8], imei: &str, clock: Result<u64, ClockError>) -> (r:
    AvlFrameOutcome)
    requires
        frame_slices_in_bounds(frame@),
    ensures
        avl_outcome_matches(r, spec_parse_frame(frame@, imei@, clock)),
        r matches AvlFrameOutcome::Publish { frame: m, ack } ==> {
            &&& ack == frame@[9]
            &&& ack == m@.record_count
            &&& m@.records.len() == ack
        },
        r matches AvlFrameOutcome::Discarded { ack, .. } ==> ack == frame@[9],
{
    proof {
        lemma_parse_frame_facts(frame@, imei@, clock);
    }
    match teltonika_parse_frame_at(frame, imei, clock) {
        Ok(data) => {
            let ack = data.record_count;
            AvlFrameOutcome::Publish { frame: data, ack }
        },
        Err(TeltonikaFrameError::Discarded { ack_record_count, reason }) => {
            AvlFrameOutcome::Discarded { ack: ack_record_count, reason }
        },
        Err(TeltonikaFrameError::Parse(e)) => AvlFrameOutcome::Malformed(e),
    }
}

/// What a frame read from the device amounts to.
#[derive(Debug, Clone)]
pub enum FrameOutcome {
    /// An AVL frame, and what to do with it.
    Avl(AvlFrameOutcome),
    /// The text of a Codec 12 response.
    CommandResponse(String),
    /// A frame of another codec, which is ignored.
    Unsupported(u8),
}

/// The outcome that classifying and decoding a frame calls for.
pub open spec fn frame_outcome_matches(
    r: Result<FrameOutcome, IoError>,
    frame: Seq<u8>,
    imei: Seq<char>,
    clock: Result<u64, ClockError>,
) -> bool {
    match spec_classify(frame) {
        Err(e) => r == Err::<FrameOutcome, IoError>(e),
        Ok(IncomingFrame::Avl) => r matches Ok(FrameOutcome::Avl(o)) && avl_outcome_matches(
            o,
            spec_parse_frame(frame, imei, clock),
        ),
        Ok(IncomingFrame::CommandResponse) => match spec_parse_response_frame(frame) {
            Ok(text) => r matches Ok(FrameOutcome::CommandResponse(s)) && s@ == text,
            Err(e) => r == Err::<FrameOutcome, IoError>(e),
        },
        Ok(IncomingFrame::Unsupported(c)) => r matches Ok(FrameOutcome::Unsupported(x)) && x == c,
    }
}

/// Classifies a frame read from the device `imei` and decodes it according
/// to its codec, checking AVL timestamps against the server clock. A frame
/// too short to classify, and a Codec 12 frame that does not decode, are
/// errors that end the connection.
pub fn decode_incoming_frame(frame: &[u8], imei: &str) -> (r: Result<FrameOutcome, IoError>)
    requires
        frame_slices_in_bounds(frame@),
    ensures
        exists|clock: Result<u64, ClockError>| #[trigger] frame_outcome_matches(r, frame@, imei@, clock),
{
    let clock = current_timestamp_ms();
    let r = decode_incoming_frame_at(frame, imei, clock);
    assert(frame_outcome_matches(r, frame@, imei@, clock));
    r
}

/// `decode_incoming_frame`, given what reading the server clock gave.
pub fn decode_incoming_frame_at(frame: &[u8], imei: &str, clock: Result<u64, ClockError>) -> (r:
    Result<FrameOutcome, IoError>)
    requires
        frame_slices_in_bounds(frame@),
    ensures
        frame_outcome_matches(r, frame@, imei@, clock),
{
    match classify_frame(frame)? {
        IncomingFrame::Avl => Ok(FrameOutcome::Avl(avl_frame_outcome(frame, imei, clock))),
        IncomingFrame::CommandResponse => {
            let response = parse_response_frame(frame)?;
            Ok(FrameOutcome::CommandResponse(response))
        },
        IncomingFrame::Unsupported(codec_id) => Ok(FrameOutcome::Unsupported(codec_id)),
    }
}

// ==================================
//        A device connection
// ==================================

/// What taking the next frame off `buffer` gives, and whether the device
/// is ready for commands afterwards.
pub open spec fn next_outcome_matches(
    r: Option<Result<FrameOutcome, IoError>>,
    buffer: Seq<u8>,
    imei: Seq<char>,
    was_ready: bool,
    is_ready: bool,
) -> bool {
    match spec_extract(buffer).0 {
        None => r is None && is_ready == was_ready,
        Some(frame) => match r {
            None => false,
            Some(o) => {
                &&& exists|clock: Result<u64, ClockError>|
                    #[trigger] frame_outcome_matches(o, frame, imei, clock)
                &&& is_ready == (was_ready || o matches Ok(FrameOutcome::Avl(_)))
            },
        },
    }
}

/// The broker's side of a device connection: the bytes received but not yet
/// framed, and whether the device has sent AVL data yet (queued commands
/// are only sent to a device after its first AVL frame).
pub struct Session {
    acc: Vec<u8>,
    ready_for_commands: bool,
}

impl Session {
    /// The bytes received and not yet taken off as frames.
    pub closed spec fn buffer(&self) -> Seq<u8> {
        self.acc@
    }

    /// Whether queued commands may be sent to the device.
    pub closed spec fn is_ready(&self) -> bool {
        self.ready_for_commands
    }

    /// A connection on which nothing was received yet.
    pub fn new() -> (s: Self)
        ensures
            s.buffer() == Seq::<u8>::empty(),
            !s.is_ready(),
    {
        Session { acc: Vec::new(), ready_for_commands: false }
    }

    /// Whether queued commands may be sent to the device.
    pub fn ready_for_commands(&self) -> (r: bool)
        ensures
            r == self.is_ready(),
    {
        self.ready_for_commands
    }

    /// Appends bytes read from the device.
    pub fn receive(&mut self, bytes: &[u8])
        ensures
            final(self).buffer() == old(self).buffer() + bytes@,
            final(self).is_ready() == old(self).is_ready(),
    {
        let mut i: usize = 0;
        while i < bytes.len()
            invariant
                i <= bytes@.len(),
                self.acc@ == old(self).buffer() + bytes@.take(i as int),
                self.ready_for_commands == old(self).is_ready(),
            decreases bytes@.len() - i,
        {
            self.acc.push(bytes[i]);
            i = i + 1;
            assert(self.acc@ =~= old(self).buffer() + bytes@.take(i as int));
        }
        assert(bytes@.take(bytes@.len() as int) =~= bytes@);
    }

    /// Takes the next frame off the buffer and decodes it, checking AVL
    /// timestamps against the server clock. An AVL frame makes the device
    /// ready for commands. `None` when no whole frame is buffered.
    pub fn next_frame_outcome(&mut self, imei: &str) -> (r: Option<Result<FrameOutcome, IoError>>)
        ensures
            final(self).buffer() == spec_extract(old(self).buffer()).1,
            next_outcome_matches(
                r,
                old(self).buffer(),
                imei@,
                old(self).is_ready(),
                final(self).is_ready(),
            ),
            old(self).is_ready() ==> final(self).is_ready(),
    {
        proof {
            lemma_extracted_frames_in_bounds(self.acc@);
        }
        match try_extract_frame(&mut self.acc) {
            None => None,
            Some(frame) => {
                let outcome = decode_incoming_frame(frame.as_slice(), imei);
                if let Ok(FrameOutcome::Avl(_)) = &outcome {
                    self.ready_for_commands = true;
                }
                Some(outcome)
            },
        }
    }
}

/// What the broker does with an AVL frame: a frame that decodes is
/// published and acknowledged with the record count it announces (byte 9),
/// which is the number of records decoded; a frame discarded for a record's
/// timestamp is acknowledged with that same count, so that the device drops
/// it; a malformed frame is reported and not acknowledged.
pub proof fn lemma_avl_outcome_acknowledges_records(
    f: Seq<u8>,
    imei: Seq<char>,
    clock: Result<u64, ClockError>,
    r: AvlFrameOutcome,
)
    requires
        avl_outcome_matches(r, spec_parse_frame(f, imei, clock)),
    ensures
        spec_parse_frame(f, imei, clock) is Ok <==> r is Publish,
        r matches AvlFrameOutcome::Publish { frame, ack } ==> {
            &&& spec_parse_frame(f, imei, clock) == Ok::<FrameModel, TeltonikaFrameError>(frame@)
            &&& ack == f[9]
            &&& ack == frame@.record_count
            &&& frame@.records.len() == ack
        },
        r matches AvlFrameOutcome::Discarded { ack, .. } ==> ack == f[9],
        r is Malformed <==> spec_parse_frame(f, imei, clock) matches Err(TeltonikaFrameError::Parse(_)),
{
    lemma_parse_frame_facts(f, imei, clock);
}

/// Readiness for commands, once reached, lasts for the connection: taking a
/// frame never makes a ready device unready, an AVL frame makes it ready,
/// and anything else leaves readiness as it was.
pub proof fn lemma_readiness_is_kept(
    r: Option<Result<FrameOutcome, IoError>>,
    buffer: Seq<u8>,
    imei: Seq<char>,
    was_ready: bool,
    is_ready: bool,
)
    requires
        next_outcome_matches(r, buffer, imei, was_ready, is_ready),
    ensures
        was_ready ==> is_ready,
        r matches Some(Ok(FrameOutcome::Avl(_))) ==> is_ready,
        !(r matches Some(Ok(FrameOutcome::Avl(_)))) ==> is_ready == was_ready,
{
}

// ==================================
//        Laws of the framing
// ==================================

/// A whole frame at the head of the buffer is taken off intact, and what
/// follows it stays in the buffer.
pub proof fn lemma_extract_whole_frame(f: Seq<u8>, rest: Seq<u8>)
    requires
        f.len() >= 8,
        is_preamble_at(f, 0),
        f.len() == head_frame_len(f),
    ensures
        spec_extract(f + rest) == (Some(f), rest),
{
    let s = f + rest;
    assert(is_preamble_at(s, 0));
    assert(preamble_from(s, 0) == Some(0int));
    assert(s.skip(0) =~= s);
    assert(s.subrange(4, 8) =~= f.subrange(4, 8));
    assert(s.take(f.len() as int) =~= f);
    assert(s.skip(f.len() as int) =~= rest);
}

/// Extraction only drops bytes from the front of the buffer: the frame and
/// the bytes left behind are, in this order, the tail of the old buffer.
pub proof fn lemma_extract_keeps_stream_order(s: Seq<u8>)
    ensures
        ({
            let (f, rest) = spec_extract(s);
            let taken = match f {
                Some(f) => f,
                None => Seq::<u8>::empty(),
            };
            taken.len() + rest.len() <= s.len() && s.skip(s.len() - taken.len() - rest.len())
                == taken + rest
        }),
{
    let (f, rest) = spec_extract(s);
    if s.len() >= 8 {
        match preamble_from(s, 0) {
            None => {
                assert(s.skip(s.len() as int) =~= Seq::<u8>::empty());
            },
            Some(p) => {
                lemma_preamble_from_bounds(s, 0);
                let t = s.skip(p);
                if t.len() >= 8 && t.len() >= head_frame_len(t) {
                    let n = head_frame_len(t) as int;
                    assert(t.take(n) + t.skip(n) =~= t);
                    assert(s.skip(s.len() - t.len()) =~= t);
                } else {
                    assert(s.skip(s.len() - t.len()) =~= t);
                }
            },
        }
    } else {
        assert(s.skip(0) =~= s);
    }
}

proof fn lemma_preamble_from_bounds(s: Seq<u8>, i: int)
    ensures
        preamble_from(s, i) matches Some(p) ==> i <= p && p + 4 <= s.len() && is_preamble_at(s, p),
    decreases s.len() - i,
{
    if i >= 0 && i + 4 <= s.len() && !is_preamble_at(s, i) {
        lemma_preamble_from_bounds(s, i + 1);
    }
}

/// A Codec 12 frame arriving at the head of the buffer is taken off whole
/// and recognised as a command response.
pub proof fn lemma_codec12_frame_is_extracted(kind: u8, quantity: u8, payload: Seq<u8>, rest: Seq<
    u8,
>)
    requires
        payload.len() + 8 < 0x1_0000_0000,
    ensures
        spec_extract(codec12_frame(kind, quantity, payload) + rest) == (
            Some(codec12_frame(kind, quantity, payload)),
            rest,
        ),
        spec_classify(codec12_frame(kind, quantity, payload)) == Ok::<IncomingFrame, IoError>(
            IncomingFrame::CommandResponse,
        ),
{
    let f = codec12_frame(kind, quantity, payload);
    lemma_codec12_frame_layout(kind, quantity, payload);
    assert(f[0] == f.subrange(0, 4)[0] && f[1] == f.subrange(0, 4)[1] && f[2] == f.subrange(0, 4)[2]
        && f[3] == f.subrange(0, 4)[3]);
    assert(f[8] == f.subrange(8, 8 + codec12_data(kind, quantity, payload).len() as int)[0]);
    lemma_extract_whole_frame(f, rest);
}

} // verus!
