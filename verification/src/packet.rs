//! The packet framer: validates one fixed-size transport-stream packet and
//! exposes its routing fields and payload. Parsing is a pure function of the
//! 188 input bytes; every field is pinned down by a spec-level parse.

use vstd::prelude::*;

verus! {

/// Size of one transport-stream packet in bytes.
pub const TS_PACKET_SIZE: usize = 188;

/// The marker every packet must start with.
pub const TS_SYNC_BYTE: u8 = 0x47;

/// Why a raw packet was rejected.
#[derive(Clone, Copy, Debug, PartialEq, Eq, Structural)]
pub enum FrameError {
    /// The leading sync byte is wrong.
    BadSync,
    /// The declared adaptation-field length exceeds the packet size.
    Malformed,
}

/// A validated packet: routing fields plus the payload bytes, if any.
#[derive(Debug)]
pub struct ParsedPacket {
    pub pid: u16,
    pub continuity_counter: u8,
    pub payload_unit_start: bool,
    pub transport_error: bool,
    pub has_payload: bool,
    pub payload: Vec<u8>,
}

/// The mathematical value of a parsed packet.
#[verifier::ext_equal]
pub struct PacketView {
    pub pid: u16,
    pub continuity_counter: u8,
    pub payload_unit_start: bool,
    pub transport_error: bool,
    pub has_payload: bool,
    pub payload: Seq<u8>,
}

impl View for ParsedPacket {
    type V = PacketView;

    open spec fn view(&self) -> PacketView {
        PacketView {
            pid: self.pid,
            continuity_counter: self.continuity_counter,
            payload_unit_start: self.payload_unit_start,
            transport_error: self.transport_error,
            has_payload: self.has_payload,
            payload: self.payload@,
        }
    }
}

/// The sync byte is in place.
pub open spec fn spec_sync_ok(s: Seq<u8>) -> bool {
    s[0] == TS_SYNC_BYTE
}

/// The transport-error indicator bit.
pub open spec fn spec_tei(s: Seq<u8>) -> bool {
    (s[1] / 128) % 2 == 1
}

/// The payload-unit-start indicator bit.
pub open spec fn spec_pusi(s: Seq<u8>) -> bool {
    (s[1] / 64) % 2 == 1
}

/// The 13-bit packet identifier.
pub open spec fn spec_pid(s: Seq<u8>) -> u16 {
    ((s[1] % 32) * 256 + s[2]) as u16
}

/// The two adaptation-field-control bits.
pub open spec fn spec_afc(s: Seq<u8>) -> u8 {
    (s[3] / 16) % 4
}

/// The 4-bit continuity counter.
pub open spec fn spec_cc(s: Seq<u8>) -> u8 {
    (s[3] % 16) as u8
}

/// Whether the adaptation-field-control bits announce a payload.
pub open spec fn spec_has_payload(s: Seq<u8>) -> bool {
    spec_afc(s) % 2 == 1
}

/// Index of the first payload byte; meaningful only when a payload is
/// announced. With an adaptation field the field's length byte is skipped
/// along with the field itself.
pub open spec fn spec_payload_start(s: Seq<u8>) -> int {
    if spec_afc(s) == 1 {
        4
    } else {
        5 + s[4]
    }
}

/// The packet frames correctly: sync byte present, and any adaptation
/// field fits inside the packet.
pub open spec fn spec_frame_ok(s: Seq<u8>) -> bool {
    &&& spec_sync_ok(s)
    &&& (spec_afc(s) == 3 ==> s[4] <= 183)
}

/// The error a misframed packet is rejected with.
pub open spec fn spec_frame_error(s: Seq<u8>) -> FrameError {
    if !spec_sync_ok(s) {
        FrameError::BadSync
    } else {
        FrameError::Malformed
    }
}

/// The value a well-framed packet parses to.
pub open spec fn spec_parsed(s: Seq<u8>) -> PacketView {
    PacketView {
        pid: spec_pid(s),
        continuity_counter: spec_cc(s),
        payload_unit_start: spec_pusi(s),
        transport_error: spec_tei(s),
        has_payload: spec_has_payload(s),
        payload: if spec_has_payload(s) {
            s.subrange(spec_payload_start(s), 188)
        } else {
            Seq::empty()
        },
    }
}

/// The continuity counter expected after `c` on a PID carrying payload.
pub open spec fn spec_cc_next(c: u8) -> u8 {
    ((c + 1) % 16) as u8
}

/// Counting up one step commutes with reduction modulo the counter's
/// period, and never maps a value to itself.
pub proof fn lemma_mod16_succ(a: int)
    requires
        a >= 0,
    ensures
        (a % 16 + 1) % 16 == (a + 1) % 16,
        (a + 1) % 16 != a % 16,
        spec_cc_next(((a % 16) as u8)) == ((a + 1) % 16) as u8,
{
    assert((a % 16 + 1) % 16 == (a + 1) % 16 && (a + 1) % 16 != a % 16) by (nonlinear_arith)
        requires a >= 0;
}

/// Addition on a counter that sticks at the largest representable value.
pub open spec fn sat_add(a: u64, b: u64) -> u64 {
    if a + b > u64::MAX {
        u64::MAX
    } else {
        (a + b) as u64
    }
}

/// Adds `b` to the counter `a`, saturating instead of overflowing.
pub fn sat_add_u64(a: u64, b: u64) -> (r: u64)
    ensures
        r == sat_add(a, b),
{
    if a <= u64::MAX - b {
        a + b
    } else {
        u64::MAX
    }
}

/// The continuity counter expected after `c`, executable form.
pub fn cc_next(c: u8) -> (r: u8)
    ensures
        r == spec_cc_next(c),
{
    ((c as u16 + 1) % 16) as u8
}

/// The bytes of the `i`-th packet inside a packet-aligned buffer.
pub open spec fn spec_chunk(data: Seq<u8>, i: int) -> Seq<u8> {
    data.subrange(188 * i, 188 * (i + 1))
}

/// Validates one raw packet. Succeeds exactly on well-framed packets and
/// returns every field of the spec-level parse; no side effects.
pub fn parse_packet(raw: &[u8]) -> (r: Result<ParsedPacket, FrameError>)
    requires
        raw@.len() == 188,
    ensures
        (r is Ok) == spec_frame_ok(raw@),
        (r matches Ok(p) ==> p@ == spec_parsed(raw@)),
        (r matches Err(e) ==> e == spec_frame_error(raw@)),
{
    if raw[0] != TS_SYNC_BYTE {
        return Err(FrameError::BadSync);
    }
    let b1 = raw[1];
    let b3 = raw[3];
    let tei = (b1 / 128) % 2 == 1;
    let pusi = (b1 / 64) % 2 == 1;
    let pid: u16 = ((b1 % 32) as u16) * 256 + (raw[2] as u16);
    let afc = (b3 / 16) % 4;
    let cc = b3 % 16;
    let has_payload = afc % 2 == 1;
    let mut start: usize = 188;
    if afc == 1 {
        start = 4;
    } else if afc == 3 {
        let l = raw[4];
        if l > 183 {
            return Err(FrameError::Malformed);
        }
        start = 5 + l as usize;
    }
    let mut payload: Vec<u8> = Vec::new();
    if has_payload {
        let mut i: usize = start;
        while i < 188
            invariant
                start <= i <= 188,
                raw@.len() == 188,
                payload@ == raw@.subrange(start as int, i as int),
            decreases 188 - i,
        {
            payload.push(raw[i]);
            proof {
                assert(raw@.subrange(start as int, i + 1)
                    =~= raw@.subrange(start as int, i as int).push(raw@[i as int]));
            }
            i = i + 1;
        }
    }
    let p = ParsedPacket {
        pid,
        continuity_counter: cc,
        payload_unit_start: pusi,
        transport_error: tei,
        has_payload,
        payload,
    };
    proof {
        assert(p@ =~= spec_parsed(raw@));
    }
    Ok(p)
}

} // verus!
