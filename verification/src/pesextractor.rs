//! The PES reassembler: filters packets by PID, reconstructs packetized
//! elementary-stream packets across packet boundaries, and queues those
//! whose stream id matches the configured filter, in the order their
//! terminating byte arrived. Framing errors drop the affected packet only;
//! a continuity gap drops the one in flight and resynchronizes at the next
//! start indicator.

use vstd::prelude::*;
use crate::packet::{
    spec_frame_ok, spec_parsed, spec_chunk, spec_cc_next, sat_add, sat_add_u64, cc_next,
    lemma_mod16_succ, parse_packet,
};
use vstd::slice::{slice_subrange, slice_to_vec};

verus! {

/// Cap on one in-progress reassembly: an unbounded-length stream that
/// never terminates is forcibly discarded past this size.
pub const PES_MAX_BUFFER: usize = 1048576;

/// One reassembled elementary-stream packet.
pub struct PesPacket {
    pub stream_id: u8,
    pub pts: Option<u64>,
    pub dts: Option<u64>,
    pub payload: Vec<u8>,
}

/// The mathematical value of one reassembled packet.
#[verifier::ext_equal]
pub struct PesPacketView {
    pub stream_id: u8,
    pub pts: Option<u64>,
    pub dts: Option<u64>,
    pub payload: Seq<u8>,
}

impl View for PesPacket {
    type V = PesPacketView;

    open spec fn view(&self) -> PesPacketView {
        PesPacketView {
            stream_id: self.stream_id,
            pts: self.pts,
            dts: self.dts,
            payload: self.payload@,
        }
    }
}

/// The values of a packet list.
pub open spec fn spec_pes_views(s: Seq<PesPacket>) -> Seq<PesPacketView> {
    s.map_values(|p: PesPacket| p@)
}

/// The three-byte start-code prefix is in place.
pub open spec fn spec_pes_start_ok(b: Seq<u8>) -> bool {
    b.len() >= 3 && b[0] == 0 && b[1] == 0 && b[2] == 1
}

/// The declared packet length: bytes following the length field, zero
/// meaning "read until the next start".
pub open spec fn spec_pes_length(b: Seq<u8>) -> int {
    b[4] * 256 + b[5]
}

/// Full byte size of a bounded packet, header included.
pub open spec fn spec_pes_total(b: Seq<u8>) -> int {
    6 + spec_pes_length(b)
}

/// A 33-bit timestamp read from its five-byte marker encoding at `i`.
pub open spec fn spec_ts33(b: Seq<u8>, i: int) -> u64 {
    (((b[i] / 2) % 8) * 0x4000_0000 + b[i + 1] * 0x40_0000 + ((b[i + 2] / 2) % 128) * 0x8000
        + b[i + 3] * 0x80 + b[i + 4] / 2) as u64
}

/// The spec-level parse of one complete packet's bytes: the start code,
/// the optional-header flags, any timestamps the flags announce, and the
/// payload past the declared header length. Rejects exactly the layouts a
/// header cannot frame.
pub open spec fn spec_parse_pes(b: Seq<u8>) -> Option<PesPacketView> {
    if !spec_pes_start_ok(b) || b.len() < 9 {
        None
    } else {
        let flags = (b[7] / 64) % 4;
        let hdl = b[8];
        if 9 + hdl > b.len() {
            None
        } else if flags >= 2 && hdl < 5 {
            None
        } else if flags == 3 && hdl < 10 {
            None
        } else {
            Some(
                PesPacketView {
                    stream_id: b[3],
                    pts: if flags >= 2 {
                        Some(spec_ts33(b, 9))
                    } else {
                        None
                    },
                    dts: if flags == 3 {
                        Some(spec_ts33(b, 14))
                    } else {
                        None
                    },
                    payload: b.skip(9 + hdl),
                },
            )
        }
    }
}

/// The mathematical state of one reassembler.
#[verifier::ext_equal]
pub struct PesExtractorView {
    /// The PID whose packets are reassembled.
    pub pid: u16,
    /// The stream id that emitted packets must carry.
    pub stream_id: u8,
    /// A reassembly is in progress.
    pub assembling: bool,
    /// A payload-bearing packet of the PID has been seen.
    pub have_cc: bool,
    /// Continuity counter of the last payload-bearing packet.
    pub last_cc: u8,
    /// Bytes accumulated for the in-progress packet.
    pub buf: Seq<u8>,
    /// Completed packets awaiting collection, in completion order.
    pub pending: Seq<PesPacketView>,
    /// Starts rejected because the start-code prefix was absent.
    pub bad_start_count: u64,
}

/// The state a fresh reassembler starts from.
pub open spec fn spec_pes_init(pid: u16, stream_id: u8) -> PesExtractorView {
    PesExtractorView {
        pid,
        stream_id,
        assembling: false,
        have_cc: false,
        last_cc: 0,
        buf: Seq::empty(),
        pending: Seq::empty(),
        bad_start_count: 0,
    }
}

/// Finishes one accumulation whose bytes are `b`: the accumulator resets,
/// and the packet is queued exactly when its stream id matches the filter
/// and its header parses.
pub open spec fn spec_pes_emit(st: PesExtractorView, b: Seq<u8>) -> PesExtractorView {
    let st1 = PesExtractorView { assembling: false, buf: Seq::empty(), ..st };
    if b[3] == st.stream_id {
        match spec_parse_pes(b) {
            Some(pk) => PesExtractorView { pending: st1.pending.push(pk), ..st1 },
            None => st1,
        }
    } else {
        st1
    }
}

/// Checks an accumulation: a bounded packet completes once its declared
/// size is buffered; an unbounded one past the buffer cap is discarded.
pub open spec fn spec_pes_try_complete(st: PesExtractorView) -> PesExtractorView {
    if !st.assembling || st.buf.len() < 6 {
        st
    } else if spec_pes_length(st.buf) > 0 && st.buf.len() >= spec_pes_total(st.buf) {
        spec_pes_emit(st, st.buf.take(spec_pes_total(st.buf)))
    } else if st.buf.len() > PES_MAX_BUFFER {
        PesExtractorView { assembling: false, buf: Seq::empty(), ..st }
    } else {
        st
    }
}

/// One step of the reassembler on one raw packet. Only well-framed,
/// payload-bearing packets of the configured PID take part. A start
/// indicator first terminates a pending unbounded packet, then begins a
/// new accumulation if the start code is present (else it is counted and
/// everything up to the next start is ignored); a continuation extends the
/// accumulation unless a continuity gap broke it.
pub open spec fn spec_pes_step(st: PesExtractorView, pkt: Seq<u8>) -> PesExtractorView {
    if !spec_frame_ok(pkt) {
        st
    } else {
        let p = spec_parsed(pkt);
        if p.pid != st.pid || !p.has_payload {
            st
        } else {
            let gap = st.have_cc && p.continuity_counter != spec_cc_next(st.last_cc);
            let st0 = PesExtractorView {
                have_cc: true,
                last_cc: p.continuity_counter,
                ..st
            };
            if p.payload_unit_start {
                let st1 = if st.assembling && st.buf.len() >= 6 && spec_pes_start_ok(st.buf)
                    && spec_pes_length(st.buf) == 0 {
                    spec_pes_emit(st0, st.buf)
                } else {
                    st0
                };
                if spec_pes_start_ok(p.payload) {
                    spec_pes_try_complete(
                        PesExtractorView { assembling: true, buf: p.payload, ..st1 },
                    )
                } else {
                    PesExtractorView {
                        assembling: false,
                        buf: Seq::empty(),
                        bad_start_count: sat_add(st1.bad_start_count, 1),
                        ..st1
                    }
                }
            } else if !st.assembling {
                st0
            } else if gap {
                PesExtractorView { assembling: false, buf: Seq::empty(), ..st0 }
            } else {
                spec_pes_try_complete(
                    PesExtractorView { buf: st.buf + p.payload, ..st0 },
                )
            }
        }
    }
}

/// The reassembler after the first `n` packets of a buffer.
pub open spec fn spec_pes_run(st: PesExtractorView, data: Seq<u8>, n: nat) -> PesExtractorView
    decreases n,
{
    if n == 0 {
        st
    } else {
        spec_pes_step(spec_pes_run(st, data, (n - 1) as nat), spec_chunk(data, n - 1))
    }
}

/// The byte encoding of one bounded packet without timestamps: the start
/// code, the stream id, the declared length covering the three optional-
/// header bytes and the payload, an empty optional header, the payload.
pub open spec fn spec_pes_wrap(sid: u8, payload: Seq<u8>) -> Seq<u8> {
    seq![
        0u8,
        0u8,
        1u8,
        sid,
        (((payload.len() + 3) / 256) as u8),
        (((payload.len() + 3) % 256) as u8),
        0x80u8,
        0u8,
        0u8,
    ] + payload
}

/// The encoding parses back to exactly the stream id and payload it was
/// built from, with no timestamps, and declares its own byte size.
pub proof fn lemma_pes_wrap_parses(sid: u8, payload: Seq<u8>)
    requires
        payload.len() + 3 <= 65535,
    ensures
        spec_pes_wrap(sid, payload).len() == 9 + payload.len(),
        spec_pes_length(spec_pes_wrap(sid, payload)) == payload.len() + 3,
        spec_pes_total(spec_pes_wrap(sid, payload)) == 9 + payload.len(),
        spec_pes_start_ok(spec_pes_wrap(sid, payload)),
        spec_pes_wrap(sid, payload)[3] == sid,
        spec_parse_pes(spec_pes_wrap(sid, payload)) == Some(
            PesPacketView { stream_id: sid, pts: None, dts: None, payload },
        ),
{
    let w = spec_pes_wrap(sid, payload);
    let l = payload.len() + 3;
    assert(w[0] == 0 && w[1] == 0 && w[2] == 1 && w[3] == sid);
    assert(w[4] == ((l / 256) as u8) && w[5] == ((l % 256) as u8));
    assert(w[6] == 0x80 && w[7] == 0 && w[8] == 0);
    assert(l / 256 <= 255) by (nonlinear_arith)
        requires l <= 65535;
    assert(l % 256 < 256);
    assert((l / 256) * 256 + l % 256 == l) by (nonlinear_arith);
    assert(spec_pes_length(w) == l);
    assert((w[7] / 64) % 4 == 0);
    assert(w.skip(9) =~= payload);
    assert(spec_parse_pes(w) == Some(
        PesPacketView { stream_id: sid, pts: None, dts: None, payload },
    ));
}

/// Length of the `i`-th 184-byte fragment's meaningful prefix: a full
/// fragment except for the final one, which may stop short.
pub open spec fn spec_frag_len(pes: Seq<u8>, i: int) -> int {
    if 184 * (i + 1) <= pes.len() {
        184
    } else {
        pes.len() - 184 * i
    }
}

/// The first `n` packets of `data` carry `pes` fragmented in order on one
/// PID: every packet is well-framed and payload-bearing with a full
/// 184-byte payload, the first carries the start indicator, counters run
/// consecutively from `c0`, and packet `i`'s payload begins with the
/// `i`-th fragment of `pes` (anything past the final fragment is padding).
pub open spec fn spec_fragmented_stream(
    data: Seq<u8>,
    n: nat,
    pid: u16,
    pes: Seq<u8>,
    c0: u8,
) -> bool {
    forall|i: int| 0 <= i < n ==> {
        let p = spec_parsed(#[trigger] spec_chunk(data, i));
        &&& spec_frame_ok(spec_chunk(data, i))
        &&& p.pid == pid
        &&& p.has_payload
        &&& p.payload_unit_start == (i == 0)
        &&& p.continuity_counter == ((c0 + i) % 16) as u8
        &&& p.payload.len() == 184
        &&& p.payload.take(spec_frag_len(pes, i)) == pes.subrange(
            184 * i,
            184 * i + spec_frag_len(pes, i),
        )
    }
}

proof fn lemma_pes_fill(
    st: PesExtractorView,
    data: Seq<u8>,
    pid: u16,
    sid: u8,
    payload: Seq<u8>,
    c0: u8,
    n: nat,
    i: nat,
)
    requires
        st.pid == pid,
        st.stream_id == sid,
        !st.assembling,
        payload.len() + 3 <= 65535,
        1 <= i <= n - 1,
        184 * (n - 1) < spec_pes_wrap(sid, payload).len() <= 184 * n,
        spec_fragmented_stream(data, n, pid, spec_pes_wrap(sid, payload), c0),
    ensures
        ({
            let r = spec_pes_run(st, data, i);
            let pes = spec_pes_wrap(sid, payload);
            &&& r.pid == pid
            &&& r.stream_id == sid
            &&& r.assembling
            &&& r.buf == pes.take(184 * (i as int))
            &&& r.pending == st.pending
            &&& r.have_cc
            &&& r.last_cc == ((c0 + i - 1) % 16) as u8
        }),
    decreases i,
{
    let pes = spec_pes_wrap(sid, payload);
    lemma_pes_wrap_parses(sid, payload);
    if i == 1 {
        let pkt = spec_chunk(data, 0);
        let p = spec_parsed(pkt);
        assert(spec_frag_len(pes, 0) == 184) by {
            assert(184 * 1 <= pes.len());
        }
        assert(p.payload.take(184) =~= p.payload);
        assert(p.payload == pes.subrange(0, 184));
        assert(p.payload[0] == pes[0] && p.payload[1] == pes[1] && p.payload[2] == pes[2]);
        assert(spec_pes_start_ok(p.payload));
        let st1 = PesExtractorView {
            assembling: true,
            buf: p.payload,
            have_cc: true,
            last_cc: p.continuity_counter,
            ..st
        };
        assert(st1.buf[4] == pes[4] && st1.buf[5] == pes[5]);
        assert(spec_pes_length(st1.buf) == spec_pes_length(pes));
        assert(st1.buf.len() == 184 && spec_pes_total(st1.buf) == pes.len() > 184);
        assert(spec_pes_try_complete(st1) == st1);
        assert(spec_pes_run(st, data, 0) == st);
        assert(spec_pes_run(st, data, 1) == spec_pes_step(st, pkt));
        assert(spec_pes_step(st, pkt) == st1);
        assert(st1.buf =~= pes.take(184));
    } else {
        lemma_pes_fill(st, data, pid, sid, payload, c0, n, (i - 1) as nat);
        let r = spec_pes_run(st, data, (i - 1) as nat);
        let pkt = spec_chunk(data, i - 1);
        let p = spec_parsed(pkt);
        lemma_mod16_succ(c0 + i - 2);
        assert(p.continuity_counter == spec_cc_next(r.last_cc));
        assert(spec_frag_len(pes, i - 1) == 184) by {
            assert(184 * i <= 184 * (n - 1));
            assert(184 * i <= pes.len());
        }
        assert(p.payload.take(184) =~= p.payload);
        assert(p.payload == pes.subrange(184 * (i - 1), 184 * (i as int)));
        let st1 = PesExtractorView {
            buf: r.buf + p.payload,
            have_cc: true,
            last_cc: p.continuity_counter,
            ..r
        };
        assert(st1.buf =~= pes.take(184 * (i as int)));
        assert(st1.buf[4] == pes[4] && st1.buf[5] == pes[5]);
        assert(spec_pes_length(st1.buf) == spec_pes_length(pes));
        assert(st1.buf.len() == 184 * i);
        assert(184 * i <= 184 * (n - 1) < pes.len());
        assert(st1.buf.len() < spec_pes_total(st1.buf));
        assert(st1.buf.len() <= PES_MAX_BUFFER);
        assert(spec_pes_try_complete(st1) == st1);
        assert(spec_pes_run(st, data, i) == spec_pes_step(r, pkt));
        assert(spec_pes_step(r, pkt) == st1);
    }
}

/// Law: a payload wrapped as one bounded packet, fragmented in order into
/// full packets on one PID with consecutive counters, is reassembled as
/// exactly one packet carrying the filtered stream id and the original
/// payload bytes, and the reassembler is ready for the next start.
pub proof fn lemma_pes_round_trip(
    st: PesExtractorView,
    data: Seq<u8>,
    pid: u16,
    sid: u8,
    payload: Seq<u8>,
    c0: u8,
    n: nat,
)
    requires
        st.pid == pid,
        st.stream_id == sid,
        !st.assembling,
        payload.len() + 3 <= 65535,
        n >= 1,
        184 * (n - 1) < spec_pes_wrap(sid, payload).len() <= 184 * n,
        spec_fragmented_stream(data, n, pid, spec_pes_wrap(sid, payload), c0),
    ensures
        spec_pes_run(st, data, n).pending == st.pending.push(
            PesPacketView { stream_id: sid, pts: None, dts: None, payload },
        ),
        !spec_pes_run(st, data, n).assembling,
{
    let pes = spec_pes_wrap(sid, payload);
    lemma_pes_wrap_parses(sid, payload);
    let pk = PesPacketView { stream_id: sid, pts: None, dts: None, payload };
    if n == 1 {
        let pkt = spec_chunk(data, 0);
        let p = spec_parsed(pkt);
        let f = spec_frag_len(pes, 0);
        assert(f == pes.len());
        assert(p.payload.take(f) == pes.subrange(0, pes.len() as int));
        assert(pes.subrange(0, pes.len() as int) =~= pes);
        assert(p.payload[0] == p.payload.take(f)[0] && p.payload[1] == p.payload.take(f)[1]
            && p.payload[2] == p.payload.take(f)[2]);
        assert(spec_pes_start_ok(p.payload));
        let st1 = PesExtractorView {
            assembling: true,
            buf: p.payload,
            have_cc: true,
            last_cc: p.continuity_counter,
            ..st
        };
        assert(st1.buf[4] == p.payload.take(f)[4] && st1.buf[5] == p.payload.take(f)[5]);
        assert(spec_pes_length(st1.buf) == spec_pes_length(pes));
        assert(st1.buf.len() >= spec_pes_total(st1.buf));
        assert(st1.buf.take(spec_pes_total(st1.buf)) =~= pes);
        assert(spec_pes_run(st, data, 0) == st);
        assert(spec_pes_run(st, data, 1) == spec_pes_step(st, pkt));
        assert(spec_pes_step(st, pkt) == spec_pes_try_complete(st1));
        assert(spec_pes_try_complete(st1) == spec_pes_emit(st1, pes));
        assert(spec_pes_emit(st1, pes).pending =~= st.pending.push(pk));
    } else {
        lemma_pes_fill(st, data, pid, sid, payload, c0, n, (n - 1) as nat);
        let r = spec_pes_run(st, data, (n - 1) as nat);
        let pkt = spec_chunk(data, n - 1);
        let p = spec_parsed(pkt);
        lemma_mod16_succ(c0 + n - 2);
        assert(p.continuity_counter == spec_cc_next(r.last_cc));
        let f = spec_frag_len(pes, n - 1);
        assert(f == pes.len() - 184 * (n - 1));
        assert(p.payload.take(f) == pes.subrange(184 * (n - 1), pes.len() as int));
        let st1 = PesExtractorView {
            buf: r.buf + p.payload,
            have_cc: true,
            last_cc: p.continuity_counter,
            ..r
        };
        assert(st1.buf.len() == 184 * n);
        assert(st1.buf.take(pes.len() as int) =~= pes) by {
            assert(forall|k: int| 0 <= k < pes.len() ==> #[trigger] st1.buf[k] == pes[k]) by {
                assert forall|k: int| 0 <= k < pes.len() implies #[trigger] st1.buf[k]
                    == pes[k] by {
                    if k < 184 * (n - 1) {
                        assert(st1.buf[k] == r.buf[k]);
                        assert(r.buf[k] == pes.take(184 * (n - 1))[k]);
                    } else {
                        assert(st1.buf[k] == p.payload[k - 184 * (n - 1)]);
                        assert(p.payload[k - 184 * (n - 1)] == p.payload.take(f)[k - 184 * (n
                            - 1)]);
                        assert(p.payload.take(f)[k - 184 * (n - 1)] == pes.subrange(
                            184 * (n - 1),
                            pes.len() as int,
                        )[k - 184 * (n - 1)]);
                    }
                }
            }
        }
        assert(st1.buf[4] == pes[4] && st1.buf[5] == pes[5]);
        assert(spec_pes_length(st1.buf) == spec_pes_length(pes));
        assert(st1.buf.len() >= spec_pes_total(st1.buf));
        assert(spec_pes_run(st, data, n) == spec_pes_step(r, pkt));
        assert(spec_pes_step(r, pkt) == spec_pes_try_complete(st1));
        assert(spec_pes_try_complete(st1) == spec_pes_emit(st1, pes));
        assert(spec_pes_emit(st1, pes).pending =~= st.pending.push(pk));
    }
}

/// Law: a start whose code is absent is counted and emits nothing new, and
/// it never locks the stream — the reassembler is left idle, in exactly
/// the state from which the next correctly framed packet is reassembled.
pub proof fn lemma_bad_start_resynchronizes(st: PesExtractorView, pkt: Seq<u8>)
    requires
        spec_frame_ok(pkt),
        spec_parsed(pkt).pid == st.pid,
        spec_parsed(pkt).has_payload,
        spec_parsed(pkt).payload_unit_start,
        !spec_pes_start_ok(spec_parsed(pkt).payload),
    ensures
        !spec_pes_step(st, pkt).assembling,
        spec_pes_step(st, pkt).bad_start_count == sat_add(st.bad_start_count, 1),
        !st.assembling ==> spec_pes_step(st, pkt).pending == st.pending,
        spec_pes_step(st, pkt).pid == st.pid,
        spec_pes_step(st, pkt).stream_id == st.stream_id,
{
}

/// Reads a 33-bit timestamp at offset `i`.
fn read_ts33(b: &[u8], i: usize) -> (r: u64)
    requires
        i + 5 <= b@.len(),
    ensures
        r == spec_ts33(b@, i as int),
{
    ((b[i] / 2) % 8) as u64 * 0x4000_0000 + (b[i + 1] as u64) * 0x40_0000
        + ((b[i + 2] / 2) % 128) as u64 * 0x8000 + (b[i + 3] as u64) * 0x80
        + (b[i + 4] / 2) as u64
}

/// Parses one complete packet's bytes. Succeeds exactly when the
/// spec-level parse does, with the same value.
pub fn parse_pes_packet(b: &[u8]) -> (r: Option<PesPacket>)
    ensures
        (r is Some) == (spec_parse_pes(b@) is Some),
        (r matches Some(p) ==> spec_parse_pes(b@) == Some(p@)),
{
    if b.len() < 9 || b[0] != 0 || b[1] != 0 || b[2] != 1 {
        return None;
    }
    let flags = (b[7] / 64) % 4;
    let hdl = b[8] as usize;
    if 9 + hdl > b.len() {
        return None;
    }
    if flags >= 2 && hdl < 5 {
        return None;
    }
    if flags == 3 && hdl < 10 {
        return None;
    }
    let pts: Option<u64> = if flags >= 2 {
        Some(read_ts33(b, 9))
    } else {
        None
    };
    let dts: Option<u64> = if flags == 3 {
        Some(read_ts33(b, 14))
    } else {
        None
    };
    let p = PesPacket {
        stream_id: b[3],
        pts,
        dts,
        payload: slice_to_vec(slice_subrange(b, 9 + hdl, b.len())),
    };
    proof {
        assert(p.payload@ =~= b@.skip(9 + b@[8]));
        assert(p@ =~= spec_parse_pes(b@).unwrap());
    }
    Some(p)
}

/// Reassembles the elementary stream of one PID, one stream id.
pub struct PesExtractor {
    verbose: bool,
    pid: u16,
    streamid: u8,
    assembling: bool,
    have_cc: bool,
    last_cc: u8,
    buf: Vec<u8>,
    pending: Vec<PesPacket>,
    bad_start_count: u64,
}

impl View for PesExtractor {
    type V = PesExtractorView;

    closed spec fn view(&self) -> PesExtractorView {
        PesExtractorView {
            pid: self.pid,
            stream_id: self.streamid,
            assembling: self.assembling,
            have_cc: self.have_cc,
            last_cc: self.last_cc,
            buf: self.buf@,
            pending: spec_pes_views(self.pending@),
            bad_start_count: self.bad_start_count,
        }
    }
}

impl PesExtractor {
    /// A reassembler for packets of `pid` emitting stream id `streamid`.
    pub fn new(verbose: bool, pid: u16, streamid: u8) -> (r: PesExtractor)
        ensures
            r@ == spec_pes_init(pid, streamid),
    {
        let r = PesExtractor {
            verbose,
            pid,
            streamid,
            assembling: false,
            have_cc: false,
            last_cc: 0,
            buf: Vec::new(),
            pending: Vec::new(),
            bad_start_count: 0,
        };
        proof {
            assert(r@ =~= spec_pes_init(pid, streamid));
        }
        r
    }

    fn emit_complete(&mut self, total: usize)
        requires
            6 <= total <= old(self)@.buf.len(),
        ensures
            final(self)@ == spec_pes_emit(old(self)@, old(self)@.buf.take(total as int)),
    {
        let bytes = slice_subrange(self.buf.as_slice(), 0, total);
        if bytes[3] == self.streamid {
            match parse_pes_packet(bytes) {
                Some(pk) => {
                    let ghost prev = self.pending@;
                    self.pending.push(pk);
                    proof {
                        assert(spec_pes_views(self.pending@)
                            =~= spec_pes_views(prev).push(spec_parse_pes(bytes@).unwrap()));
                    }
                },
                None => {},
            }
        }
        self.assembling = false;
        self.buf.clear();
        proof {
            assert(self@ =~= spec_pes_emit(old(self)@, old(self)@.buf.take(total as int)));
        }
    }

    fn try_complete(&mut self)
        ensures
            final(self)@ == spec_pes_try_complete(old(self)@),
    {
        if !self.assembling || self.buf.len() < 6 {
            return;
        }
        let declared: usize = (self.buf[4] as usize) * 256 + self.buf[5] as usize;
        if declared > 0 {
            let total = 6 + declared;
            if self.buf.len() >= total {
                self.emit_complete(total);
                return;
            }
        }
        if self.buf.len() > PES_MAX_BUFFER {
            self.assembling = false;
            self.buf.clear();
            proof {
                assert(self@ =~= spec_pes_try_complete(old(self)@));
            }
        }
    }

    fn step(&mut self, raw: &[u8])
        requires
            raw@.len() == 188,
        ensures
            final(self)@ == spec_pes_step(old(self)@, raw@),
    {
        let p = match parse_packet(raw) {
            Err(_) => {
                return;
            },
            Ok(p) => p,
        };
        if p.pid != self.pid || !p.has_payload {
            return;
        }
        let gap = self.have_cc && p.continuity_counter != cc_next(self.last_cc);
        self.have_cc = true;
        self.last_cc = p.continuity_counter;
        if p.payload_unit_start {
            if self.assembling && self.buf.len() >= 6 {
                let unbounded = self.buf[0] == 0 && self.buf[1] == 0 && self.buf[2] == 1
                    && (self.buf[4] as usize) * 256 + (self.buf[5] as usize) == 0;
                if unbounded {
                    let whole = self.buf.len();
                    proof {
                        assert(old(self)@.buf.take(whole as int) =~= old(self)@.buf);
                    }
                    self.emit_complete(whole);
                }
            }
            let start_ok = p.payload.len() >= 3 && p.payload[0] == 0 && p.payload[1] == 0
                && p.payload[2] == 1;
            if start_ok {
                self.assembling = true;
                self.buf = slice_to_vec(p.payload.as_slice());
                self.try_complete();
            } else {
                self.assembling = false;
                self.buf.clear();
                self.bad_start_count = sat_add_u64(self.bad_start_count, 1);
            }
            proof {
                assert(self@ =~= spec_pes_step(old(self)@, raw@));
            }
        } else if !self.assembling {
            proof {
                assert(self@ =~= spec_pes_step(old(self)@, raw@));
            }
        } else if gap {
            self.assembling = false;
            self.buf.clear();
            proof {
                assert(self@ =~= spec_pes_step(old(self)@, raw@));
            }
        } else {
            let mut tail = slice_to_vec(p.payload.as_slice());
            self.buf.append(&mut tail);
            proof {
                assert(self.buf@ == old(self)@.buf + p.payload@);
            }
            self.try_complete();
            proof {
                assert(self@ =~= spec_pes_step(old(self)@, raw@));
            }
        }
    }

    /// Feeds `packet_count` packets from a packet-aligned buffer. The new
    /// state — accumulator and queue of completed packets — is exactly the
    /// fold of the per-packet step.
    pub fn write(&mut self, pkt: &[u8], packet_count: i32)
        requires
            packet_count >= 0,
            pkt@.len() == packet_count * 188,
        ensures
            final(self)@ == spec_pes_run(old(self)@, pkt@, packet_count as nat),
    {
        let mut i: usize = 0;
        let n = packet_count as usize;
        let total = pkt.len();
        proof {
            assert(pkt@.len() == n * 188);
        }
        while i < n
            invariant
                i <= n,
                pkt@.len() == n * 188,
                total == n * 188,
                self@ == spec_pes_run(old(self)@, pkt@, i as nat),
            decreases n - i,
        {
            proof {
                assert(188 * (i as int) + 188 <= n * 188) by (nonlinear_arith)
                    requires i < n;
            }
            let raw = slice_subrange(pkt, i * 188, i * 188 + 188);
            proof {
                assert(raw@ == spec_chunk(pkt@, i as int));
            }
            self.step(raw);
            i = i + 1;
        }
    }

    /// Hands over the queued packets, in completion order, and empties the
    /// queue; nothing else changes.
    pub fn take_packets(&mut self) -> (r: Vec<PesPacket>)
        ensures
            spec_pes_views(r@) == old(self)@.pending,
            final(self)@ == (PesExtractorView { pending: Seq::empty(), ..old(self)@ }),
    {
        let mut out: Vec<PesPacket> = Vec::new();
        core::mem::swap(&mut out, &mut self.pending);
        proof {
            assert(spec_pes_views(Seq::<PesPacket>::empty())
                =~= Seq::<PesPacketView>::empty());
            assert(self@ =~= (PesExtractorView { pending: Seq::empty(), ..old(self)@ }));
        }
        out
    }

    /// How many completed packets await collection.
    pub fn pending_count(&self) -> (r: usize)
        ensures
            r == self@.pending.len(),
    {
        self.pending.len()
    }

    /// Starts whose start-code prefix was absent.
    pub fn bad_start_count(&self) -> (r: u64)
        ensures
            r == self@.bad_start_count,
    {
        self.bad_start_count
    }
}

} // verus!
