//! The per-PID statistics collector: a running accumulator of packet
//! counts, byte counts and continuity-counter errors, one slot per
//! possible PID. It has no completion semantics; `write` advances it and
//! `report_rows` renders a sorted snapshot.

use vstd::prelude::*;
use crate::packet::{
    spec_frame_ok, spec_parsed, spec_chunk, spec_cc_next, sat_add, lemma_mod16_succ, PacketView,
    parse_packet,
};
use vstd::slice::slice_subrange;

verus! {

/// Number of distinct 13-bit packet identifiers.
pub const PID_LIMIT: usize = 8192;

/// The counters kept for one PID.
#[derive(Clone, Copy, Debug, PartialEq, Eq, Structural)]
pub struct PidStats {
    /// Packets observed on this PID.
    pub packet_count: u64,
    /// Bytes observed on this PID (188 per packet).
    pub byte_count: u64,
    /// Continuity-counter mismatches observed on this PID.
    pub continuity_error_count: u64,
    /// The continuity counter of the last payload-bearing packet.
    pub last_continuity_counter: u8,
    /// Whether any payload-bearing packet has been seen yet.
    pub seen: bool,
}

/// The counters a PID starts from.
pub open spec fn spec_zero_stats() -> PidStats {
    PidStats {
        packet_count: 0,
        byte_count: 0,
        continuity_error_count: 0,
        last_continuity_counter: 0,
        seen: false,
    }
}

/// The whole table in its reset state.
pub open spec fn spec_initial_stats() -> Seq<PidStats> {
    Seq::new(PID_LIMIT as nat, |i: int| spec_zero_stats())
}

/// Bits per second carried by `window_bytes` bytes over `elapsed_ms`
/// milliseconds, saturating; an empty window has no rate.
pub open spec fn spec_bitrate_bps(window_bytes: u64, elapsed_ms: u64) -> Option<u64> {
    if elapsed_ms == 0 {
        None
    } else if window_bytes * 8000 / (elapsed_ms as int) > u64::MAX {
        Some(u64::MAX)
    } else {
        Some((window_bytes * 8000 / (elapsed_ms as int)) as u64)
    }
}

/// Whether one parsed packet trips the continuity check against slot `s`.
pub open spec fn spec_cc_mismatch(s: PidStats, p: PacketView) -> bool {
    p.has_payload && s.seen && p.continuity_counter != spec_cc_next(s.last_continuity_counter)
}

/// One PID slot after absorbing one parsed packet. Only payload-bearing
/// packets take part in the continuity check, and a mismatch resynchronizes
/// to the observed counter so one gap is counted once.
pub open spec fn spec_pid_step(s: PidStats, p: PacketView) -> PidStats {
    PidStats {
        packet_count: sat_add(s.packet_count, 1),
        byte_count: sat_add(s.byte_count, 188),
        continuity_error_count: if spec_cc_mismatch(s, p) {
            sat_add(s.continuity_error_count, 1)
        } else {
            s.continuity_error_count
        },
        last_continuity_counter: if p.has_payload {
            p.continuity_counter
        } else {
            s.last_continuity_counter
        },
        seen: s.seen || p.has_payload,
    }
}

/// The table after absorbing one raw packet; misframed packets are skipped.
pub open spec fn spec_stats_step(t: Seq<PidStats>, pkt: Seq<u8>) -> Seq<PidStats> {
    if spec_frame_ok(pkt) {
        let p = spec_parsed(pkt);
        t.update(p.pid as int, spec_pid_step(t[p.pid as int], p))
    } else {
        t
    }
}

/// The table after absorbing the first `n` packets of a buffer.
pub open spec fn spec_stats_run(t: Seq<PidStats>, data: Seq<u8>, n: nat) -> Seq<PidStats>
    decreases n,
{
    if n == 0 {
        t
    } else {
        spec_stats_step(spec_stats_run(t, data, (n - 1) as nat), spec_chunk(data, n - 1))
    }
}

/// Whether absorbing `pkt` into table `t` would count a continuity error.
pub open spec fn spec_step_has_cc_error(t: Seq<PidStats>, pkt: Seq<u8>) -> bool {
    spec_frame_ok(pkt) && spec_cc_mismatch(t[spec_parsed(pkt).pid as int], spec_parsed(pkt))
}

/// Law: over a stream in which every packet continues its PID's counter
/// correctly, `write` adds no continuity errors — after any number of
/// packets every PID's error count is exactly what it was before.
pub proof fn lemma_correct_stream_no_cc_errors(t: Seq<PidStats>, data: Seq<u8>, n: nat)
    requires
        t.len() == PID_LIMIT,
        forall|j: int| 0 <= j < n ==> !spec_step_has_cc_error(
            spec_stats_run(t, data, j as nat),
            #[trigger] spec_chunk(data, j),
        ),
    ensures
        spec_stats_run(t, data, n).len() == PID_LIMIT,
        forall|pid: int| 0 <= pid < PID_LIMIT ==> #[trigger] spec_stats_run(t, data, n)[pid]
            .continuity_error_count == t[pid].continuity_error_count,
    decreases n,
{
    if n > 0 {
        lemma_correct_stream_no_cc_errors(t, data, (n - 1) as nat);
        let prev = spec_stats_run(t, data, (n - 1) as nat);
        let pkt = spec_chunk(data, n - 1);
        if spec_frame_ok(pkt) {
            let p = spec_parsed(pkt);
            assert(!spec_step_has_cc_error(prev, pkt));
            assert(spec_stats_run(t, data, n) == prev.update(
                p.pid as int,
                spec_pid_step(prev[p.pid as int], p),
            ));
        }
    }
}

/// The continuity counter carried by packet `i` of a stream whose counters
/// once incremented correctly but whose packet at position `k` was lost:
/// positions from `k` on carry the counter of their original successor.
pub open spec fn spec_gap_cc(c0: u8, k: int, i: int) -> u8 {
    if i < k {
        ((c0 + i) % 16) as u8
    } else {
        ((c0 + i + 1) % 16) as u8
    }
}

/// Every packet of the first `n` is well-framed, on `pid`, payload-bearing,
/// and carries the counter of a once-correct stream missing position `k`.
pub open spec fn spec_gapped_stream(data: Seq<u8>, n: nat, pid: u16, c0: u8, k: int) -> bool {
    forall|i: int| 0 <= i < n ==> {
        let pkt = #[trigger] spec_chunk(data, i);
        &&& spec_frame_ok(pkt)
        &&& spec_parsed(pkt).pid == pid
        &&& spec_parsed(pkt).has_payload
        &&& spec_parsed(pkt).continuity_counter == spec_gap_cc(c0, k, i)
    }
}

proof fn lemma_gap_run(t: Seq<PidStats>, data: Seq<u8>, pid: u16, c0: u8, k: int, n: nat, i: nat)
    requires
        t.len() == PID_LIMIT,
        pid < 8192,
        !t[pid as int].seen,
        t[pid as int].continuity_error_count == 0,
        1 <= k,
        i <= n,
        spec_gapped_stream(data, n, pid, c0, k),
    ensures
        spec_stats_run(t, data, i).len() == PID_LIMIT,
        forall|q: int| 0 <= q < PID_LIMIT && q != pid
            ==> #[trigger] spec_stats_run(t, data, i)[q] == t[q],
        spec_stats_run(t, data, i)[pid as int].seen == (i > 0),
        i > 0 ==> spec_stats_run(t, data, i)[pid as int].last_continuity_counter
            == spec_gap_cc(c0, k, i - 1),
        spec_stats_run(t, data, i)[pid as int].continuity_error_count
            == if i > k { 1u64 } else { 0u64 },
    decreases i,
{
    if i > 0 {
        lemma_gap_run(t, data, pid, c0, k, n, (i - 1) as nat);
        let prev = spec_stats_run(t, data, (i - 1) as nat);
        let pkt = spec_chunk(data, i - 1);
        let p = spec_parsed(pkt);
        assert(spec_frame_ok(pkt) && p.pid == pid && p.has_payload
            && p.continuity_counter == spec_gap_cc(c0, k, i - 1));
        let slot = prev[pid as int];
        if i - 1 == 0 {
            assert(!slot.seen);
        } else {
            assert(slot.last_continuity_counter == spec_gap_cc(c0, k, i - 2));
            if i - 1 < k {
                lemma_mod16_succ(c0 + i - 2);
                assert(spec_cc_next(slot.last_continuity_counter) == spec_gap_cc(c0, k, i - 1));
                assert(!spec_cc_mismatch(slot, p));
            } else if i - 1 == k {
                lemma_mod16_succ(c0 + k - 1);
                lemma_mod16_succ(c0 + k);
                assert(spec_cc_next(slot.last_continuity_counter) == ((c0 + k) % 16) as u8);
                assert(p.continuity_counter == ((c0 + k + 1) % 16) as u8);
                assert(spec_cc_mismatch(slot, p));
            } else {
                lemma_mod16_succ(c0 + i - 1);
                assert(slot.last_continuity_counter == ((c0 + i - 1) % 16) as u8);
                assert(p.continuity_counter == ((c0 + i) % 16) as u8);
                assert(!spec_cc_mismatch(slot, p));
            }
        }
        assert(spec_stats_run(t, data, i) == prev.update(
            pid as int,
            spec_pid_step(slot, p),
        ));
    }
}

/// Law: when exactly one packet is lost from an otherwise correctly
/// counted payload-bearing stream on one PID — neither the first packet
/// nor the one after the last — a fresh slot for that PID records exactly
/// one continuity error, later packets are accepted without cascading
/// further errors, and every other PID's slot is untouched.
pub proof fn lemma_single_drop_one_cc_error(
    t: Seq<PidStats>,
    data: Seq<u8>,
    pid: u16,
    c0: u8,
    k: int,
    n: nat,
)
    requires
        t.len() == PID_LIMIT,
        pid < 8192,
        !t[pid as int].seen,
        t[pid as int].continuity_error_count == 0,
        1 <= k < n,
        spec_gapped_stream(data, n, pid, c0, k),
    ensures
        spec_stats_run(t, data, n)[pid as int].continuity_error_count == 1,
        forall|q: int| 0 <= q < PID_LIMIT && q != pid
            ==> #[trigger] spec_stats_run(t, data, n)[q] == t[q],
{
    lemma_gap_run(t, data, pid, c0, k, n, n);
}

/// Accumulates per-PID delivery statistics for one stream.
pub struct StreamStatistics {
    verbose: bool,
    pids: Vec<PidStats>,
}

impl View for StreamStatistics {
    type V = Seq<PidStats>;

    closed spec fn view(&self) -> Seq<PidStats> {
        self.pids@
    }
}

impl StreamStatistics {
    /// The table always holds one slot per possible PID.
    pub open spec fn wf(&self) -> bool {
        self@.len() == PID_LIMIT
    }

    /// A collector with every counter at zero.
    pub fn new(verbose: bool) -> (r: StreamStatistics)
        ensures
            r.wf(),
            r@ == spec_initial_stats(),
    {
        let mut pids: Vec<PidStats> = Vec::new();
        let mut i: usize = 0;
        while i < PID_LIMIT
            invariant
                i <= PID_LIMIT,
                pids@.len() == i,
                forall|j: int| 0 <= j < i ==> pids@[j] == spec_zero_stats(),
            decreases PID_LIMIT - i,
        {
            pids.push(PidStats {
                packet_count: 0,
                byte_count: 0,
                continuity_error_count: 0,
                last_continuity_counter: 0,
                seen: false,
            });
            i = i + 1;
        }
        let r = StreamStatistics { verbose, pids };
        proof {
            assert(r@ =~= spec_initial_stats());
        }
        r
    }

    /// Zeroes every counter; in-flight parsing state does not exist here,
    /// so nothing else is affected.
    pub fn reset(&mut self)
        ensures
            final(self).wf(),
            final(self)@ == spec_initial_stats(),
    {
        let fresh = StreamStatistics::new(self.verbose);
        self.pids = fresh.pids;
    }

    /// Absorbs `packet_count` packets from a packet-aligned buffer. The new
    /// table is exactly the fold of the per-packet step over the buffer.
    pub fn write(&mut self, pkt: &[u8], packet_count: u32)
        requires
            old(self).wf(),
            pkt@.len() == packet_count * 188,
        ensures
            final(self).wf(),
            final(self)@ == spec_stats_run(old(self)@, pkt@, packet_count as nat),
    {
        let mut i: usize = 0;
        let n = packet_count as usize;
        let total = pkt.len();
        proof {
            assert(pkt@.len() == n * 188);
        }
        while i < n
            invariant
                i <= n,
                pkt@.len() == n * 188,
                total == n * 188,
                self.pids@.len() == PID_LIMIT,
                self.pids@ == spec_stats_run(old(self)@, pkt@, i as nat),
                self.verbose == old(self).verbose,
            decreases n - i,
        {
            proof {
                assert(188 * (i as int) + 188 <= n * 188) by (nonlinear_arith)
                    requires i < n;
            }
            let raw = slice_subrange(pkt, i * 188, i * 188 + 188);
            proof {
                assert(raw@ == spec_chunk(pkt@, i as int));
            }
            match parse_packet(raw) {
                Ok(p) => {
                    let pid = p.pid as usize;
                    proof {
                        assert(spec_parsed(raw@).pid < 8192);
                    }
                    let slot = self.pids[pid];
                    let expected = ((slot.last_continuity_counter as u16 + 1) % 16) as u8;
                    let err = p.has_payload && slot.seen && p.continuity_counter != expected;
                    let next = PidStats {
                        packet_count: if slot.packet_count < u64::MAX {
                            slot.packet_count + 1
                        } else {
                            u64::MAX
                        },
                        byte_count: if slot.byte_count <= u64::MAX - 188 {
                            slot.byte_count + 188
                        } else {
                            u64::MAX
                        },
                        continuity_error_count: if err {
                            if slot.continuity_error_count < u64::MAX {
                                slot.continuity_error_count + 1
                            } else {
                                u64::MAX
                            }
                        } else {
                            slot.continuity_error_count
                        },
                        last_continuity_counter: if p.has_payload {
                            p.continuity_counter
                        } else {
                            slot.last_continuity_counter
                        },
                        seen: slot.seen || p.has_payload,
                    };
                    self.pids[pid] = next;
                    proof {
                        assert(next == spec_pid_step(slot, p@));
                        assert(self.pids@ == spec_stats_run(old(self)@, pkt@, (i + 1) as nat));
                    }
                },
                Err(_) => {
                    proof {
                        assert(self.pids@ == spec_stats_run(old(self)@, pkt@, (i + 1) as nat));
                    }
                },
            }
            i = i + 1;
        }
    }

    /// The counters currently held for one PID.
    pub fn stats_for(&self, pid: u16) -> (r: PidStats)
        requires
            self.wf(),
            pid < 8192,
        ensures
            r == self@[pid as int],
    {
        self.pids[pid as usize]
    }

    /// The bitrate a PID sustained over a measurement window, in bits per
    /// second, saturating at the largest representable rate; undefined
    /// over an empty window. The collector keeps no clock of its own, so
    /// the caller supplies the window it measured.
    pub fn bitrate_bps(window_bytes: u64, elapsed_ms: u64) -> (r: Option<u64>)
        ensures
            r == spec_bitrate_bps(window_bytes, elapsed_ms),
    {
        if elapsed_ms == 0 {
            return None;
        }
        let bits: u128 = (window_bytes as u128) * 8000 / (elapsed_ms as u128);
        if bits > u64::MAX as u128 {
            Some(u64::MAX)
        } else {
            Some(bits as u64)
        }
    }

    /// One report row per PID that has seen traffic, sorted by PID
    /// ascending: (pid, packet count, byte count, continuity error count).
    pub fn report_rows(&self) -> (rows: Vec<(u16, u64, u64, u64)>)
        requires
            self.wf(),
        ensures
            forall|k: int| 0 <= k < rows@.len() ==> {
                let (pid, pc, bc, cc) = #[trigger] rows@[k];
                &&& pid < 8192
                &&& self@[pid as int].packet_count == pc
                &&& self@[pid as int].byte_count == bc
                &&& self@[pid as int].continuity_error_count == cc
                &&& pc > 0
            },
            forall|k1: int, k2: int| 0 <= k1 < k2 < rows@.len()
                ==> rows@[k1].0 < rows@[k2].0,
            forall|q: int| 0 <= q < 8192 && self@[q].packet_count > 0
                ==> exists|k: int| 0 <= k < rows@.len() && (#[trigger] rows@[k]).0 == q,
    {
        let mut rows: Vec<(u16, u64, u64, u64)> = Vec::new();
        let mut pid: usize = 0;
        while pid < PID_LIMIT
            invariant
                self.wf(),
                pid <= PID_LIMIT,
                forall|k: int| 0 <= k < rows@.len() ==> {
                    let (p, pc, bc, cc) = #[trigger] rows@[k];
                    &&& p < pid
                    &&& self@[p as int].packet_count == pc
                    &&& self@[p as int].byte_count == bc
                    &&& self@[p as int].continuity_error_count == cc
                    &&& pc > 0
                },
                forall|k1: int, k2: int| 0 <= k1 < k2 < rows@.len()
                    ==> rows@[k1].0 < rows@[k2].0,
                forall|q: int| 0 <= q < pid && self@[q].packet_count > 0
                    ==> exists|k: int| 0 <= k < rows@.len() && (#[trigger] rows@[k]).0 == q,
            decreases PID_LIMIT - pid,
        {
            let s = self.pids[pid];
            if s.packet_count > 0 {
                let ghost before = rows@;
                rows.push((pid as u16, s.packet_count, s.byte_count, s.continuity_error_count));
                proof {
                    assert(rows@[before.len() as int].0 == pid as u16);
                    assert forall|q: int| 0 <= q < pid + 1 && self@[q].packet_count > 0
                        implies exists|k: int|
                            0 <= k < rows@.len() && (#[trigger] rows@[k]).0 == q by {
                        if q == pid {
                            assert((rows@[before.len() as int]).0 == q);
                        } else {
                            let k = choose|k: int|
                                0 <= k < before.len() && (#[trigger] before[k]).0 == q;
                            assert((rows@[k]).0 == q);
                        }
                    }
                }
            }
            pid = pid + 1;
        }
        rows
    }
}

} // verus!
