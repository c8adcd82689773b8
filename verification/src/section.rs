//! The PSI section assembler: reconstructs one table section at a time from
//! the payloads of packets on a single PID, honouring the pointer-field
//! convention on payload starts, discarding accumulations broken by
//! continuity gaps, and delivering only sections whose CRC-32 matches.

use vstd::prelude::*;
use crate::crc::{crc32_seq, crc32};
use crate::packet::{spec_cc_next, sat_add, sat_add_u64, cc_next};
use vstd::slice::{slice_subrange, slice_to_vec};

verus! {

/// The 12-bit declared length of the section body, read from its header.
pub open spec fn spec_section_length(s: Seq<u8>) -> int {
    (s[1] % 16) * 256 + s[2]
}

/// The full byte size of a section: three header bytes plus the body.
pub open spec fn spec_section_total(s: Seq<u8>) -> int {
    3 + spec_section_length(s)
}

/// A 32-bit big-endian value read at offset `i`.
pub open spec fn spec_be32(s: Seq<u8>, i: int) -> u32 {
    (s[i] * 0x100_0000 + s[i + 1] * 0x1_0000 + s[i + 2] * 0x100 + s[i + 3]) as u32
}

/// A reassembled section is valid exactly when the checksum over all but
/// its last four bytes equals the value stored in those four bytes.
pub open spec fn spec_crc_ok(sec: Seq<u8>) -> bool {
    &&& sec.len() >= 4
    &&& crc32_seq(sec.take(sec.len() - 4)) == spec_be32(sec, sec.len() - 4)
}

/// The mathematical state of one assembler.
#[verifier::ext_equal]
pub struct SectionAssemblerView {
    /// A section accumulation is in progress.
    pub active: bool,
    /// A payload-bearing packet has been seen on this PID.
    pub have_cc: bool,
    /// Continuity counter of the last payload-bearing packet.
    pub last_cc: u8,
    /// Bytes accumulated for the in-progress section.
    pub buf: Seq<u8>,
    /// Sections discarded because a new start arrived first.
    pub truncated_count: u64,
    /// Sections discarded because their checksum did not match.
    pub crc_error_count: u64,
}

/// The state a fresh assembler starts from.
pub open spec fn spec_sec_init() -> SectionAssemblerView {
    SectionAssemblerView {
        active: false,
        have_cc: false,
        last_cc: 0,
        buf: Seq::empty(),
        truncated_count: 0,
        crc_error_count: 0,
    }
}

/// Checks an accumulation for completeness: once the buffer reaches the
/// declared size, the section is cut off there and delivered if its CRC
/// matches, else discarded and counted. A declared body too small to hold
/// a CRC is discarded outright.
pub open spec fn spec_try_complete(
    st: SectionAssemblerView,
) -> (SectionAssemblerView, Option<Seq<u8>>) {
    if !st.active || st.buf.len() < 3 {
        (st, None)
    } else if spec_section_length(st.buf) < 4 {
        (SectionAssemblerView { active: false, buf: Seq::empty(), ..st }, None)
    } else if st.buf.len() >= spec_section_total(st.buf) {
        let sec = st.buf.take(spec_section_total(st.buf));
        if spec_crc_ok(sec) {
            (SectionAssemblerView { active: false, buf: Seq::empty(), ..st }, Some(sec))
        } else {
            (
                SectionAssemblerView {
                    active: false,
                    buf: Seq::empty(),
                    crc_error_count: sat_add(st.crc_error_count, 1),
                    ..st
                },
                None,
            )
        }
    } else {
        (st, None)
    }
}

/// One step of the assembler on the payload of one payload-bearing packet
/// of its PID. A start indicator abandons any incomplete accumulation
/// (counted as truncated) and begins anew at the pointer-field offset; a
/// continuation extends the accumulation unless a continuity gap broke it.
pub open spec fn spec_sec_step(
    st: SectionAssemblerView,
    pusi: bool,
    cc: u8,
    payload: Seq<u8>,
) -> (SectionAssemblerView, Option<Seq<u8>>) {
    let gap = st.have_cc && cc != spec_cc_next(st.last_cc);
    let st0 = SectionAssemblerView { have_cc: true, last_cc: cc, ..st };
    if pusi {
        let st1 = if st.active {
            SectionAssemblerView { truncated_count: sat_add(st.truncated_count, 1), ..st0 }
        } else {
            st0
        };
        if payload.len() < 1 || 1 + payload[0] > payload.len() {
            (SectionAssemblerView { active: false, buf: Seq::empty(), ..st1 }, None)
        } else {
            spec_try_complete(
                SectionAssemblerView {
                    active: true,
                    buf: payload.skip(1 + payload[0]),
                    ..st1
                },
            )
        }
    } else if st.active {
        if gap {
            (SectionAssemblerView { active: false, buf: Seq::empty(), ..st0 }, None)
        } else {
            spec_try_complete(SectionAssemblerView { buf: st.buf + payload, ..st0 })
        }
    } else {
        (st0, None)
    }
}

/// Law: whatever the state and input, a delivered section is CRC-valid,
/// is exactly as long as its header declares, and holds at least the
/// header and the checksum.
pub proof fn lemma_emitted_section_valid(
    st: SectionAssemblerView,
    pusi: bool,
    cc: u8,
    payload: Seq<u8>,
)
    ensures
        spec_sec_step(st, pusi, cc, payload).1 matches Some(sec) ==> {
            &&& spec_crc_ok(sec)
            &&& sec.len() == spec_section_total(sec)
            &&& sec.len() >= 7
        },
{
}

/// Reassembles PSI sections from the payloads of one PID.
pub struct SectionAssembler {
    active: bool,
    have_cc: bool,
    last_cc: u8,
    buf: Vec<u8>,
    truncated_count: u64,
    crc_error_count: u64,
}

impl View for SectionAssembler {
    type V = SectionAssemblerView;

    closed spec fn view(&self) -> SectionAssemblerView {
        SectionAssemblerView {
            active: self.active,
            have_cc: self.have_cc,
            last_cc: self.last_cc,
            buf: self.buf@,
            truncated_count: self.truncated_count,
            crc_error_count: self.crc_error_count,
        }
    }
}

impl SectionAssembler {
    /// An assembler with nothing in progress.
    pub fn new() -> (r: SectionAssembler)
        ensures
            r@ == spec_sec_init(),
    {
        let r = SectionAssembler {
            active: false,
            have_cc: false,
            last_cc: 0,
            buf: Vec::new(),
            truncated_count: 0,
            crc_error_count: 0,
        };
        proof {
            assert(r@ =~= spec_sec_init());
        }
        r
    }

    /// Sections delivered so far were never affected by these; exposed for
    /// diagnostics: accumulations abandoned by a new start.
    pub fn truncated_count(&self) -> (r: u64)
        ensures
            r == self@.truncated_count,
    {
        self.truncated_count
    }

    /// Completed accumulations discarded for a checksum mismatch.
    pub fn crc_error_count(&self) -> (r: u64)
        ensures
            r == self@.crc_error_count,
    {
        self.crc_error_count
    }

    fn try_complete(&mut self) -> (r: Option<Vec<u8>>)
        ensures
            final(self)@ == spec_try_complete(old(self)@).0,
            (r is Some) == (spec_try_complete(old(self)@).1 is Some),
            (r matches Some(v) ==> spec_try_complete(old(self)@).1 == Some(v@)),
    {
        if !self.active || self.buf.len() < 3 {
            return None;
        }
        let slen: usize = (self.buf[1] as usize % 16) * 256 + self.buf[2] as usize;
        if slen < 4 {
            self.active = false;
            self.buf.clear();
            proof {
                assert(self@ =~= spec_try_complete(old(self)@).0);
            }
            return None;
        }
        let total: usize = 3 + slen;
        if self.buf.len() < total {
            return None;
        }
        let sec: Vec<u8> = slice_to_vec(slice_subrange(self.buf.as_slice(), 0, total));
        self.active = false;
        self.buf.clear();
        let computed = crc32(slice_subrange(sec.as_slice(), 0, total - 4));
        let stored: u32 = (sec[total - 4] as u32) * 0x100_0000 + (sec[total - 3] as u32)
            * 0x1_0000 + (sec[total - 2] as u32) * 0x100 + (sec[total - 1] as u32);
        proof {
            assert(sec@ == old(self)@.buf.take(spec_section_total(old(self)@.buf)));
            assert(sec@.take(sec@.len() - 4) =~= old(self)@.buf.take(total - 4));
            assert(stored == spec_be32(sec@, sec@.len() - 4));
        }
        if computed == stored {
            proof {
                assert(self@ =~= spec_try_complete(old(self)@).0);
            }
            Some(sec)
        } else {
            self.crc_error_count = sat_add_u64(self.crc_error_count, 1);
            proof {
                assert(self@ =~= spec_try_complete(old(self)@).0);
            }
            None
        }
    }

    /// Absorbs the payload of one payload-bearing packet of this PID and
    /// delivers a section when one completes; the new state and any
    /// delivery are exactly those of the spec-level step.
    pub fn push(&mut self, pusi: bool, cc: u8, payload: &[u8]) -> (r: Option<Vec<u8>>)
        ensures
            final(self)@ == spec_sec_step(old(self)@, pusi, cc, payload@).0,
            (r is Some) == (spec_sec_step(old(self)@, pusi, cc, payload@).1 is Some),
            (r matches Some(v) ==> spec_sec_step(old(self)@, pusi, cc, payload@).1 == Some(v@)),
    {
        let gap = self.have_cc && cc != cc_next(self.last_cc);
        self.have_cc = true;
        self.last_cc = cc;
        if pusi {
            if self.active {
                self.truncated_count = sat_add_u64(self.truncated_count, 1);
            }
            if payload.len() < 1 || 1 + (payload[0] as usize) > payload.len() {
                self.active = false;
                self.buf.clear();
                proof {
                    assert(self@ =~= spec_sec_step(old(self)@, pusi, cc, payload@).0);
                }
                None
            } else {
                let start: usize = 1 + payload[0] as usize;
                self.active = true;
                self.buf = slice_to_vec(slice_subrange(payload, start, payload.len()));
                proof {
                    assert(self.buf@ =~= payload@.skip(1 + payload@[0]));
                }
                self.try_complete()
            }
        } else if self.active {
            if gap {
                self.active = false;
                self.buf.clear();
                proof {
                    assert(self@ =~= spec_sec_step(old(self)@, pusi, cc, payload@).0);
                }
                None
            } else {
                let mut tail = slice_to_vec(payload);
                self.buf.append(&mut tail);
                proof {
                    assert(self.buf@ == old(self)@.buf + payload@);
                }
                self.try_complete()
            }
        } else {
            proof {
                assert(self@ =~= spec_sec_step(old(self)@, pusi, cc, payload@).0);
            }
            None
        }
    }
}

} // verus!
