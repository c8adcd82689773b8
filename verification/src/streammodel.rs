//! The stream model builder: drives one section assembler for the
//! association table's PID and, once a table is captured, one per map-table
//! PID it references; owns the resulting program tree and reports one-shot
//! completion transitions. Malformed or checksum-invalid sections are
//! silently retried; a stream that never stabilizes simply never completes.

use vstd::prelude::*;
use crate::packet::{spec_frame_ok, spec_parsed, spec_chunk, sat_add, sat_add_u64, parse_packet};
use crate::section::{SectionAssembler, SectionAssemblerView, spec_sec_init, spec_sec_step, spec_crc_ok};
use crate::psi::{
    PatEntry, PmtTable, PmtTableView, spec_parse_pat, spec_parse_pmt, parse_pat,
    parse_pmt, clone_pmt,
};
use vstd::slice::slice_subrange;

verus! {

/// Acquisition phase of the builder.
#[derive(Clone, Copy, Debug, PartialEq, Eq, Structural)]
pub enum ModelState {
    /// No association table captured yet.
    AwaitingPat,
    /// Association table captured; map tables still outstanding.
    CollectingPmts,
    /// Every referenced map table captured; snapshot available.
    Complete,
}

/// One tracked map-table PID: its assembler and the table once captured.
pub struct PmtSlot {
    pub pmt_pid: u16,
    pub program_number: u16,
    pub assembler: SectionAssembler,
    pub pmt: Option<PmtTable>,
}

/// The mathematical value of one tracked map-table PID.
#[verifier::ext_equal]
pub struct SlotView {
    pub pmt_pid: u16,
    pub program_number: u16,
    pub assembler: SectionAssemblerView,
    pub pmt: Option<PmtTableView>,
}

impl View for PmtSlot {
    type V = SlotView;

    open spec fn view(&self) -> SlotView {
        SlotView {
            pmt_pid: self.pmt_pid,
            program_number: self.program_number,
            assembler: self.assembler@,
            pmt: match self.pmt {
                Some(t) => Some(t@),
                None => None,
            },
        }
    }
}

/// The values of a slot list.
pub open spec fn spec_slot_views(s: Seq<PmtSlot>) -> Seq<SlotView> {
    s.map_values(|x: PmtSlot| x@)
}

/// One program of a completed model.
pub struct Program {
    pub program_number: u16,
    pub pmt_pid: u16,
    pub pmt: Option<PmtTable>,
}

/// The mathematical value of one program.
#[verifier::ext_equal]
pub struct ProgramView {
    pub program_number: u16,
    pub pmt_pid: u16,
    pub pmt: Option<PmtTableView>,
}

impl View for Program {
    type V = ProgramView;

    open spec fn view(&self) -> ProgramView {
        ProgramView {
            program_number: self.program_number,
            pmt_pid: self.pmt_pid,
            pmt: match self.pmt {
                Some(t) => Some(t@),
                None => None,
            },
        }
    }
}

/// The values of a program list.
pub open spec fn spec_program_views(s: Seq<Program>) -> Seq<ProgramView> {
    s.map_values(|x: Program| x@)
}

/// A program tree: the association table with, per program, its map table.
pub struct Pat {
    pub transport_stream_id: u16,
    pub version: u8,
    pub programs: Vec<Program>,
}

/// The mathematical value of a program tree.
#[verifier::ext_equal]
pub struct PatView {
    pub transport_stream_id: u16,
    pub version: u8,
    pub programs: Seq<ProgramView>,
}

impl View for Pat {
    type V = PatView;

    open spec fn view(&self) -> PatView {
        PatView {
            transport_stream_id: self.transport_stream_id,
            version: self.version,
            programs: spec_program_views(self.programs@),
        }
    }
}

impl Pat {
    /// How many programs the tree lists, network entries included.
    pub fn program_count(&self) -> (r: usize)
        ensures
            r == self@.programs.len(),
    {
        self.programs.len()
    }
}

/// The tree handed out before any model has completed.
pub open spec fn spec_empty_model() -> PatView {
    PatView { transport_stream_id: 0, version: 0, programs: Seq::empty() }
}

/// The mathematical state of the whole builder.
#[verifier::ext_equal]
pub struct StreamModelView {
    pub state: ModelState,
    pub pat_asm: SectionAssemblerView,
    pub transport_stream_id: u16,
    pub version: u8,
    pub entries: Seq<PatEntry>,
    pub slots: Seq<SlotView>,
    pub snapshot: Option<PatView>,
    pub completions: u64,
}

/// The index of the first slot tracking `pid`, or -1 when none does.
pub open spec fn spec_find_slot(slots: Seq<SlotView>, pid: u16) -> int
    decreases slots.len(),
{
    if slots.len() == 0 {
        -1
    } else if slots[0].pmt_pid == pid {
        0
    } else {
        let r = spec_find_slot(slots.skip(1), pid);
        if r < 0 {
            -1
        } else {
            r + 1
        }
    }
}

/// `spec_find_slot` returns -1 exactly when no slot tracks the PID, and
/// otherwise the first tracking index.
pub proof fn lemma_find_slot_props(slots: Seq<SlotView>, pid: u16)
    ensures
        -1 <= spec_find_slot(slots, pid) < slots.len(),
        spec_find_slot(slots, pid) >= 0 ==> {
            &&& slots[spec_find_slot(slots, pid)].pmt_pid == pid
            &&& forall|k: int| 0 <= k < spec_find_slot(slots, pid)
                ==> slots[k].pmt_pid != pid
        },
        spec_find_slot(slots, pid) == -1 ==> forall|k: int|
            0 <= k < slots.len() ==> slots[k].pmt_pid != pid,
    decreases slots.len(),
{
    if slots.len() > 0 && slots[0].pmt_pid != pid {
        let rest = slots.skip(1);
        lemma_find_slot_props(rest, pid);
        assert(forall|k: int| 0 <= k < rest.len() ==> #[trigger] rest[k] == slots[k + 1]);
        let r1 = spec_find_slot(rest, pid);
        if r1 >= 0 {
            assert(slots[r1 + 1].pmt_pid == pid);
            assert forall|k: int| 0 <= k < r1 + 1 implies slots[k].pmt_pid != pid by {
                if k > 0 {
                    assert(rest[k - 1].pmt_pid != pid);
                }
            }
        } else {
            assert forall|k: int| 0 <= k < slots.len() implies slots[k].pmt_pid != pid by {
                if k > 0 {
                    assert(rest[k - 1].pmt_pid != pid);
                }
            }
        }
    }
}

/// Registers one association entry: a fresh assembler slot for its PID,
/// unless the entry names no real program or the PID is already tracked.
pub open spec fn spec_add_slot(slots: Seq<SlotView>, e: PatEntry) -> Seq<SlotView> {
    if e.program_number == 0 || spec_find_slot(slots, e.pmt_pid) >= 0 {
        slots
    } else {
        slots.push(
            SlotView {
                pmt_pid: e.pmt_pid,
                program_number: e.program_number,
                assembler: spec_sec_init(),
                pmt: None,
            },
        )
    }
}

/// The slots registered for the first `n` association entries.
pub open spec fn spec_new_slots(entries: Seq<PatEntry>, n: nat) -> Seq<SlotView>
    decreases n,
{
    if n == 0 {
        Seq::empty()
    } else {
        spec_add_slot(spec_new_slots(entries, (n - 1) as nat), entries[n - 1])
    }
}

/// Every slot has captured its map table.
pub open spec fn spec_all_complete(slots: Seq<SlotView>) -> bool {
    forall|j: int| 0 <= j < slots.len() ==> (#[trigger] slots[j]).pmt is Some
}

/// The program a completed model exposes for one association entry.
pub open spec fn spec_build_program(e: PatEntry, slots: Seq<SlotView>) -> ProgramView {
    ProgramView {
        program_number: e.program_number,
        pmt_pid: e.pmt_pid,
        pmt: if e.program_number != 0 && spec_find_slot(slots, e.pmt_pid) >= 0 {
            slots[spec_find_slot(slots, e.pmt_pid)].pmt
        } else {
            None
        },
    }
}

/// The tree snapshot taken at a completion transition.
pub open spec fn spec_build_model(
    tsid: u16,
    version: u8,
    entries: Seq<PatEntry>,
    slots: Seq<SlotView>,
) -> PatView {
    PatView {
        transport_stream_id: tsid,
        version: version,
        programs: entries.map_values(|e: PatEntry| spec_build_program(e, slots)),
    }
}

/// Takes the completion transition if every slot has its table: the state
/// latches `Complete`, the snapshot is rebuilt, and the one-shot signal
/// counter advances.
pub open spec fn spec_check_complete(m: StreamModelView) -> StreamModelView {
    if m.state == ModelState::CollectingPmts && spec_all_complete(m.slots) {
        StreamModelView {
            state: ModelState::Complete,
            snapshot: Some(
                spec_build_model(m.transport_stream_id, m.version, m.entries, m.slots),
            ),
            completions: sat_add(m.completions, 1),
            ..m
        }
    } else {
        m
    }
}

/// The builder's reaction to one captured, checksum-valid association
/// section: an identical table is ignored; a different one restarts the
/// acquisition with fresh slots for every referenced map-table PID.
pub open spec fn spec_on_pat(m: StreamModelView, sec: Seq<u8>) -> StreamModelView {
    match spec_parse_pat(sec) {
        None => m,
        Some(patv) => {
            if m.state != ModelState::AwaitingPat && patv.transport_stream_id
                == m.transport_stream_id && patv.version == m.version && patv.entries
                == m.entries {
                m
            } else {
                spec_check_complete(
                    StreamModelView {
                        state: ModelState::CollectingPmts,
                        transport_stream_id: patv.transport_stream_id,
                        version: patv.version,
                        entries: patv.entries,
                        slots: spec_new_slots(patv.entries, patv.entries.len()),
                        snapshot: None,
                        ..m
                    },
                )
            }
        },
    }
}

/// The builder's reaction to one captured, checksum-valid section on a
/// tracked map-table PID: a parse failure is retried silently, a parsed
/// table fills the slot.
pub open spec fn spec_on_pmt(m: StreamModelView, j: int, sec: Seq<u8>) -> StreamModelView {
    match spec_parse_pmt(sec) {
        None => spec_check_complete(m),
        Some(t) => spec_check_complete(
            StreamModelView {
                slots: m.slots.update(j, SlotView { pmt: Some(t), ..m.slots[j] }),
                ..m
            },
        ),
    }
}

/// One step of the builder on one raw packet: misframed and payload-free
/// packets are skipped; the association PID always feeds its assembler;
/// tracked map-table PIDs feed theirs only while collecting.
pub open spec fn spec_sm_step(m: StreamModelView, pkt: Seq<u8>) -> StreamModelView {
    if !spec_frame_ok(pkt) {
        m
    } else {
        let p = spec_parsed(pkt);
        if !p.has_payload {
            m
        } else if p.pid == 0 {
            let (assembler, emitted) = spec_sec_step(
                m.pat_asm,
                p.payload_unit_start,
                p.continuity_counter,
                p.payload,
            );
            let m1 = StreamModelView { pat_asm: assembler, ..m };
            match emitted {
                None => m1,
                Some(sec) => spec_on_pat(m1, sec),
            }
        } else if m.state == ModelState::CollectingPmts && spec_find_slot(m.slots, p.pid)
            >= 0 {
            let j = spec_find_slot(m.slots, p.pid);
            let (assembler, emitted) = spec_sec_step(
                m.slots[j].assembler,
                p.payload_unit_start,
                p.continuity_counter,
                p.payload,
            );
            let m1 = StreamModelView {
                slots: m.slots.update(j, SlotView { assembler: assembler, ..m.slots[j] }),
                ..m
            };
            match emitted {
                None => m1,
                Some(sec) => spec_on_pmt(m1, j, sec),
            }
        } else {
            m
        }
    }
}

/// The builder after the first `n` packets of a buffer.
pub open spec fn spec_sm_run(m: StreamModelView, data: Seq<u8>, n: nat) -> StreamModelView
    decreases n,
{
    if n == 0 {
        m
    } else {
        spec_sm_step(spec_sm_run(m, data, (n - 1) as nat), spec_chunk(data, n - 1))
    }
}

/// The state a fresh builder starts from.
pub open spec fn spec_sm_init() -> StreamModelView {
    StreamModelView {
        state: ModelState::AwaitingPat,
        pat_asm: spec_sec_init(),
        transport_stream_id: 0,
        version: 0,
        entries: Seq::empty(),
        slots: Seq::empty(),
        snapshot: None,
        completions: 0,
    }
}

/// `spec_find_slot` is insensitive to a push when it already finds a slot,
/// and a push of the searched PID makes it found.
pub proof fn lemma_find_slot_push(slots: Seq<SlotView>, x: SlotView, pid: u16)
    ensures
        spec_find_slot(slots, pid) >= 0 ==> spec_find_slot(slots.push(x), pid)
            == spec_find_slot(slots, pid),
        spec_find_slot(slots, pid) == -1 && x.pmt_pid == pid
            ==> spec_find_slot(slots.push(x), pid) == slots.len(),
        spec_find_slot(slots, pid) == -1 && x.pmt_pid != pid
            ==> spec_find_slot(slots.push(x), pid) == -1,
    decreases slots.len(),
{
    if slots.len() == 0 {
        assert(slots.push(x)[0] == x);
        if x.pmt_pid != pid {
            assert(slots.push(x).skip(1) =~= Seq::<SlotView>::empty());
            assert(spec_find_slot(Seq::<SlotView>::empty(), pid) == -1);
            assert(spec_find_slot(slots.push(x), pid) == -1);
        }
    } else {
        assert(slots.push(x)[0] == slots[0]);
        if slots[0].pmt_pid != pid {
            lemma_find_slot_props(slots.skip(1), pid);
            lemma_find_slot_push(slots.skip(1), x, pid);
            assert(slots.push(x).skip(1) =~= slots.skip(1).push(x));
        }
    }
}

/// `spec_find_slot` only reads the tracked PIDs, so an update that keeps
/// the slot's PID keeps the search result.
pub proof fn lemma_find_slot_update_same_pid(
    slots: Seq<SlotView>,
    j: int,
    x: SlotView,
    pid: u16,
)
    requires
        0 <= j < slots.len(),
        x.pmt_pid == slots[j].pmt_pid,
    ensures
        spec_find_slot(slots.update(j, x), pid) == spec_find_slot(slots, pid),
    decreases slots.len(),
{
    if j == 0 {
        assert(slots.update(j, x)[0] == x);
        if slots[0].pmt_pid != pid {
            assert(slots.update(j, x).skip(1) =~= slots.skip(1));
        }
    } else {
        assert(slots.update(j, x)[0] == slots[0]);
        if slots[0].pmt_pid != pid {
            lemma_find_slot_update_same_pid(slots.skip(1), j - 1, x, pid);
            assert(slots.update(j, x).skip(1) =~= slots.skip(1).update(j - 1, x));
        }
    }
}

/// Every entry that names a real program has a slot tracking its PID.
pub open spec fn spec_slots_cover(entries: Seq<PatEntry>, slots: Seq<SlotView>) -> bool {
    forall|i: int| 0 <= i < entries.len()
        ==> ((#[trigger] entries[i]).program_number != 0
            ==> spec_find_slot(slots, entries[i].pmt_pid) >= 0)
}

/// Freshly registered slots track every real program of their entries and
/// hold no table yet.
pub proof fn lemma_new_slots_fresh(entries: Seq<PatEntry>, n: nat)
    requires
        n <= entries.len(),
    ensures
        spec_slots_cover(entries.take(n as int), spec_new_slots(entries, n)),
        forall|j: int| 0 <= j < spec_new_slots(entries, n).len()
            ==> (#[trigger] spec_new_slots(entries, n)[j]).pmt is None,
    decreases n,
{
    if n > 0 {
        lemma_new_slots_fresh(entries, (n - 1) as nat);
        let prev = spec_new_slots(entries, (n - 1) as nat);
        let cur = spec_new_slots(entries, n);
        let e = entries[n - 1];
        assert(forall|i: int| 0 <= i < n - 1
            ==> #[trigger] entries.take(n - 1)[i] == entries.take(n as int)[i]);
        assert forall|i: int| 0 <= i < n && (#[trigger] entries.take(n as int)[i])
            .program_number != 0 implies spec_find_slot(cur, entries.take(n as int)[i].pmt_pid)
            >= 0 by {
            let p = entries.take(n as int)[i].pmt_pid;
            if i < n - 1 {
                assert(entries.take(n - 1)[i] == entries.take(n as int)[i]);
                assert(spec_find_slot(prev, p) >= 0);
                if e.program_number == 0 || spec_find_slot(prev, e.pmt_pid) >= 0 {
                } else {
                    lemma_find_slot_push(
                        prev,
                        SlotView {
                            pmt_pid: e.pmt_pid,
                            program_number: e.program_number,
                            assembler: spec_sec_init(),
                            pmt: None,
                        },
                        p,
                    );
                }
            } else {
                assert(entries.take(n as int)[i] == e);
                if spec_find_slot(prev, e.pmt_pid) >= 0 {
                    assert(cur == prev);
                } else {
                    lemma_find_slot_push(
                        prev,
                        SlotView {
                            pmt_pid: e.pmt_pid,
                            program_number: e.program_number,
                            assembler: spec_sec_init(),
                            pmt: None,
                        },
                        e.pmt_pid,
                    );
                }
            }
        }
    }
}

/// A table that some checksum-valid section parses to.
pub open spec fn spec_pmt_from_valid_section(t: PmtTableView) -> bool {
    exists|sec: Seq<u8>| spec_crc_ok(sec) && spec_parse_pmt(sec) == Some(t)
}

/// Every program of a snapshot is fully populated: a real program always
/// carries a map table, and one some checksum-valid section parses to.
pub open spec fn spec_model_populated(s: PatView) -> bool {
    forall|i: int| 0 <= i < s.programs.len()
        ==> ((#[trigger] s.programs[i]).program_number != 0
            ==> (s.programs[i].pmt matches Some(t) && spec_pmt_from_valid_section(t)))
}

/// The builder invariant behind the completion guarantee: while collecting
/// or complete, every real program of the current table has a tracked
/// slot; a slot's table always comes from a checksum-valid section; and
/// any snapshot is fully populated.
pub open spec fn spec_sm_wf(m: StreamModelView) -> bool {
    &&& (m.state == ModelState::CollectingPmts || m.state == ModelState::Complete)
        ==> spec_slots_cover(m.entries, m.slots)
    &&& forall|j: int| 0 <= j < m.slots.len()
        ==> ((#[trigger] m.slots[j]).pmt matches Some(t) ==> spec_pmt_from_valid_section(t))
    &&& (m.snapshot matches Some(s) ==> spec_model_populated(s))
}

proof fn lemma_check_complete_wf(m: StreamModelView)
    requires
        spec_sm_wf(m),
    ensures
        spec_sm_wf(spec_check_complete(m)),
{
    if m.state == ModelState::CollectingPmts && spec_all_complete(m.slots) {
        let s = spec_build_model(m.transport_stream_id, m.version, m.entries, m.slots);
        assert forall|i: int| 0 <= i < s.programs.len()
            && (#[trigger] s.programs[i]).program_number != 0 implies (
            s.programs[i].pmt matches Some(t) && spec_pmt_from_valid_section(t)) by {
            assert(s.programs[i] == spec_build_program(m.entries[i], m.slots));
            assert(m.entries[i].program_number != 0);
            let f = spec_find_slot(m.slots, m.entries[i].pmt_pid);
            assert(f >= 0);
            lemma_find_slot_props(m.slots, m.entries[i].pmt_pid);
            assert(m.slots[f].pmt is Some);
            assert(s.programs[i].pmt == m.slots[f].pmt);
        }
        assert(spec_model_populated(s));
    }
}

/// Law: one step preserves the builder invariant — in particular, a slot's
/// table entry never flips to complete except through a checksum-valid
/// section, and a snapshot is only ever taken with every real program's
/// table present.
pub proof fn lemma_sm_step_wf(m: StreamModelView, pkt: Seq<u8>)
    requires
        spec_sm_wf(m),
    ensures
        spec_sm_wf(spec_sm_step(m, pkt)),
{
    if spec_frame_ok(pkt) {
        let p = spec_parsed(pkt);
        if p.has_payload {
            if p.pid == 0 {
                let (assembler, emitted) = spec_sec_step(
                    m.pat_asm,
                    p.payload_unit_start,
                    p.continuity_counter,
                    p.payload,
                );
                let m1 = StreamModelView { pat_asm: assembler, ..m };
                assert(spec_sm_wf(m1));
                match emitted {
                    None => {},
                    Some(sec) => {
                        match spec_parse_pat(sec) {
                            None => {},
                            Some(patv) => {
                                if m.state != ModelState::AwaitingPat
                                    && patv.transport_stream_id == m.transport_stream_id
                                    && patv.version == m.version && patv.entries == m.entries {
                                } else {
                                    let slots = spec_new_slots(patv.entries, patv.entries.len());
                                    lemma_new_slots_fresh(patv.entries, patv.entries.len());
                                    assert(patv.entries.take(patv.entries.len() as int)
                                        =~= patv.entries);
                                    let m2 = StreamModelView {
                                        state: ModelState::CollectingPmts,
                                        transport_stream_id: patv.transport_stream_id,
                                        version: patv.version,
                                        entries: patv.entries,
                                        slots: slots,
                                        snapshot: None,
                                        ..m1
                                    };
                                    assert(spec_sm_wf(m2));
                                    lemma_check_complete_wf(m2);
                                }
                            },
                        }
                    },
                }
            } else if m.state == ModelState::CollectingPmts
                && spec_find_slot(m.slots, p.pid) >= 0 {
                let j = spec_find_slot(m.slots, p.pid);
                lemma_find_slot_props(m.slots, p.pid);
                let (assembler, emitted) = spec_sec_step(
                    m.slots[j].assembler,
                    p.payload_unit_start,
                    p.continuity_counter,
                    p.payload,
                );
                let s1 = SlotView { assembler: assembler, ..m.slots[j] };
                let m1 = StreamModelView { slots: m.slots.update(j, s1), ..m };
                assert forall|i: int| 0 <= i < m.entries.len()
                    && (#[trigger] m.entries[i]).program_number != 0 implies spec_find_slot(
                    m1.slots,
                    m.entries[i].pmt_pid,
                ) >= 0 by {
                    lemma_find_slot_update_same_pid(m.slots, j, s1, m.entries[i].pmt_pid);
                }
                assert(spec_sm_wf(m1));
                match emitted {
                    None => {},
                    Some(sec) => {
                        crate::section::lemma_emitted_section_valid(
                            m.slots[j].assembler,
                            p.payload_unit_start,
                            p.continuity_counter,
                            p.payload,
                        );
                        assert(spec_crc_ok(sec));
                        match spec_parse_pmt(sec) {
                            None => {
                                lemma_check_complete_wf(m1);
                            },
                            Some(t) => {
                                assert(spec_pmt_from_valid_section(t));
                                let s2 = SlotView { pmt: Some(t), ..m1.slots[j] };
                                let m2 = StreamModelView {
                                    slots: m1.slots.update(j, s2),
                                    ..m1
                                };
                                assert forall|i: int| 0 <= i < m.entries.len()
                                    && (#[trigger] m.entries[i]).program_number != 0
                                    implies spec_find_slot(m2.slots, m.entries[i].pmt_pid)
                                    >= 0 by {
                                    lemma_find_slot_update_same_pid(
                                        m1.slots,
                                        j,
                                        s2,
                                        m.entries[i].pmt_pid,
                                    );
                                }
                                assert(spec_sm_wf(m2));
                                lemma_check_complete_wf(m2);
                            },
                        }
                    },
                }
            }
        }
    }
}

/// Law: a step advances the one-shot completion counter at most once, and
/// never backwards.
pub proof fn lemma_completion_one_shot(m: StreamModelView, pkt: Seq<u8>)
    ensures
        m.completions <= spec_sm_step(m, pkt).completions <= sat_add(m.completions, 1),
{
}

/// Law: once complete, the snapshot and the completion counter persist
/// through further packets — map-table PIDs are no longer consumed — until
/// an association table differing in id, version or program set restarts
/// the acquisition.
pub proof fn lemma_snapshot_latched(m: StreamModelView, pkt: Seq<u8>)
    requires
        m.state == ModelState::Complete,
    ensures
        ({
            let r = spec_sm_step(m, pkt);
            ||| {
                &&& r.state == ModelState::Complete
                &&& r.snapshot == m.snapshot
                &&& r.completions == m.completions
                &&& r.slots == m.slots
            }
            ||| r.entries != m.entries
            ||| r.version != m.version
            ||| r.transport_stream_id != m.transport_stream_id
        }),
{
}

/// Law: from a fresh builder, after any packets whatsoever — including
/// checksum-corrupted table sections — any snapshot the builder hands out
/// is fully populated, every table in it parsed from a checksum-valid
/// section. A corrupted section can never flip a program's entry.
pub proof fn lemma_no_partial_completion(data: Seq<u8>, n: nat)
    ensures
        spec_sm_wf(spec_sm_run(spec_sm_init(), data, n)),
        spec_sm_run(spec_sm_init(), data, n).snapshot matches Some(s)
            ==> spec_model_populated(s),
    decreases n,
{
    if n == 0 {
    } else {
        lemma_no_partial_completion(data, (n - 1) as nat);
        lemma_sm_step_wf(spec_sm_run(spec_sm_init(), data, (n - 1) as nat), spec_chunk(data, n - 1));
    }
}

/// Builds and owns the program tree for one stream.
pub struct StreamModel {
    verbose: bool,
    state: ModelState,
    pat_asm: SectionAssembler,
    transport_stream_id: u16,
    version: u8,
    entries: Vec<PatEntry>,
    slots: Vec<PmtSlot>,
    snapshot: Option<Pat>,
    completions: u64,
}

impl View for StreamModel {
    type V = StreamModelView;

    closed spec fn view(&self) -> StreamModelView {
        StreamModelView {
            state: self.state,
            pat_asm: self.pat_asm@,
            transport_stream_id: self.transport_stream_id,
            version: self.version,
            entries: self.entries@,
            slots: spec_slot_views(self.slots@),
            snapshot: match self.snapshot {
                Some(p) => Some(p@),
                None => None,
            },
            completions: self.completions,
        }
    }
}

/// The first slot index tracking `pid`, as the spec-level search finds it.
fn find_slot_index(slots: &Vec<PmtSlot>, pid: u16) -> (r: Option<usize>)
    ensures
        match r {
            Some(j) => j < slots@.len() && spec_find_slot(spec_slot_views(slots@), pid)
                == j as int,
            None => spec_find_slot(spec_slot_views(slots@), pid) == -1,
        },
{
    let ghost views = spec_slot_views(slots@);
    let mut i: usize = 0;
    while i < slots.len()
        invariant
            i <= slots@.len(),
            views == spec_slot_views(slots@),
            forall|k: int| 0 <= k < i ==> views[k].pmt_pid != pid,
        decreases slots@.len() - i,
    {
        if slots[i].pmt_pid == pid {
            proof {
                lemma_find_slot_props(views, pid);
                assert(views[i as int].pmt_pid == pid);
            }
            return Some(i);
        }
        i = i + 1;
    }
    proof {
        lemma_find_slot_props(views, pid);
    }
    None
}

/// Whether every slot has captured its table.
fn all_complete(slots: &Vec<PmtSlot>) -> (r: bool)
    ensures
        r == spec_all_complete(spec_slot_views(slots@)),
{
    let ghost views = spec_slot_views(slots@);
    let mut i: usize = 0;
    while i < slots.len()
        invariant
            i <= slots@.len(),
            views == spec_slot_views(slots@),
            forall|k: int| 0 <= k < i ==> (#[trigger] views[k]).pmt is Some,
        decreases slots@.len() - i,
    {
        if slots[i].pmt.is_none() {
            proof {
                assert(!(views[i as int].pmt is Some));
            }
            return false;
        }
        i = i + 1;
    }
    true
}

/// Fresh slots for the map-table PIDs an association table references.
fn new_slots(entries: &Vec<PatEntry>) -> (r: Vec<PmtSlot>)
    ensures
        spec_slot_views(r@) == spec_new_slots(entries@, entries@.len()),
{
    let mut slots: Vec<PmtSlot> = Vec::new();
    let mut n: usize = 0;
    while n < entries.len()
        invariant
            n <= entries@.len(),
            spec_slot_views(slots@) == spec_new_slots(entries@, n as nat),
        decreases entries@.len() - n,
    {
        let e = entries[n];
        if e.program_number != 0 && find_slot_index(&slots, e.pmt_pid).is_none() {
            let ghost prev = slots@;
            slots.push(PmtSlot {
                pmt_pid: e.pmt_pid,
                program_number: e.program_number,
                assembler: SectionAssembler::new(),
                pmt: None,
            });
            proof {
                assert(spec_slot_views(slots@) =~= spec_slot_views(prev).push(
                    SlotView {
                        pmt_pid: e.pmt_pid,
                        program_number: e.program_number,
                        assembler: spec_sec_init(),
                        pmt: None,
                    },
                ));
            }
        }
        n = n + 1;
    }
    slots
}

/// The program tree snapshot for the current acquisition.
fn build_model(
    tsid: u16,
    version: u8,
    entries: &Vec<PatEntry>,
    slots: &Vec<PmtSlot>,
) -> (r: Pat)
    ensures
        r@ == spec_build_model(tsid, version, entries@, spec_slot_views(slots@)),
{
    let ghost views = spec_slot_views(slots@);
    let mut programs: Vec<Program> = Vec::new();
    let mut i: usize = 0;
    while i < entries.len()
        invariant
            i <= entries@.len(),
            views == spec_slot_views(slots@),
            spec_program_views(programs@) == entries@.take(i as int).map_values(
                |e: PatEntry| spec_build_program(e, views),
            ),
        decreases entries@.len() - i,
    {
        let e = entries[i];
        let pmt: Option<PmtTable> = if e.program_number != 0 {
            match find_slot_index(slots, e.pmt_pid) {
                Some(j) => match &slots[j].pmt {
                    Some(t) => Some(clone_pmt(t)),
                    None => None,
                },
                None => None,
            }
        } else {
            None
        };
        let ghost prev = programs@;
        programs.push(Program { program_number: e.program_number, pmt_pid: e.pmt_pid, pmt });
        proof {
            assert(spec_program_views(programs@) =~= spec_program_views(prev).push(
                spec_build_program(entries@[i as int], views),
            ));
            assert(entries@.take(i + 1).map_values(
                |x: PatEntry| spec_build_program(x, views),
            ) =~= entries@.take(i as int).map_values(
                |x: PatEntry| spec_build_program(x, views),
            ).push(spec_build_program(entries@[i as int], views)));
        }
        i = i + 1;
    }
    proof {
        assert(entries@.take(entries@.len() as int) =~= entries@);
    }
    Pat { transport_stream_id: tsid, version, programs }
}

/// Whether two association entry lists are the same.
fn entries_equal(a: &Vec<PatEntry>, b: &Vec<PatEntry>) -> (r: bool)
    ensures
        r == (a@ == b@),
{
    if a.len() != b.len() {
        proof {
            assert(a@ != b@);
        }
        return false;
    }
    let mut i: usize = 0;
    while i < a.len()
        invariant
            i <= a@.len(),
            a@.len() == b@.len(),
            forall|k: int| 0 <= k < i ==> a@[k] == b@[k],
        decreases a@.len() - i,
    {
        if a[i].program_number != b[i].program_number || a[i].pmt_pid != b[i].pmt_pid {
            proof {
                assert(a@[i as int] != b@[i as int]);
            }
            return false;
        }
        i = i + 1;
    }
    proof {
        assert(a@ =~= b@);
    }
    true
}

impl StreamModel {
    /// A builder awaiting its first association table.
    pub fn new(verbose: bool) -> (r: StreamModel)
        ensures
            r@ == spec_sm_init(),
    {
        let r = StreamModel {
            verbose,
            state: ModelState::AwaitingPat,
            pat_asm: SectionAssembler::new(),
            transport_stream_id: 0,
            version: 0,
            entries: Vec::new(),
            slots: Vec::new(),
            snapshot: None,
            completions: 0,
        };
        proof {
            assert(r@ =~= spec_sm_init());
        }
        r
    }

    fn check_complete(&mut self)
        ensures
            final(self)@ == spec_check_complete(old(self)@),
    {
        if self.state == ModelState::CollectingPmts && all_complete(&self.slots) {
            self.state = ModelState::Complete;
            self.snapshot = Some(build_model(
                self.transport_stream_id,
                self.version,
                &self.entries,
                &self.slots,
            ));
            self.completions = sat_add_u64(self.completions, 1);
            proof {
                assert(self@ =~= spec_check_complete(old(self)@));
            }
        } else {
            proof {
                assert(self@ =~= spec_check_complete(old(self)@));
            }
        }
    }

    fn step(&mut self, raw: &[u8])
        requires
            raw@.len() == 188,
        ensures
            final(self)@ == spec_sm_step(old(self)@, raw@),
    {
        let p = match parse_packet(raw) {
            Err(_) => {
                return;
            },
            Ok(p) => p,
        };
        if !p.has_payload {
            return;
        }
        if p.pid == 0 {
            let emitted = self.pat_asm.push(
                p.payload_unit_start,
                p.continuity_counter,
                p.payload.as_slice(),
            );
            let ghost m1 = StreamModelView { pat_asm: self.pat_asm@, ..old(self)@ };
            proof {
                assert(self@ =~= m1);
            }
            if let Some(sec) = emitted {
                if let Some(pat) = parse_pat(sec.as_slice()) {
                    let same = self.state != ModelState::AwaitingPat
                        && self.transport_stream_id == pat.transport_stream_id
                        && self.version == pat.version
                        && entries_equal(&self.entries, &pat.entries);
                    if !same {
                        self.state = ModelState::CollectingPmts;
                        self.transport_stream_id = pat.transport_stream_id;
                        self.version = pat.version;
                        self.slots = new_slots(&pat.entries);
                        self.entries = pat.entries;
                        self.snapshot = None;
                        proof {
                            assert(self@ =~= StreamModelView {
                                state: ModelState::CollectingPmts,
                                transport_stream_id: pat@.transport_stream_id,
                                version: pat@.version,
                                entries: pat@.entries,
                                slots: spec_new_slots(pat@.entries, pat@.entries.len()),
                                snapshot: None,
                                ..m1
                            });
                        }
                        self.check_complete();
                    }
                    proof {
                        assert(self@ =~= spec_sm_step(old(self)@, raw@));
                    }
                } else {
                    proof {
                        assert(self@ =~= spec_sm_step(old(self)@, raw@));
                    }
                }
            } else {
                proof {
                    assert(self@ =~= spec_sm_step(old(self)@, raw@));
                }
            }
        } else if self.state == ModelState::CollectingPmts {
            if let Some(j) = find_slot_index(&self.slots, p.pid) {
                let ghost m = old(self)@;
                let ghost oldslots = self.slots@;
                let mut slot = self.slots.remove(j);
                let emitted = slot.assembler.push(
                    p.payload_unit_start,
                    p.continuity_counter,
                    p.payload.as_slice(),
                );
                let ghost asview = slot.assembler@;
                let ghost m1 = StreamModelView {
                    slots: m.slots.update(
                        j as int,
                        SlotView { assembler: asview, ..m.slots[j as int] },
                    ),
                    ..m
                };
                if let Some(sec) = emitted {
                    if let Some(t) = parse_pmt(sec.as_slice()) {
                        slot.pmt = Some(t);
                        self.slots.insert(j, slot);
                        proof {
                            assert(spec_slot_views(self.slots@) =~= m1.slots.update(
                                j as int,
                                SlotView { pmt: Some(t@), ..m1.slots[j as int] },
                            ));
                            assert(self@ =~= StreamModelView {
                                slots: m1.slots.update(
                                    j as int,
                                    SlotView { pmt: Some(t@), ..m1.slots[j as int] },
                                ),
                                ..m1
                            });
                        }
                        self.check_complete();
                    } else {
                        self.slots.insert(j, slot);
                        proof {
                            assert(spec_slot_views(self.slots@) =~= m1.slots);
                            assert(self@ =~= m1);
                        }
                        self.check_complete();
                    }
                } else {
                    self.slots.insert(j, slot);
                    proof {
                        assert(spec_slot_views(self.slots@) =~= m1.slots);
                        assert(self@ =~= m1);
                    }
                }
                proof {
                    assert(self@ =~= spec_sm_step(old(self)@, raw@));
                }
            }
        }
    }

    /// Feeds `packet_count` packets from a packet-aligned buffer. The new
    /// state is exactly the fold of the per-packet step, and `complete` is
    /// set exactly when a completion transition happened during this call.
    pub fn write(&mut self, pkt: &[u8], packet_count: i32, complete: &mut bool)
        requires
            packet_count >= 0,
            pkt@.len() == packet_count * 188,
        ensures
            final(self)@ == spec_sm_run(old(self)@, pkt@, packet_count as nat),
            *final(complete) == (final(self)@.completions > old(self)@.completions),
    {
        let mut i: usize = 0;
        let n = packet_count as usize;
        let total = pkt.len();
        let start_completions = self.completions;
        proof {
            assert(pkt@.len() == n * 188);
        }
        while i < n
            invariant
                i <= n,
                pkt@.len() == n * 188,
                total == n * 188,
                self@ == spec_sm_run(old(self)@, pkt@, i as nat),
                start_completions == old(self)@.completions,
            decreases n - i,
        {
            proof {
                assert(188 * (i as int) + 188 <= n * 188) by (nonlinear_arith)
                    requires i < n;
            }
            let raw = slice_subrange(pkt, i * 188, i * 188 + 188);
            proof {
                assert(raw@ == spec_chunk(pkt@, i as int));
            }
            self.step(raw);
            i = i + 1;
        }
        *complete = self.completions > start_completions;
    }

    /// The last completed snapshot, as an owned copy; before the first
    /// completion this is the documented empty model, not an error.
    pub fn query_model(&self) -> (r: Pat)
        ensures
            match self@.snapshot {
                Some(v) => r@ == v,
                None => r@ == spec_empty_model(),
            },
    {
        match &self.snapshot {
            Some(p) => clone_pat(p),
            None => {
                let r = Pat { transport_stream_id: 0, version: 0, programs: Vec::new() };
                proof {
                    assert(r@ =~= spec_empty_model());
                }
                r
            },
        }
    }

    /// How many completion transitions the builder has taken.
    pub fn completion_count(&self) -> (r: u64)
        ensures
            r == self@.completions,
    {
        self.completions
    }

    /// The current acquisition phase.
    pub fn state(&self) -> (r: ModelState)
        ensures
            r == self@.state,
    {
        self.state
    }
}

/// A value-faithful copy of one program.
fn clone_program(p: &Program) -> (r: Program)
    ensures
        r@ == p@,
{
    let pmt = match &p.pmt {
        Some(t) => Some(clone_pmt(t)),
        None => None,
    };
    Program { program_number: p.program_number, pmt_pid: p.pmt_pid, pmt }
}

/// A value-faithful copy of a program tree.
pub fn clone_pat(p: &Pat) -> (r: Pat)
    ensures
        r@ == p@,
{
    let mut programs: Vec<Program> = Vec::new();
    let mut i: usize = 0;
    while i < p.programs.len()
        invariant
            i <= p.programs@.len(),
            spec_program_views(programs@) == spec_program_views(p.programs@.take(i as int)),
        decreases p.programs@.len() - i,
    {
        let ghost prev = programs@;
        programs.push(clone_program(&p.programs[i]));
        proof {
            assert(spec_program_views(programs@) =~= spec_program_views(prev).push(
                p.programs@[i as int]@,
            ));
            assert(spec_program_views(p.programs@.take(i + 1))
                =~= spec_program_views(p.programs@.take(i as int)).push(
                p.programs@[i as int]@,
            ));
        }
        i = i + 1;
    }
    proof {
        assert(p.programs@.take(p.programs@.len() as int) =~= p.programs@);
    }
    let r = Pat {
        transport_stream_id: p.transport_stream_id,
        version: p.version,
        programs,
    };
    proof {
        assert(r@ =~= p@);
    }
    r
}

} // verus!
