use tsanalyze::crc::crc32;
use tsanalyze::section::SectionAssembler;
use tsanalyze::psi::{parse_pat, parse_pmt};
use tsanalyze::streammodel::{StreamModel, ModelState};

fn ts_packet(pid: u16, cc: u8, pusi: bool, payload: &[u8]) -> Vec<u8> {
    assert!(payload.len() <= 184);
    let mut p = vec![0xFFu8; 188];
    p[0] = 0x47;
    p[1] = (if pusi { 0x40 } else { 0x00 }) | ((pid >> 8) as u8 & 0x1F);
    p[2] = (pid & 0xFF) as u8;
    p[3] = 0x10 | (cc & 0x0F);
    for (i, b) in payload.iter().enumerate() {
        p[4 + i] = *b;
    }
    p
}

fn with_crc(mut body: Vec<u8>) -> Vec<u8> {
    let c = crc32(&body);
    body.push((c >> 24) as u8);
    body.push((c >> 16) as u8);
    body.push((c >> 8) as u8);
    body.push(c as u8);
    body
}

fn make_pat(tsid: u16, version: u8, entries: &[(u16, u16)]) -> Vec<u8> {
    let section_length = 5 + 4 * entries.len() + 4;
    let mut s = vec![
        0x00,
        0xB0 | ((section_length >> 8) as u8 & 0x0F),
        (section_length & 0xFF) as u8,
        (tsid >> 8) as u8,
        (tsid & 0xFF) as u8,
        0xC1 | (version << 1),
        0x00,
        0x00,
    ];
    for (pn, pid) in entries {
        s.push((pn >> 8) as u8);
        s.push((pn & 0xFF) as u8);
        s.push(0xE0 | ((pid >> 8) as u8 & 0x1F));
        s.push((pid & 0xFF) as u8);
    }
    with_crc(s)
}

fn make_pmt(program: u16, version: u8, pcr_pid: u16, streams: &[(u8, u16, Vec<u8>)]) -> Vec<u8> {
    let es_len: usize = streams.iter().map(|(_, _, d)| 5 + d.len()).sum();
    let section_length = 9 + es_len + 4;
    let mut s = vec![
        0x02,
        0xB0 | ((section_length >> 8) as u8 & 0x0F),
        (section_length & 0xFF) as u8,
        (program >> 8) as u8,
        (program & 0xFF) as u8,
        0xC1 | (version << 1),
        0x00,
        0x00,
        0xE0 | ((pcr_pid >> 8) as u8 & 0x1F),
        (pcr_pid & 0xFF) as u8,
        0xF0,
        0x00,
    ];
    for (st, pid, descs) in streams {
        s.push(*st);
        s.push(0xE0 | ((pid >> 8) as u8 & 0x1F));
        s.push((pid & 0xFF) as u8);
        s.push(0xF0 | ((descs.len() >> 8) as u8 & 0x0F));
        s.push((descs.len() & 0xFF) as u8);
        s.extend_from_slice(descs);
    }
    with_crc(s)
}

/// One PSI section as TS packets on a PID: pointer field zero, then the
/// section, fragmented and stuffed with 0xFF.
fn psi_packets(pid: u16, section: &[u8], start_cc: u8) -> Vec<Vec<u8>> {
    let mut packets = Vec::new();
    let first: usize = section.len().min(183);
    let mut payload = vec![0x00u8];
    payload.extend_from_slice(&section[..first]);
    packets.push(ts_packet(pid, start_cc, true, &payload));
    let mut off = first;
    let mut cc = start_cc;
    while off < section.len() {
        cc = (cc + 1) % 16;
        let take = (section.len() - off).min(184);
        packets.push(ts_packet(pid, cc, false, &section[off..off + take]));
        off += take;
    }
    packets
}

fn feed(sm: &mut StreamModel, packets: &[Vec<u8>]) -> bool {
    let mut buf: Vec<u8> = Vec::new();
    for p in packets {
        buf.extend_from_slice(p);
    }
    let mut complete = false;
    sm.write(&buf, packets.len() as i32, &mut complete);
    complete
}

#[test]
fn assembler_delivers_single_packet_section() {
    let pat = make_pat(7, 0, &[(1, 0x100)]);
    let mut sa = SectionAssembler::new();
    let mut payload = vec![0x00u8];
    payload.extend_from_slice(&pat);
    let sec = sa.push(true, 0, &payload).expect("section should complete");
    assert_eq!(sec, pat);
}

#[test]
fn assembler_spans_packets_and_checks_crc() {
    // A PMT with enough descriptor bytes to span two packet payloads.
    let descs = {
        let mut d = vec![0x05u8, 200];
        d.extend(std::iter::repeat(0xAAu8).take(200));
        d
    };
    let pmt = make_pmt(1, 0, 0x100, &[(0x1B, 0x100, descs)]);
    assert!(pmt.len() > 183);
    let mut sa = SectionAssembler::new();
    let mut payload = vec![0x00u8];
    payload.extend_from_slice(&pmt[..183]);
    assert!(sa.push(true, 0, &payload).is_none());
    let sec = sa.push(false, 1, &pmt[183..]).expect("section should complete");
    assert_eq!(sec, pmt);
}

#[test]
fn assembler_discards_crc_mismatch() {
    let mut pat = make_pat(7, 0, &[(1, 0x100)]);
    let last = pat.len() - 1;
    pat[last] ^= 0xFF;
    let mut sa = SectionAssembler::new();
    let mut payload = vec![0x00u8];
    payload.extend_from_slice(&pat);
    assert!(sa.push(true, 0, &payload).is_none());
    assert_eq!(sa.crc_error_count(), 1);
}

#[test]
fn assembler_counts_truncation_on_new_start() {
    let descs = vec![0xAAu8; 200];
    let pmt = make_pmt(1, 0, 0x100, &[(0x1B, 0x100, descs)]);
    let mut sa = SectionAssembler::new();
    let mut payload = vec![0x00u8];
    payload.extend_from_slice(&pmt[..183]);
    assert!(sa.push(true, 0, &payload).is_none());
    // A new start before the first section finished: the old one is dropped.
    let pat = make_pat(7, 0, &[(1, 0x100)]);
    let mut payload2 = vec![0x00u8];
    payload2.extend_from_slice(&pat);
    let sec = sa.push(true, 1, &payload2).expect("new section should complete");
    assert_eq!(sec, pat);
    assert_eq!(sa.truncated_count(), 1);
}

#[test]
fn assembler_drops_section_on_continuity_gap() {
    let descs = vec![0xAAu8; 200];
    let pmt = make_pmt(1, 0, 0x100, &[(0x1B, 0x100, descs)]);
    let mut sa = SectionAssembler::new();
    let mut payload = vec![0x00u8];
    payload.extend_from_slice(&pmt[..183]);
    assert!(sa.push(true, 0, &payload).is_none());
    // Counter jumps from 0 to 2: the in-flight section must be discarded.
    assert!(sa.push(false, 2, &pmt[183..]).is_none());
}

#[test]
fn pat_parser_reads_entries() {
    let pat = make_pat(0x1234, 5, &[(1, 0x100), (2, 0x200)]);
    let t = parse_pat(&pat).unwrap();
    assert_eq!(t.transport_stream_id, 0x1234);
    assert_eq!(t.version, 5);
    assert_eq!(t.entries.len(), 2);
    assert_eq!(t.entries[0].program_number, 1);
    assert_eq!(t.entries[0].pmt_pid, 0x100);
    assert_eq!(t.entries[1].program_number, 2);
    assert_eq!(t.entries[1].pmt_pid, 0x200);
}

#[test]
fn pat_parser_rejects_wrong_table_id() {
    let mut pat = make_pat(0x1234, 5, &[(1, 0x100)]);
    pat[0] = 0x02;
    assert!(parse_pat(&pat).is_none());
}

#[test]
fn pmt_parser_reads_streams_and_descriptors() {
    let pmt = make_pmt(
        3,
        1,
        0x1FF,
        &[(0x1B, 0x101, vec![0x0A, 0x04, b'e', b'n', b'g', 0x00]), (0x0F, 0x102, vec![])],
    );
    let t = parse_pmt(&pmt).unwrap();
    assert_eq!(t.program_number, 3);
    assert_eq!(t.version, 1);
    assert_eq!(t.pcr_pid, 0x1FF);
    assert_eq!(t.streams.len(), 2);
    assert_eq!(t.streams[0].stream_type, 0x1B);
    assert_eq!(t.streams[0].pid, 0x101);
    assert_eq!(t.streams[0].descriptors.len(), 1);
    assert_eq!(t.streams[0].descriptors[0].tag, 0x0A);
    assert_eq!(t.streams[0].descriptors[0].data, vec![b'e', b'n', b'g', 0x00]);
    assert_eq!(t.streams[1].stream_type, 0x0F);
    assert_eq!(t.streams[1].pid, 0x102);
    assert!(t.streams[1].descriptors.is_empty());
}

#[test]
fn pmt_parser_rejects_truncated_stream_loop() {
    let mut pmt = make_pmt(3, 1, 0x1FF, &[(0x1B, 0x101, vec![])]);
    // Declare one descriptor byte more than the section holds.
    pmt[15] = 0xF0;
    pmt[16] = 0x01;
    assert!(parse_pmt(&pmt).is_none());
}

#[test]
fn model_completes_once_with_two_programs() {
    // One valid association table referencing two map-table PIDs, then the
    // two map tables: completion is reported exactly once, and the tree
    // exposes both programs with their configured streams.
    let pat = make_pat(9, 0, &[(1, 0x100), (2, 0x200)]);
    let pmt1 = make_pmt(1, 0, 0x101, &[(0x1B, 0x101, vec![])]);
    let pmt2 = make_pmt(2, 0, 0x201, &[(0x0F, 0x201, vec![]), (0x06, 0x202, vec![])]);
    let mut sm = StreamModel::new(false);

    let mut packets = psi_packets(0x0000, &pat, 0);
    assert!(!feed(&mut sm, &packets));
    assert_eq!(sm.state(), ModelState::CollectingPmts);

    packets = psi_packets(0x100, &pmt1, 0);
    assert!(!feed(&mut sm, &packets));

    packets = psi_packets(0x200, &pmt2, 0);
    assert!(feed(&mut sm, &packets));
    assert_eq!(sm.state(), ModelState::Complete);
    assert_eq!(sm.completion_count(), 1);

    let model = sm.query_model();
    assert_eq!(model.transport_stream_id, 9);
    assert_eq!(model.programs.len(), 2);
    let p1 = &model.programs[0];
    assert_eq!(p1.program_number, 1);
    assert_eq!(p1.pmt_pid, 0x100);
    let t1 = p1.pmt.as_ref().unwrap();
    assert_eq!(t1.pcr_pid, 0x101);
    assert_eq!(t1.streams.len(), 1);
    assert_eq!(t1.streams[0].stream_type, 0x1B);
    assert_eq!(t1.streams[0].pid, 0x101);
    let p2 = &model.programs[1];
    assert_eq!(p2.program_number, 2);
    let t2 = p2.pmt.as_ref().unwrap();
    assert_eq!(t2.streams.len(), 2);

    // Feeding the same tables again does not report completion again.
    packets = psi_packets(0x0000, &pat, 1);
    assert!(!feed(&mut sm, &packets));
    packets = psi_packets(0x100, &pmt1, 1);
    assert!(!feed(&mut sm, &packets));
    assert_eq!(sm.completion_count(), 1);
}

#[test]
fn corrupted_pmt_never_completes_the_model() {
    // A checksum-corrupted map table must not flip the program's entry;
    // only the later uncorrupted one completes the model.
    let pat = make_pat(9, 0, &[(1, 0x100)]);
    let pmt = make_pmt(1, 0, 0x101, &[(0x1B, 0x101, vec![])]);
    let mut bad = pmt.clone();
    let n = bad.len();
    bad[n - 1] ^= 0x55;
    let mut sm = StreamModel::new(false);
    assert!(!feed(&mut sm, &psi_packets(0x0000, &pat, 0)));
    assert!(!feed(&mut sm, &psi_packets(0x100, &bad, 0)));
    assert_eq!(sm.state(), ModelState::CollectingPmts);
    assert_eq!(sm.completion_count(), 0);
    // The model stays empty rather than partially populated.
    assert_eq!(sm.query_model().programs.len(), 0);
    assert!(feed(&mut sm, &psi_packets(0x100, &pmt, 1)));
    assert_eq!(sm.completion_count(), 1);
    let model = sm.query_model();
    assert_eq!(model.programs.len(), 1);
    assert!(model.programs[0].pmt.is_some());
}

#[test]
fn query_before_completion_returns_empty_model() {
    let sm = StreamModel::new(false);
    let model = sm.query_model();
    assert_eq!(model.transport_stream_id, 0);
    assert_eq!(model.programs.len(), 0);
}

#[test]
fn new_association_table_restarts_acquisition() {
    let pat1 = make_pat(9, 0, &[(1, 0x100)]);
    let pmt1 = make_pmt(1, 0, 0x101, &[(0x1B, 0x101, vec![])]);
    let mut sm = StreamModel::new(false);
    assert!(!feed(&mut sm, &psi_packets(0x0000, &pat1, 0)));
    assert!(feed(&mut sm, &psi_packets(0x100, &pmt1, 0)));
    assert_eq!(sm.completion_count(), 1);

    // A retune: a different table version with another program set.
    let pat2 = make_pat(9, 1, &[(5, 0x300)]);
    let pmt5 = make_pmt(5, 0, 0x301, &[(0x02, 0x301, vec![])]);
    assert!(!feed(&mut sm, &psi_packets(0x0000, &pat2, 1)));
    assert_eq!(sm.state(), ModelState::CollectingPmts);
    assert!(feed(&mut sm, &psi_packets(0x300, &pmt5, 0)));
    assert_eq!(sm.completion_count(), 2);
    let model = sm.query_model();
    assert_eq!(model.programs.len(), 1);
    assert_eq!(model.programs[0].program_number, 5);
}

#[test]
fn association_table_spanning_packets_completes() {
    // Fifty programs make the table span two packets; the model still
    // completes, exactly once, when the last map table lands.
    let entries: Vec<(u16, u16)> = (1..=50u16).map(|i| (i, 0x100 + i)).collect();
    let pat = make_pat(3, 0, &entries);
    assert!(pat.len() > 183);
    let mut sm = StreamModel::new(false);
    assert!(!feed(&mut sm, &psi_packets(0x0000, &pat, 0)));
    let mut completions = 0;
    for (pn, pid) in &entries {
        let pmt = make_pmt(*pn, 0, *pid + 1, &[(0x1B, *pid + 1, vec![])]);
        if feed(&mut sm, &psi_packets(*pid, &pmt, 0)) {
            completions += 1;
        }
    }
    assert_eq!(completions, 1);
    assert_eq!(sm.completion_count(), 1);
    let model = sm.query_model();
    assert_eq!(model.programs.len(), 50);
    assert!(model.programs.iter().all(|p| p.pmt.is_some()));
}

#[test]
fn network_entry_is_not_awaited() {
    // Program number zero names the network PID, not a program: the model
    // completes without a table for it.
    let pat = make_pat(9, 0, &[(0, 0x10), (1, 0x100)]);
    let pmt = make_pmt(1, 0, 0x101, &[(0x1B, 0x101, vec![])]);
    let mut sm = StreamModel::new(false);
    assert!(!feed(&mut sm, &psi_packets(0x0000, &pat, 0)));
    assert!(feed(&mut sm, &psi_packets(0x100, &pmt, 0)));
    let model = sm.query_model();
    assert_eq!(model.programs.len(), 2);
    assert!(model.programs[0].pmt.is_none());
    assert!(model.programs[1].pmt.is_some());
}
