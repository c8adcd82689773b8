use tsanalyze::streamstatistics::StreamStatistics;

fn ts_packet(pid: u16, cc: u8, pusi: bool, payload: &[u8]) -> Vec<u8> {
    assert!(payload.len() <= 184);
    let mut p = vec![0xFFu8; 188];
    p[0] = 0x47;
    p[1] = (if pusi { 0x40 } else { 0x00 }) | ((pid >> 8) as u8 & 0x1F);
    p[2] = (pid & 0xFF) as u8;
    p[3] = 0x10 | (cc & 0x0F);
    for (i, b) in payload.iter().enumerate() {
        p[4 + i] = *b;
    }
    p
}

fn feed(ss: &mut StreamStatistics, packets: &[Vec<u8>]) {
    let mut buf: Vec<u8> = Vec::new();
    for p in packets {
        buf.extend_from_slice(p);
    }
    ss.write(&buf, packets.len() as u32);
}

#[test]
fn correct_counters_give_zero_errors() {
    // A stream whose every packet continues its counter correctly.
    let mut packets = Vec::new();
    for i in 0..100u32 {
        packets.push(ts_packet(0x31, (i % 16) as u8, false, &[]));
        packets.push(ts_packet(0x41, (i % 16) as u8, false, &[]));
    }
    let mut ss = StreamStatistics::new(false);
    feed(&mut ss, &packets);
    let a = ss.stats_for(0x31);
    let b = ss.stats_for(0x41);
    assert_eq!(a.packet_count, 100);
    assert_eq!(a.byte_count, 100 * 188);
    assert_eq!(a.continuity_error_count, 0);
    assert_eq!(b.continuity_error_count, 0);
}

#[test]
fn one_dropped_packet_counts_one_error() {
    // Build a correct stream, then drop exactly one interior packet.
    let mut packets = Vec::new();
    for i in 0..20u32 {
        packets.push(ts_packet(0x31, (i % 16) as u8, false, &[]));
    }
    packets.remove(7);
    let mut ss = StreamStatistics::new(false);
    feed(&mut ss, &packets);
    let s = ss.stats_for(0x31);
    assert_eq!(s.packet_count, 19);
    // Exactly one error, and the packets after the gap did not cascade.
    assert_eq!(s.continuity_error_count, 1);
}

#[test]
fn repeated_counter_is_an_error_and_resynchronizes() {
    let packets = vec![
        ts_packet(0x31, 3, false, &[]),
        ts_packet(0x31, 3, false, &[]),
        ts_packet(0x31, 4, false, &[]),
    ];
    let mut ss = StreamStatistics::new(false);
    feed(&mut ss, &packets);
    let s = ss.stats_for(0x31);
    assert_eq!(s.continuity_error_count, 1);
}

#[test]
fn adaptation_only_packets_do_not_move_the_counter() {
    let mut af_only = ts_packet(0x31, 9, false, &[]);
    af_only[3] = 0x20 | 9;
    af_only[4] = 183;
    let packets = vec![
        ts_packet(0x31, 3, false, &[]),
        af_only,
        ts_packet(0x31, 4, false, &[]),
    ];
    let mut ss = StreamStatistics::new(false);
    feed(&mut ss, &packets);
    let s = ss.stats_for(0x31);
    assert_eq!(s.packet_count, 3);
    assert_eq!(s.continuity_error_count, 0);
}

#[test]
fn bad_sync_packets_are_skipped() {
    let mut bad = ts_packet(0x31, 1, false, &[]);
    bad[0] = 0x00;
    let packets = vec![ts_packet(0x31, 0, false, &[]), bad, ts_packet(0x31, 1, false, &[])];
    let mut ss = StreamStatistics::new(false);
    feed(&mut ss, &packets);
    let s = ss.stats_for(0x31);
    assert_eq!(s.packet_count, 2);
    assert_eq!(s.continuity_error_count, 0);
}

#[test]
fn reset_zeroes_all_counters() {
    let packets = vec![ts_packet(0x31, 0, false, &[]), ts_packet(0x31, 2, false, &[])];
    let mut ss = StreamStatistics::new(false);
    feed(&mut ss, &packets);
    assert_eq!(ss.stats_for(0x31).continuity_error_count, 1);
    ss.reset();
    let s = ss.stats_for(0x31);
    assert_eq!(s.packet_count, 0);
    assert_eq!(s.byte_count, 0);
    assert_eq!(s.continuity_error_count, 0);
    assert!(!s.seen);
}

#[test]
fn empty_write_changes_nothing() {
    let mut ss = StreamStatistics::new(false);
    ss.write(&[], 0);
    let s = ss.stats_for(0);
    assert_eq!(s.packet_count, 0);
    assert_eq!(s.byte_count, 0);
    assert!(ss.report_rows().is_empty());
}

#[test]
fn bitrate_is_exact_and_guarded() {
    // 188000 bytes over one second: 188000 * 8 bits per second.
    assert_eq!(StreamStatistics::bitrate_bps(188_000, 1000), Some(1_504_000));
    assert_eq!(StreamStatistics::bitrate_bps(1, 0), None);
    assert_eq!(StreamStatistics::bitrate_bps(u64::MAX, 1), Some(u64::MAX));
}

#[test]
fn report_rows_are_sorted_and_complete() {
    let packets = vec![
        ts_packet(0x41, 0, false, &[]),
        ts_packet(0x31, 0, false, &[]),
        ts_packet(0x41, 1, false, &[]),
    ];
    let mut ss = StreamStatistics::new(false);
    feed(&mut ss, &packets);
    let rows = ss.report_rows();
    assert_eq!(rows.len(), 2);
    assert_eq!(rows[0], (0x31, 1, 188, 0));
    assert_eq!(rows[1], (0x41, 2, 2 * 188, 0));
}
