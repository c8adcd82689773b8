use tsanalyze::pesextractor::{PesExtractor, parse_pes_packet};

fn ts_packet(pid: u16, cc: u8, pusi: bool, payload: &[u8]) -> Vec<u8> {
    assert!(payload.len() <= 184);
    let mut p = vec![0xFFu8; 188];
    p[0] = 0x47;
    p[1] = (if pusi { 0x40 } else { 0x00 }) | ((pid >> 8) as u8 & 0x1F);
    p[2] = (pid & 0xFF) as u8;
    p[3] = 0x10 | (cc & 0x0F);
    for (i, b) in payload.iter().enumerate() {
        p[4 + i] = *b;
    }
    p
}

/// One bounded packet without timestamps: start code, stream id, declared
/// length covering the three optional-header bytes and the payload.
fn pes_wrap(sid: u8, payload: &[u8]) -> Vec<u8> {
    let l = payload.len() + 3;
    assert!(l <= 65535);
    let mut b = vec![0, 0, 1, sid, (l >> 8) as u8, (l & 0xFF) as u8, 0x80, 0x00, 0x00];
    b.extend_from_slice(payload);
    b
}

/// Fragments a byte stream into full 184-byte payload packets on one PID,
/// the first with the start indicator, stuffing the tail with 0xFF.
fn fragment(pid: u16, bytes: &[u8], start_cc: u8) -> Vec<Vec<u8>> {
    let mut packets = Vec::new();
    let mut off = 0;
    let mut cc = start_cc;
    let mut first = true;
    while off < bytes.len() {
        let take = (bytes.len() - off).min(184);
        packets.push(ts_packet(pid, cc, first, &bytes[off..off + take]));
        first = false;
        cc = (cc + 1) % 16;
        off += take;
    }
    packets
}

fn feed(pe: &mut PesExtractor, packets: &[Vec<u8>]) {
    let mut buf: Vec<u8> = Vec::new();
    for p in packets {
        buf.extend_from_slice(p);
    }
    pe.write(&buf, packets.len() as i32);
}

#[test]
fn round_trip_preserves_payload() {
    // A 1000-byte elementary stream, wrapped and fragmented, comes back
    // byte for byte with the filtered stream id.
    let payload: Vec<u8> = (0..1000u32).map(|i| (i * 7 + 3) as u8).collect();
    let pes = pes_wrap(0xE0, &payload);
    let packets = fragment(0x31, &pes, 0);
    let mut pe = PesExtractor::new(false, 0x31, 0xE0);
    feed(&mut pe, &packets);
    let out = pe.take_packets();
    assert_eq!(out.len(), 1);
    assert_eq!(out[0].stream_id, 0xE0);
    assert_eq!(out[0].payload, payload);
    assert_eq!(out[0].pts, None);
    assert_eq!(out[0].dts, None);
    assert_eq!(pe.pending_count(), 0);
}

#[test]
fn corrupted_start_code_drops_packet_but_not_the_stream() {
    // The first packet's start code is corrupted: nothing is emitted for
    // it, and the following correctly framed packet still comes through.
    let payload1: Vec<u8> = vec![1; 300];
    let payload2: Vec<u8> = vec![2; 300];
    let mut pes1 = pes_wrap(0xE0, &payload1);
    pes1[2] = 0x77; // break the 00 00 01 prefix
    let pes2 = pes_wrap(0xE0, &payload2);
    let mut packets = fragment(0x31, &pes1, 0);
    let cc = (packets.len() % 16) as u8;
    packets.extend(fragment(0x31, &pes2, cc));
    let mut pe = PesExtractor::new(false, 0x31, 0xE0);
    feed(&mut pe, &packets);
    assert_eq!(pe.bad_start_count(), 1);
    let out = pe.take_packets();
    assert_eq!(out.len(), 1);
    assert_eq!(out[0].payload, payload2);
}

#[test]
fn stream_id_filter_consumes_without_emitting() {
    let payload: Vec<u8> = vec![9; 100];
    let pes_other = pes_wrap(0xC0, &payload);
    let pes_match = pes_wrap(0xE0, &payload);
    let mut packets = fragment(0x31, &pes_other, 0);
    packets.extend(fragment(0x31, &pes_match, 1));
    let mut pe = PesExtractor::new(false, 0x31, 0xE0);
    feed(&mut pe, &packets);
    let out = pe.take_packets();
    assert_eq!(out.len(), 1);
    assert_eq!(out[0].stream_id, 0xE0);
}

#[test]
fn other_pids_are_ignored() {
    let payload: Vec<u8> = vec![5; 50];
    let pes = pes_wrap(0xE0, &payload);
    let packets = fragment(0x99, &pes, 0);
    let mut pe = PesExtractor::new(false, 0x31, 0xE0);
    feed(&mut pe, &packets);
    assert_eq!(pe.pending_count(), 0);
}

#[test]
fn continuity_gap_drops_packet_in_flight() {
    let payload: Vec<u8> = (0..500u32).map(|i| i as u8).collect();
    let pes = pes_wrap(0xE0, &payload);
    let mut packets = fragment(0x31, &pes, 0);
    packets.remove(1); // lose a middle fragment
    let payload2: Vec<u8> = vec![4; 100];
    let pes2 = pes_wrap(0xE0, &payload2);
    packets.extend(fragment(0x31, &pes2, 7));
    let mut pe = PesExtractor::new(false, 0x31, 0xE0);
    feed(&mut pe, &packets);
    let out = pe.take_packets();
    assert_eq!(out.len(), 1);
    assert_eq!(out[0].payload, payload2);
}

#[test]
fn unbounded_length_terminates_at_next_start() {
    // Declared length zero: the packet ends where the next start begins.
    let payload: Vec<u8> = (0..400u32).map(|i| (255 - i as u32) as u8).collect();
    let mut pes = pes_wrap(0xE0, &payload);
    pes[4] = 0;
    pes[5] = 0;
    let next = pes_wrap(0xE0, &[42, 43, 44]);
    let mut packets = fragment(0x31, &pes, 0);
    let cc = (packets.len() % 16) as u8;
    packets.extend(fragment(0x31, &next, cc));
    let mut pe = PesExtractor::new(false, 0x31, 0xE0);
    feed(&mut pe, &packets);
    let out = pe.take_packets();
    assert_eq!(out.len(), 2);
    // The unbounded payload keeps the stuffing that padded its packets.
    assert_eq!(&out[0].payload[..payload.len()], &payload[..]);
    assert!(out[0].payload[payload.len()..].iter().all(|b| *b == 0xFF));
    assert_eq!(out[1].payload, vec![42, 43, 44]);
}

#[test]
fn runaway_unbounded_packet_is_discarded_at_the_cap() {
    // An unbounded packet that never terminates must not grow without
    // bound: past the cap it is dropped, and the stream recovers.
    let mut pes = pes_wrap(0xE0, &[7; 100]);
    pes[4] = 0;
    pes[5] = 0;
    let mut packets = fragment(0x31, &pes, 0);
    let mut cc = packets.len() as u8;
    // Keep the accumulation going well past the cap.
    let filler = [0xEEu8; 184];
    for _ in 0..6000 {
        packets.push(ts_packet(0x31, cc % 16, false, &filler));
        cc = cc.wrapping_add(1);
    }
    let good = pes_wrap(0xE0, &[8; 50]);
    packets.extend(fragment(0x31, &good, cc % 16));
    let mut pe = PesExtractor::new(false, 0x31, 0xE0);
    feed(&mut pe, &packets);
    let out = pe.take_packets();
    assert_eq!(out.len(), 1);
    assert_eq!(out[0].payload, vec![8; 50]);
    assert_eq!(pe.bad_start_count(), 0);
}

#[test]
fn header_timestamps_are_decoded() {
    // A packet with both timestamps: PTS 0x123456789 and DTS 0x100000001,
    // marker bits in place.
    let pts: u64 = 0x1_2345_6789;
    let dts: u64 = 0x1_0000_0001;
    let enc = |v: u64, marker: u8| -> [u8; 5] {
        [
            marker | (((v >> 30) as u8 & 0x07) << 1) | 1,
            (v >> 22) as u8,
            (((v >> 15) as u8 & 0x7F) << 1) | 1,
            (v >> 7) as u8,
            ((v as u8 & 0x7F) << 1) | 1,
        ]
    };
    let payload = [0xDEu8, 0xAD];
    let l = 3 + 10 + payload.len();
    let mut b = vec![0, 0, 1, 0xE0, (l >> 8) as u8, (l & 0xFF) as u8, 0x80, 0xC0, 10];
    b.extend_from_slice(&enc(pts, 0x30));
    b.extend_from_slice(&enc(dts, 0x10));
    b.extend_from_slice(&payload);
    let p = parse_pes_packet(&b).unwrap();
    assert_eq!(p.stream_id, 0xE0);
    assert_eq!(p.pts, Some(pts));
    assert_eq!(p.dts, Some(dts));
    assert_eq!(p.payload, vec![0xDE, 0xAD]);

    // The same packet through the packet layer.
    let packets = fragment(0x31, &b, 0);
    let mut pe = PesExtractor::new(false, 0x31, 0xE0);
    feed(&mut pe, &packets);
    let out = pe.take_packets();
    assert_eq!(out.len(), 1);
    assert_eq!(out[0].pts, Some(pts));
    assert_eq!(out[0].dts, Some(dts));
}

#[test]
fn malformed_header_is_dropped() {
    // Flags announce a timestamp but the header length cannot hold one.
    let mut b = vec![0, 0, 1, 0xE0, 0x00, 0x05, 0x80, 0x80, 0x02];
    b.extend_from_slice(&[0, 0]);
    assert!(parse_pes_packet(&b).is_none());
}
