//! Parsers for the two table kinds the model builder consumes: the program
//! association table, which lists (program number, PMT PID) pairs, and the
//! program map table, which lists a program's elementary streams with their
//! descriptors. Each parser is pinned down by a spec-level parse of the
//! section bytes and rejects exactly the malformed layouts.

use vstd::prelude::*;
use vstd::slice::{slice_subrange, slice_to_vec};

verus! {

/// One program referenced by the association table.
#[derive(Clone, Copy, Debug, PartialEq, Eq, Structural)]
pub struct PatEntry {
    pub program_number: u16,
    pub pmt_pid: u16,
}

/// A parsed program association table section.
pub struct PatTable {
    pub transport_stream_id: u16,
    pub version: u8,
    pub entries: Vec<PatEntry>,
}

/// The mathematical value of a parsed association table.
#[verifier::ext_equal]
pub struct PatTableView {
    pub transport_stream_id: u16,
    pub version: u8,
    pub entries: Seq<PatEntry>,
}

impl View for PatTable {
    type V = PatTableView;

    open spec fn view(&self) -> PatTableView {
        PatTableView {
            transport_stream_id: self.transport_stream_id,
            version: self.version,
            entries: self.entries@,
        }
    }
}

/// An opaque tagged descriptor; consumers interpret the bytes by tag.
pub struct Descriptor {
    pub tag: u8,
    pub data: Vec<u8>,
}

/// The mathematical value of a descriptor.
#[verifier::ext_equal]
pub struct DescriptorView {
    pub tag: u8,
    pub data: Seq<u8>,
}

impl View for Descriptor {
    type V = DescriptorView;

    open spec fn view(&self) -> DescriptorView {
        DescriptorView { tag: self.tag, data: self.data@ }
    }
}

/// The values of a sequence of descriptors.
pub open spec fn spec_desc_views(s: Seq<Descriptor>) -> Seq<DescriptorView> {
    s.map_values(|d: Descriptor| d@)
}

/// One elementary stream of a program map table.
pub struct EsInfo {
    pub stream_type: u8,
    pub pid: u16,
    pub descriptors: Vec<Descriptor>,
}

/// The mathematical value of an elementary-stream entry.
#[verifier::ext_equal]
pub struct EsInfoView {
    pub stream_type: u8,
    pub pid: u16,
    pub descriptors: Seq<DescriptorView>,
}

impl View for EsInfo {
    type V = EsInfoView;

    open spec fn view(&self) -> EsInfoView {
        EsInfoView {
            stream_type: self.stream_type,
            pid: self.pid,
            descriptors: spec_desc_views(self.descriptors@),
        }
    }
}

/// The values of a sequence of elementary-stream entries.
pub open spec fn spec_es_views(s: Seq<EsInfo>) -> Seq<EsInfoView> {
    s.map_values(|e: EsInfo| e@)
}

/// A parsed program map table section.
pub struct PmtTable {
    pub program_number: u16,
    pub version: u8,
    pub pcr_pid: u16,
    pub streams: Vec<EsInfo>,
}

/// The mathematical value of a parsed map table.
#[verifier::ext_equal]
pub struct PmtTableView {
    pub program_number: u16,
    pub version: u8,
    pub pcr_pid: u16,
    pub streams: Seq<EsInfoView>,
}

impl View for PmtTable {
    type V = PmtTableView;

    open spec fn view(&self) -> PmtTableView {
        PmtTableView {
            program_number: self.program_number,
            version: self.version,
            pcr_pid: self.pcr_pid,
            streams: spec_es_views(self.streams@),
        }
    }
}

/// Table id carried by association table sections.
pub const PAT_TABLE_ID: u8 = 0x00;

/// Table id carried by map table sections.
pub const PMT_TABLE_ID: u8 = 0x02;

/// A 16-bit big-endian value read at offset `i`.
pub open spec fn spec_be16(s: Seq<u8>, i: int) -> u16 {
    (s[i] * 256 + s[i + 1]) as u16
}

/// A 13-bit PID read from the low bits at offset `i`.
pub open spec fn spec_pid13(s: Seq<u8>, i: int) -> u16 {
    ((s[i] % 32) * 256 + s[i + 1]) as u16
}

/// The 5-bit version number of a section.
pub open spec fn spec_version_of(s: Seq<u8>) -> u8 {
    ((s[5] / 2) % 32) as u8
}

/// The association entries from offset `i` to the checksum, four bytes each.
pub open spec fn spec_pat_entries(s: Seq<u8>, i: int) -> Seq<PatEntry>
    decreases s.len() - i,
{
    if i + 4 <= s.len() - 4 {
        seq![
            PatEntry {
                program_number: spec_be16(s, i),
                pmt_pid: spec_pid13(s, i + 2),
            }
        ] + spec_pat_entries(s, i + 4)
    } else {
        Seq::empty()
    }
}

/// The spec-level parse of an association table section: table id must
/// match, the section must hold the fixed header and checksum, and the
/// entry region must divide into four-byte pairs.
pub open spec fn spec_parse_pat(sec: Seq<u8>) -> Option<PatTableView> {
    if sec.len() < 12 || sec[0] != PAT_TABLE_ID || (sec.len() - 12) % 4 != 0 {
        None
    } else {
        Some(
            PatTableView {
                transport_stream_id: spec_be16(sec, 3),
                version: spec_version_of(sec),
                entries: spec_pat_entries(sec, 8),
            },
        )
    }
}

/// The spec-level parse of a descriptor region: each descriptor is a tag,
/// a length and that many bytes, and the region must be consumed exactly.
pub open spec fn spec_parse_descriptors(s: Seq<u8>, i: int) -> Option<Seq<DescriptorView>>
    decreases s.len() - i,
{
    if i == s.len() {
        Some(Seq::empty())
    } else if i + 2 > s.len() {
        None
    } else if i + 2 + s[i + 1] > s.len() {
        None
    } else {
        match spec_parse_descriptors(s, i + 2 + s[i + 1]) {
            None => None,
            Some(rest) => Some(
                seq![
                    DescriptorView { tag: s[i], data: s.subrange(i + 2, i + 2 + s[i + 1]) }
                ] + rest,
            ),
        }
    }
}

/// The spec-level parse of the elementary-stream region `[i, end)`: each
/// entry is a stream type, a PID, a descriptor-region length and that
/// region; the region must be consumed exactly.
pub open spec fn spec_parse_streams(s: Seq<u8>, i: int, end: int) -> Option<Seq<EsInfoView>>
    decreases end - i,
{
    if i == end {
        Some(Seq::empty())
    } else if i + 5 > end {
        None
    } else {
        let esl = (s[i + 3] % 16) * 256 + s[i + 4];
        if i + 5 + esl > end {
            None
        } else {
            match spec_parse_descriptors(s.subrange(i + 5, i + 5 + esl), 0) {
                None => None,
                Some(ds) => match spec_parse_streams(s, i + 5 + esl, end) {
                    None => None,
                    Some(rest) => Some(
                        seq![
                            EsInfoView {
                                stream_type: s[i],
                                pid: spec_pid13(s, i + 1),
                                descriptors: ds,
                            }
                        ] + rest,
                    ),
                },
            }
        }
    }
}

/// The spec-level parse of a map table section: table id must match, the
/// fixed header, the program-info region and the checksum must fit, and
/// the elementary-stream region must parse exactly.
pub open spec fn spec_parse_pmt(sec: Seq<u8>) -> Option<PmtTableView> {
    if sec.len() < 16 || sec[0] != PMT_TABLE_ID {
        None
    } else {
        let pil = (sec[10] % 16) * 256 + sec[11];
        if 12 + pil > sec.len() - 4 {
            None
        } else {
            match spec_parse_streams(sec, 12 + pil, sec.len() - 4) {
                None => None,
                Some(streams) => Some(
                    PmtTableView {
                        program_number: spec_be16(sec, 3),
                        version: spec_version_of(sec),
                        pcr_pid: spec_pid13(sec, 8),
                        streams,
                    },
                ),
            }
        }
    }
}

/// A value-faithful copy of one descriptor.
pub fn clone_descriptor(d: &Descriptor) -> (r: Descriptor)
    ensures
        r@ == d@,
{
    Descriptor { tag: d.tag, data: slice_to_vec(d.data.as_slice()) }
}

/// A value-faithful copy of a descriptor list.
pub fn clone_descriptors(v: &Vec<Descriptor>) -> (r: Vec<Descriptor>)
    ensures
        spec_desc_views(r@) == spec_desc_views(v@),
{
    let mut out: Vec<Descriptor> = Vec::new();
    let mut i: usize = 0;
    while i < v.len()
        invariant
            i <= v@.len(),
            spec_desc_views(out@) == spec_desc_views(v@.take(i as int)),
        decreases v@.len() - i,
    {
        let ghost prev = out@;
        out.push(clone_descriptor(&v[i]));
        proof {
            assert(spec_desc_views(out@) =~= spec_desc_views(prev).push(v@[i as int]@));
            assert(spec_desc_views(v@.take(i + 1))
                =~= spec_desc_views(v@.take(i as int)).push(v@[i as int]@));
        }
        i = i + 1;
    }
    proof {
        assert(v@.take(v@.len() as int) =~= v@);
    }
    out
}

/// A value-faithful copy of one elementary-stream entry.
pub fn clone_es_info(e: &EsInfo) -> (r: EsInfo)
    ensures
        r@ == e@,
{
    let r = EsInfo {
        stream_type: e.stream_type,
        pid: e.pid,
        descriptors: clone_descriptors(&e.descriptors),
    };
    proof {
        assert(r@ =~= e@);
    }
    r
}

/// A value-faithful copy of a parsed map table.
pub fn clone_pmt(t: &PmtTable) -> (r: PmtTable)
    ensures
        r@ == t@,
{
    let mut streams: Vec<EsInfo> = Vec::new();
    let mut i: usize = 0;
    while i < t.streams.len()
        invariant
            i <= t.streams@.len(),
            spec_es_views(streams@) == spec_es_views(t.streams@.take(i as int)),
        decreases t.streams@.len() - i,
    {
        let ghost prev = streams@;
        streams.push(clone_es_info(&t.streams[i]));
        proof {
            assert(spec_es_views(streams@) =~= spec_es_views(prev).push(t.streams@[i as int]@));
            assert(spec_es_views(t.streams@.take(i + 1))
                =~= spec_es_views(t.streams@.take(i as int)).push(t.streams@[i as int]@));
        }
        i = i + 1;
    }
    proof {
        assert(t.streams@.take(t.streams@.len() as int) =~= t.streams@);
    }
    let r = PmtTable {
        program_number: t.program_number,
        version: t.version,
        pcr_pid: t.pcr_pid,
        streams,
    };
    proof {
        assert(r@ =~= t@);
    }
    r
}

/// Parses the association entries of a section; total function, exactly
/// the spec-level entry list.
fn parse_pat_entries(sec: &[u8]) -> (r: Vec<PatEntry>)
    requires
        sec@.len() >= 12,
    ensures
        r@ == spec_pat_entries(sec@, 8),
{
    let mut entries: Vec<PatEntry> = Vec::new();
    let end = sec.len() - 4;
    let mut i: usize = 8;
    while i <= end - 4
        invariant
            8 <= i,
            i <= end + 4,
            end == sec@.len() - 4,
            sec@.len() >= 12,
            spec_pat_entries(sec@, 8) == entries@ + spec_pat_entries(sec@, i as int),
        decreases end - i,
    {
        let e = PatEntry {
            program_number: (sec[i] as u16) * 256 + (sec[i + 1] as u16),
            pmt_pid: ((sec[i + 2] % 32) as u16) * 256 + (sec[i + 3] as u16),
        };
        proof {
            assert(spec_pat_entries(sec@, i as int)
                =~= seq![e] + spec_pat_entries(sec@, i + 4));
            assert(entries@ + spec_pat_entries(sec@, i as int)
                =~= entries@.push(e) + spec_pat_entries(sec@, i + 4));
        }
        entries.push(e);
        i = i + 4;
    }
    proof {
        assert(spec_pat_entries(sec@, i as int) =~= Seq::<PatEntry>::empty());
        assert(entries@ + spec_pat_entries(sec@, i as int) =~= entries@);
    }
    entries
}

/// Parses an association table section. Succeeds exactly when the
/// spec-level parse does, with the same value.
pub fn parse_pat(sec: &[u8]) -> (r: Option<PatTable>)
    ensures
        (r is Some) == (spec_parse_pat(sec@) is Some),
        (r matches Some(t) ==> spec_parse_pat(sec@) == Some(t@)),
{
    if sec.len() < 12 || sec[0] != PAT_TABLE_ID || (sec.len() - 12) % 4 != 0 {
        return None;
    }
    let entries = parse_pat_entries(sec);
    let t = PatTable {
        transport_stream_id: (sec[3] as u16) * 256 + (sec[4] as u16),
        version: (sec[5] / 2) % 32,
        entries,
    };
    proof {
        assert(t@ =~= spec_parse_pat(sec@).unwrap());
    }
    Some(t)
}

/// Turns `None` into `None` and prepends already-parsed descriptors.
pub open spec fn spec_prepend_descs(
    acc: Seq<DescriptorView>,
    rest: Option<Seq<DescriptorView>>,
) -> Option<Seq<DescriptorView>> {
    match rest {
        None => None,
        Some(r) => Some(acc + r),
    }
}

/// Parses a whole descriptor region. Succeeds exactly when the spec-level
/// parse does, with the same descriptor list.
pub fn parse_descriptors(region: &[u8]) -> (r: Option<Vec<Descriptor>>)
    ensures
        (r is Some) == (spec_parse_descriptors(region@, 0) is Some),
        (r matches Some(v) ==> spec_parse_descriptors(region@, 0) == Some(spec_desc_views(v@))),
{
    let mut out: Vec<Descriptor> = Vec::new();
    let mut i: usize = 0;
    let n = region.len();
    while i < n
        invariant
            i <= n,
            n == region@.len(),
            spec_parse_descriptors(region@, 0)
                == spec_prepend_descs(spec_desc_views(out@), spec_parse_descriptors(region@, i as int)),
        decreases n - i,
    {
        if n - i < 2 {
            return None;
        }
        let dlen = region[i + 1] as usize;
        if n - i - 2 < dlen {
            return None;
        }
        let d = Descriptor {
            tag: region[i],
            data: slice_to_vec(slice_subrange(region, i + 2, i + 2 + dlen)),
        };
        let ghost prev = out@;
        let ghost di = i as int;
        out.push(d);
        proof {
            assert(spec_desc_views(out@) =~= spec_desc_views(prev).push(
                DescriptorView {
                    tag: region@[di],
                    data: region@.subrange(di + 2, di + 2 + region@[di + 1]),
                },
            ));
            assert(spec_parse_descriptors(region@, di) == spec_prepend_descs(
                seq![
                    DescriptorView {
                        tag: region@[di],
                        data: region@.subrange(di + 2, di + 2 + region@[di + 1]),
                    }
                ],
                spec_parse_descriptors(region@, di + 2 + region@[di + 1]),
            ));
            assert forall|rest: Option<Seq<DescriptorView>>|
                spec_prepend_descs(spec_desc_views(prev), spec_prepend_descs(
                    seq![
                        DescriptorView {
                            tag: region@[di],
                            data: region@.subrange(di + 2, di + 2 + region@[di + 1]),
                        }
                    ],
                    rest,
                )) == spec_prepend_descs(spec_desc_views(out@), rest) by {
                match rest {
                    None => {},
                    Some(rr) => {
                        assert(spec_desc_views(prev) + (seq![
                            DescriptorView {
                                tag: region@[di],
                                data: region@.subrange(di + 2, di + 2 + region@[di + 1]),
                            }
                        ] + rr) =~= spec_desc_views(out@) + rr);
                    },
                }
            }
        }
        i = i + 2 + dlen;
    }
    proof {
        assert(spec_parse_descriptors(region@, i as int) == Some(Seq::<DescriptorView>::empty()));
        assert(spec_desc_views(out@) + Seq::<DescriptorView>::empty() =~= spec_desc_views(out@));
    }
    Some(out)
}

/// Turns `None` into `None` and prepends already-parsed stream entries.
pub open spec fn spec_prepend_streams(
    acc: Seq<EsInfoView>,
    rest: Option<Seq<EsInfoView>>,
) -> Option<Seq<EsInfoView>> {
    match rest {
        None => None,
        Some(r) => Some(acc + r),
    }
}

/// Parses a map table section. Succeeds exactly when the spec-level parse
/// does, with the same value.
pub fn parse_pmt(sec: &[u8]) -> (r: Option<PmtTable>)
    ensures
        (r is Some) == (spec_parse_pmt(sec@) is Some),
        (r matches Some(t) ==> spec_parse_pmt(sec@) == Some(t@)),
{
    if sec.len() < 16 || sec[0] != PMT_TABLE_ID {
        return None;
    }
    let pil = ((sec[10] % 16) as usize) * 256 + sec[11] as usize;
    let end = sec.len() - 4;
    if end - 12 < pil {
        return None;
    }
    let start = 12 + pil;
    let mut streams: Vec<EsInfo> = Vec::new();
    let mut i: usize = start;
    while i < end
        invariant
            start <= i <= end,
            end == sec@.len() - 4,
            sec@.len() >= 16,
            start == 12 + (sec@[10] % 16) * 256 + sec@[11],
            spec_parse_streams(sec@, start as int, end as int) == spec_prepend_streams(
                spec_es_views(streams@),
                spec_parse_streams(sec@, i as int, end as int),
            ),
        decreases end - i,
    {
        if end - i < 5 {
            return None;
        }
        let esl = ((sec[i + 3] % 16) as usize) * 256 + sec[i + 4] as usize;
        if end - i - 5 < esl {
            return None;
        }
        let region = slice_subrange(sec, i + 5, i + 5 + esl);
        let ghost di = i as int;
        let descriptors = match parse_descriptors(region) {
            None => {
                return None;
            },
            Some(ds) => ds,
        };
        let e = EsInfo {
            stream_type: sec[i],
            pid: ((sec[i + 1] % 32) as u16) * 256 + (sec[i + 2] as u16),
            descriptors,
        };
        let ghost ev = e@;
        let ghost prev = streams@;
        streams.push(e);
        proof {
            assert(spec_es_views(streams@) =~= spec_es_views(prev).push(ev));
            assert(spec_parse_streams(sec@, di, end as int) == spec_prepend_streams(
                seq![ev],
                spec_parse_streams(sec@, di + 5 + ((sec@[di + 3] % 16) * 256 + sec@[di + 4]), end as int),
            ));
            assert forall|rest: Option<Seq<EsInfoView>>|
                spec_prepend_streams(spec_es_views(prev), spec_prepend_streams(seq![ev], rest))
                    == spec_prepend_streams(spec_es_views(streams@), rest) by {
                match rest {
                    None => {},
                    Some(rr) => {
                        assert(spec_es_views(prev) + (seq![ev] + rr)
                            =~= spec_es_views(streams@) + rr);
                    },
                }
            }
        }
        i = i + 5 + esl;
    }
    proof {
        assert(spec_parse_streams(sec@, i as int, end as int)
            == Some(Seq::<EsInfoView>::empty()));
        assert(spec_es_views(streams@) + Seq::<EsInfoView>::empty() =~= spec_es_views(streams@));
    }
    let t = PmtTable {
        program_number: (sec[3] as u16) * 256 + (sec[4] as u16),
        version: (sec[5] / 2) % 32,
        pcr_pid: ((sec[8] % 32) as u16) * 256 + (sec[9] as u16),
        streams,
    };
    proof {
        assert(t@ =~= spec_parse_pmt(sec@).unwrap());
    }
    Some(t)
}

} // verus!
