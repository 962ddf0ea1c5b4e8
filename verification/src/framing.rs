//! Physical record framing inside one native segment group.
//!
//! A group payload is a concatenation of records.  Each record is a fixed
//! header (an owner id, optional opaque words, and a little-endian `u32`
//! body length), the body, and a trailing copy of the same `u32` length.
use vstd::prelude::*;
use vstd::slice::*;

verus! {

/// Location and declared totals of one segment group, as reported by the
/// partition walker.
#[derive(Clone, Copy, Debug)]
pub struct GroupSource {
    pub content_key: Option<[u8; 16]>,
    pub channel: u64,
    pub first_marker_offset: usize,
    pub segment_count: usize,
    pub declared_objects: u64,
    pub declared_body_bytes: u64,
}

/// Why a group payload failed its framing checks.
#[derive(Clone, Copy, Debug, PartialEq, Eq, Structural)]
pub enum FramingError {
    /// Only channels 101, 102 and 103 carry native records.
    UnsupportedChannel(u64),
    /// Fewer bytes remain than a header and a trailing length need.
    TruncatedHeader,
    /// The body end does not fit in `usize`.
    SizeOverflow,
    /// The body and its trailing length run past the payload.
    TruncatedBody,
    /// The trailing length differs from the header length.
    DualLengthMismatch,
    /// The record count or body total differs from the group's declaration.
    GroupTotalsMismatch,
    /// The ElemTable row stride is not one of the qualified layouts.
    UnsupportedRowStride(usize),
}

/// One validated record: its owner id and its byte positions in the payload.
#[derive(Clone, Copy, Debug, PartialEq, Eq, Structural)]
pub struct Frame {
    pub id: u64,
    pub offset: usize,
    pub body_start: usize,
    pub body_end: usize,
}

/// Little-endian value of the four bytes at `p`.
pub open spec fn le_u32(s: Seq<u8>, p: int) -> int {
    s[p] as int + s[p + 1] as int * 0x100 + s[p + 2] as int * 0x1_0000 + s[p + 3] as int
        * 0x100_0000
}

/// Little-endian value of the eight bytes at `p`.
pub open spec fn le_u64(s: Seq<u8>, p: int) -> int {
    le_u32(s, p) + le_u32(s, p + 4) * 0x1_0000_0000
}

/// The owner id at `p`: 32-bit when ids are four bytes wide, 64-bit otherwise.
pub open spec fn id_at(s: Seq<u8>, p: int, id_bytes: nat) -> u64 {
    if id_bytes == 4 {
        le_u32(s, p) as u64
    } else {
        le_u64(s, p) as u64
    }
}

/// Records of `s` from position `pos` on.  With `check_trailer` the trailing
/// length must repeat the header length; without it only its presence is
/// required.
pub open spec fn parse_frames(
    s: Seq<u8>,
    header: nat,
    id_bytes: nat,
    check_trailer: bool,
    pos: nat,
) -> Result<Seq<Frame>, FramingError>
    decreases s.len() - pos,
{
    if pos >= s.len() {
        Ok(Seq::empty())
    } else if (s.len() - pos) < header + 4 || header < 4 {
        Err(FramingError::TruncatedHeader)
    } else {
        let length = le_u32(s, pos + header - 4);
        let start = pos + header;
        let end = start + length;
        if end > usize::MAX {
            Err(FramingError::SizeOverflow)
        } else if end + 4 > s.len() {
            Err(FramingError::TruncatedBody)
        } else if check_trailer && le_u32(s, end) != length {
            Err(FramingError::DualLengthMismatch)
        } else {
            let frame = Frame {
                id: id_at(s, pos as int, id_bytes),
                offset: pos as usize,
                body_start: start as usize,
                body_end: end as usize,
            };
            match parse_frames(s, header, id_bytes, check_trailer, (end + 4) as nat) {
                Ok(rest) => Ok(seq![frame] + rest),
                Err(e) => Err(e),
            }
        }
    }
}

/// Header length of a native record on `channel`.
pub open spec fn spec_header_len(channel: u64, id_bytes: nat) -> Option<nat> {
    if channel == 101 {
        Some(id_bytes + 4)
    } else if channel == 102 || channel == 103 {
        Some(id_bytes + 8)
    } else {
        None
    }
}

/// Physical channel framing reports a short body as a length disagreement.
pub open spec fn physical_fault(e: FramingError) -> FramingError {
    if e == FramingError::TruncatedBody {
        FramingError::DualLengthMismatch
    } else {
        e
    }
}

/// Sum of the body lengths of `frames`.
pub open spec fn body_total(frames: Seq<Frame>) -> int
    decreases frames.len(),
{
    if frames.len() == 0 {
        0
    } else {
        body_total(frames.drop_last()) + (frames.last().body_end - frames.last().body_start)
    }
}

/// Frames of a physical group on `channel`, checked against its declared totals.
pub open spec fn spec_group_frames(
    s: Seq<u8>,
    id_bytes: nat,
    source: GroupSource,
) -> Result<Seq<Frame>, FramingError> {
    match spec_header_len(source.channel, id_bytes) {
        None => Err(FramingError::UnsupportedChannel(source.channel)),
        Some(header) => match parse_frames(s, header, id_bytes, true, 0) {
            Err(e) => Err(physical_fault(e)),
            Ok(frames) => if frames.len() == source.declared_objects && body_total(frames)
                == source.declared_body_bytes {
                Ok(frames)
            } else {
                Err(FramingError::GroupTotalsMismatch)
            },
        },
    }
}

/// Little-endian `u32` at `p`.
pub fn read_u32_le(s: &[u8], p: usize) -> (r: u32)
    requires
        p + 4 <= s@.len(),
    ensures
        r == le_u32(s@, p as int),
{
    s[p] as u32 + s[p + 1] as u32 * 0x100 + s[p + 2] as u32 * 0x1_0000 + s[p + 3] as u32
        * 0x100_0000
}

/// Little-endian `u64` at `p`.
pub fn read_u64_le(s: &[u8], p: usize) -> (r: u64)
    requires
        p + 8 <= s@.len(),
    ensures
        r == le_u64(s@, p as int),
{
    assert(p + 4 <= s.len());
    let lo = read_u32_le(s, p) as u64;
    let hi = read_u32_le(s, p + 4) as u64;
    lo + hi * 0x1_0000_0000
}

proof fn lemma_frame_end_advances(s: Seq<u8>, header: nat, pos: nat)
    requires
        pos < s.len(),
        s.len() - pos >= header + 4,
        header >= 4,
    ensures
        pos + header + le_u32(s, pos + header - 4) + 4 > pos,
        0 <= le_u32(s, pos + header - 4) <= u32::MAX,
{
}

/// Splits `s` into records whose headers are `header` bytes long.
pub fn parse_frames_exec(s: &[u8], header: usize, id_bytes: usize, check_trailer: bool) -> (r:
    Result<Vec<Frame>, FramingError>)
    requires
        4 <= header <= usize::MAX - 4,
    ensures
        match parse_frames(s@, header as nat, id_bytes as nat, check_trailer, 0) {
            Ok(frames) => r matches Ok(v) && v@ == frames,
            Err(e) => r == Err::<Vec<Frame>, FramingError>(e),
        },
{
    let mut frames: Vec<Frame> = Vec::new();
    let mut pos: usize = 0;
    while pos < s.len()
        invariant
            4 <= header <= usize::MAX - 4,
            pos <= s@.len(),
            parse_frames(s@, header as nat, id_bytes as nat, check_trailer, 0) == match parse_frames(
                s@,
                header as nat,
                id_bytes as nat,
                check_trailer,
                pos as nat,
            ) {
                Ok(rest) => Ok(frames@ + rest),
                Err(e) => Err(e),
            },
        decreases s@.len() - pos,
    {
        proof {
            reveal_with_fuel(parse_frames, 1);
        }
        if s.len() - pos < header + 4 {
            return Err(FramingError::TruncatedHeader);
        }
        let length = read_u32_le(s, pos + header - 4) as usize;
        let start = pos + header;
        let end = match start.checked_add(length) {
            Some(end) => end,
            None => return Err(FramingError::SizeOverflow),
        };
        if end > s.len() || s.len() - end < 4 {
            return Err(FramingError::TruncatedBody);
        }
        if check_trailer && read_u32_le(s, end) as usize != length {
            return Err(FramingError::DualLengthMismatch);
        }
        let id = if id_bytes == 4 {
            read_u32_le(s, pos) as u64
        } else {
            read_u64_le(s, pos)
        };
        let frame = Frame { id, offset: pos, body_start: start, body_end: end };
        proof {
            let ghost rest = parse_frames(s@, header as nat, id_bytes as nat, check_trailer, (end + 4) as nat);
            if let Ok(r) = rest {
                assert(frames@.push(frame) + r =~= frames@ + (seq![frame] + r));
            }
        }
        frames.push(frame);
        pos = end + 4;
    }
    Ok(frames)
}

/// Header length of a native record on `channel` with ids `id_bytes` wide.
pub fn header_len(channel: u64, id_bytes: usize) -> (r: Result<usize, FramingError>)
    requires
        id_bytes <= usize::MAX - 12,
    ensures
        match spec_header_len(channel, id_bytes as nat) {
            Some(h) => r == Ok::<usize, FramingError>(h as usize),
            None => r == Err::<usize, FramingError>(FramingError::UnsupportedChannel(channel)),
        },
{
    if channel == 101 {
        Ok(id_bytes + 4)
    } else if channel == 102 || channel == 103 {
        Ok(id_bytes + 8)
    } else {
        Err(FramingError::UnsupportedChannel(channel))
    }
}

/// Sums the body lengths of `frames`.
pub fn frames_body_total(frames: &Vec<Frame>) -> (r: u128)
    requires
        forall|i: int| 0 <= i < frames@.len() ==> frames@[i].body_start <= frames@[i].body_end,
        frames@.len() <= usize::MAX,
    ensures
        r == body_total(frames@),
{
    let mut total: u128 = 0;
    let mut i: usize = 0;
    while i < frames.len()
        invariant
            i <= frames@.len(),
            frames@.len() <= usize::MAX,
            forall|k: int| 0 <= k < frames@.len() ==> frames@[k].body_start <= frames@[k].body_end,
            total == body_total(frames@.subrange(0, i as int)),
            total <= i * (usize::MAX as int),
        decreases frames@.len() - i,
    {
        proof {
            assert(frames@.subrange(0, i + 1).drop_last() =~= frames@.subrange(0, i as int));
            assert((i + 1) * (usize::MAX as int) == i * (usize::MAX as int) + usize::MAX) by (nonlinear_arith);
            assert(i * (usize::MAX as int) <= usize::MAX as int * usize::MAX as int) by (nonlinear_arith)
                requires i <= usize::MAX;
        }
        total = total + (frames[i].body_end - frames[i].body_start) as u128;
        i += 1;
    }
    proof {
        assert(frames@.subrange(0, frames@.len() as int) =~= frames@);
    }
    total
}

proof fn lemma_frames_ordered(s: Seq<u8>, header: nat, id_bytes: nat, check: bool, pos: nat)
    requires
        parse_frames(s, header, id_bytes, check, pos) is Ok,
        pos <= s.len(),
    ensures
        forall|i: int|
            0 <= i < parse_frames(s, header, id_bytes, check, pos)->Ok_0.len() ==> {
                let f = #[trigger] parse_frames(s, header, id_bytes, check, pos)->Ok_0[i];
                &&& pos <= f.offset < f.body_start <= f.body_end
                &&& f.body_end + 4 <= s.len()
                &&& f.body_start == f.offset + header
            },
        parse_frames(s, header, id_bytes, check, pos)->Ok_0.len() <= s.len() - pos,
    decreases s.len() - pos,
{
    if pos < s.len() && header >= 4 && s.len() - pos >= header + 4 {
        let length = le_u32(s, pos + header - 4);
        let end = pos + header + length;
        if end <= usize::MAX && end + 4 <= s.len() && !(check && le_u32(s, end) != length) {
            lemma_frames_ordered(s, header, id_bytes, check, (end + 4) as nat);
            let rest = parse_frames(s, header, id_bytes, check, (end + 4) as nat)->Ok_0;
            let all = parse_frames(s, header, id_bytes, check, pos)->Ok_0;
            assert forall|i: int| 0 <= i < all.len() implies {
                let f = #[trigger] all[i];
                &&& pos <= f.offset < f.body_start <= f.body_end
                &&& f.body_end + 4 <= s.len()
                &&& f.body_start == f.offset + header
            } by {
                if i > 0 {
                    assert(all[i] == rest[i - 1]);
                }
            }
        }
    }
}

/// Validated frames of a physical group on `channel`, checked against the
/// group's declared record count and body total.
pub fn group_frames(s: &[u8], id_bytes: usize, source: &GroupSource) -> (r: Result<
    Vec<Frame>,
    FramingError,
>)
    requires
        id_bytes <= usize::MAX - 12,
    ensures
        match spec_group_frames(s@, id_bytes as nat, *source) {
            Ok(frames) => r matches Ok(v) && v@ == frames,
            Err(e) => r == Err::<Vec<Frame>, FramingError>(e),
        },
{
    let header = header_len(source.channel, id_bytes)?;
    let frames = match parse_frames_exec(s, header, id_bytes, true) {
        Ok(frames) => frames,
        Err(e) => {
            return Err(if e == FramingError::TruncatedBody {
                FramingError::DualLengthMismatch
            } else {
                e
            });
        },
    };
    proof {
        lemma_frames_ordered(s@, header as nat, id_bytes as nat, true, 0);
        assert(s@.len() == s.len());
    }
    let total = frames_body_total(&frames);
    if frames.len() as u64 != source.declared_objects || total != source.declared_body_bytes as u128 {
        return Err(FramingError::GroupTotalsMismatch);
    }
    Ok(frames)
}

/// One record of a physical group with its header, body and trailer bytes.
#[derive(Debug)]
pub struct PhysicalGroupRecord<'a> {
    pub id: u64,
    pub offset: usize,
    pub body_len: usize,
    pub header: &'a [u8],
    pub body: &'a [u8],
    pub trailer: &'a [u8],
}

/// The record view of a frame within payload `s`.
pub open spec fn record_matches(r: PhysicalGroupRecord, f: Frame, s: Seq<u8>) -> bool {
    &&& r.id == f.id
    &&& r.offset == f.offset
    &&& r.body_len == f.body_end - f.body_start
    &&& r.header@ == s.subrange(f.offset as int, f.body_start as int)
    &&& r.body@ == s.subrange(f.body_start as int, f.body_end as int)
    &&& r.trailer@ == s.subrange(f.body_end as int, f.body_end + 4)
}

/// Splits a physical channel group into its records, keeping each record's
/// header, body and trailing length bytes.
pub fn physical_group_records<'a>(s: &'a [u8], id_bytes: usize, channel: u64) -> (r: Result<
    Vec<PhysicalGroupRecord<'a>>,
    FramingError,
>)
    requires
        id_bytes <= usize::MAX - 12,
    ensures
        match spec_header_len(channel, id_bytes as nat) {
            None => r == Err::<Vec<PhysicalGroupRecord<'a>>, FramingError>(
                FramingError::UnsupportedChannel(channel),
            ),
            Some(h) => match parse_frames(s@, h, id_bytes as nat, true, 0) {
                Err(e) => r == Err::<Vec<PhysicalGroupRecord<'a>>, FramingError>(physical_fault(e)),
                Ok(frames) => r matches Ok(v) && v@.len() == frames.len() && forall|i: int|
                    0 <= i < frames.len() ==> record_matches(#[trigger] v@[i], frames[i], s@),
            },
        },
{
    let header = header_len(channel, id_bytes)?;
    let frames = match parse_frames_exec(s, header, id_bytes, true) {
        Ok(frames) => frames,
        Err(e) => {
            return Err(if e == FramingError::TruncatedBody {
                FramingError::DualLengthMismatch
            } else {
                e
            });
        },
    };
    proof {
        lemma_frames_ordered(s@, header as nat, id_bytes as nat, true, 0);
    }
    let mut records: Vec<PhysicalGroupRecord<'a>> = Vec::new();
    let mut i: usize = 0;
    while i < frames.len()
        invariant
            i <= frames@.len(),
            records@.len() == i,
            forall|k: int|
                0 <= k < frames@.len() ==> {
                    let f = #[trigger] frames@[k];
                    &&& f.offset < f.body_start <= f.body_end
                    &&& f.body_end + 4 <= s@.len()
                },
            forall|k: int| 0 <= k < i ==> record_matches(#[trigger] records@[k], frames@[k], s@),
        decreases frames@.len() - i,
    {
        let f = frames[i];
        assert(f.body_end + 4 <= s.len());
        let record = PhysicalGroupRecord {
            id: f.id,
            offset: f.offset,
            body_len: f.body_end - f.body_start,
            header: slice_subrange(s, f.offset, f.body_start),
            body: slice_subrange(s, f.body_start, f.body_end),
            trailer: slice_subrange(s, f.body_end, f.body_end + 4),
        };
        records.push(record);
        i += 1;
    }
    Ok(records)
}

/// Counts the records of a channel group, requiring each trailing length to
/// be present without comparing it to the header length.
pub fn records_count(s: &[u8], id_bytes: usize, channel: u64) -> (r: Result<usize, FramingError>)
    requires
        id_bytes <= usize::MAX - 12,
    ensures
        match spec_header_len(channel, id_bytes as nat) {
            None => r == Err::<usize, FramingError>(FramingError::UnsupportedChannel(channel)),
            Some(h) => match parse_frames(s@, h, id_bytes as nat, false, 0) {
                Err(e) => r == Err::<usize, FramingError>(e),
                Ok(frames) => r == Ok::<usize, FramingError>(frames.len() as usize),
            },
        },
{
    let header = header_len(channel, id_bytes)?;
    let frames = parse_frames_exec(s, header, id_bytes, false)?;
    Ok(frames.len())
}

/// Rows of an embedded (content-keyed) group: a 16-byte header holding a
/// 64-bit local id and the body length, the body, and the trailing length.
pub open spec fn spec_embedded_rows(s: Seq<u8>, source: GroupSource) -> Result<
    Seq<Frame>,
    FramingError,
> {
    match parse_frames(s, 16, 8, true, 0) {
        Err(e) => Err(e),
        Ok(frames) => if frames.len() == source.declared_objects && body_total(frames)
            == source.declared_body_bytes {
            Ok(frames)
        } else {
            Err(FramingError::GroupTotalsMismatch)
        },
    }
}

/// The `(id, offset, body_start, body_end)` tuple of a frame.
pub open spec fn frame_tuple(f: Frame) -> (u64, usize, usize, usize) {
    (f.id, f.offset, f.body_start, f.body_end)
}

/// Validated rows of an embedded group, checked against its declared totals.
pub fn rows(s: &[u8], source: &GroupSource) -> (r: Result<Vec<(u64, usize, usize, usize)>, FramingError>)
    ensures
        match spec_embedded_rows(s@, *source) {
            Err(e) => r == Err::<Vec<(u64, usize, usize, usize)>, FramingError>(e),
            Ok(frames) => r matches Ok(v) && v@ == frames.map_values(|f: Frame| frame_tuple(f)),
        },
{
    let frames = parse_frames_exec(s, 16, 8, true)?;
    proof {
        lemma_frames_ordered(s@, 16, 8, true, 0);
        assert(s@.len() == s.len());
    }
    let total = frames_body_total(&frames);
    if frames.len() as u64 != source.declared_objects || total != source.declared_body_bytes as u128 {
        return Err(FramingError::GroupTotalsMismatch);
    }
    let mut out: Vec<(u64, usize, usize, usize)> = Vec::new();
    let mut i: usize = 0;
    while i < frames.len()
        invariant
            i <= frames@.len(),
            out@ =~= frames@.subrange(0, i as int).map_values(|f: Frame| frame_tuple(f)),
        decreases frames@.len() - i,
    {
        let f = frames[i];
        out.push((f.id, f.offset, f.body_start, f.body_end));
        i += 1;
    }
    proof {
        assert(frames@.subrange(0, frames@.len() as int) =~= frames@);
    }
    Ok(out)
}

/// Physical record id width implied by the project index row stride.
pub fn physical_record_id_bytes(row_stride: usize) -> (r: Result<usize, FramingError>)
    ensures
        row_stride == 28 ==> r == Ok::<usize, FramingError>(4),
        row_stride == 40 ==> r == Ok::<usize, FramingError>(8),
        row_stride != 28 && row_stride != 40 ==> r == Err::<usize, FramingError>(
            FramingError::UnsupportedRowStride(row_stride),
        ),
{
    if row_stride == 28 {
        Ok(4)
    } else if row_stride == 40 {
        Ok(8)
    } else {
        Err(FramingError::UnsupportedRowStride(row_stride))
    }
}

/// Bounds of the frames parsed from a payload.
pub proof fn lemma_frames_ordered_pub(s: Seq<u8>, header: nat, id_bytes: nat, check: bool, pos: nat)
    requires
        parse_frames(s, header, id_bytes, check, pos) is Ok,
        pos <= s.len(),
    ensures
        forall|i: int|
            0 <= i < parse_frames(s, header, id_bytes, check, pos)->Ok_0.len() ==> {
                let f = #[trigger] parse_frames(s, header, id_bytes, check, pos)->Ok_0[i];
                &&& pos <= f.offset < f.body_start <= f.body_end
                &&& f.body_end + 4 <= s.len()
                &&& f.body_start == f.offset + header
            },
        parse_frames(s, header, id_bytes, check, pos)->Ok_0.len() <= s.len() - pos,
{
    lemma_frames_ordered(s, header, id_bytes, check, pos);
}

} // verus!
