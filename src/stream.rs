use vstd::prelude::*;
use crate::header::{header_at, header_fits, DecodeError, GhostHeader, HEADER_LEN};
use crate::record::{
    is_whole_v1, lemma_partial_v1_does_not_fit, lemma_v1_in_context, str_fits, v1_at, v1_end,
    v1_fits, v2_at, v2_end, v2_fits, RunLineV1, RunLineV1View, RunLineV2, RunLineV2View,
};

verus! {

/// The records that the decode loop yields from offset `p` on: whole V1
/// records one after another, up to the first place where none fits.
pub open spec fn lines_from(b: Seq<u8>, p: int) -> Seq<RunLineV1View>
    decreases b.len() - p,
{
    if v1_fits(b, p) {
        seq![v1_at(b, p)] + lines_from(b, v1_end(b, p))
    } else {
        seq![]
    }
}

/// The offset at which the decode loop started at `p` stops: the first
/// place, record by record, where no whole record fits.
pub open spec fn stop_from(b: Seq<u8>, p: int) -> int
    decreases b.len() - p,
{
    if v1_fits(b, p) {
        stop_from(b, v1_end(b, p))
    } else {
        p
    }
}

/// The views of a sequence of records, in order.
pub open spec fn line_views(s: Seq<RunLineV1>) -> Seq<RunLineV1View> {
    s.map_values(|l: RunLineV1| l@)
}

/// A decoded ghost replay file.
#[derive(Debug)]
pub struct GhostFile {
    pub header: GhostHeader,
    /// The whole records, in file order.
    pub lines: Vec<RunLineV1>,
    /// How many bytes follow the last whole record: zero when the file ends
    /// cleanly, more when it ends partway through a record.
    pub trailing: usize,
}

/// Decodes a whole file: the header, then V1 records until the bytes run
/// out. Running out, at a record boundary or partway through a record, ends
/// the records without an error; the partial bytes are counted in
/// `trailing` and not decoded. Only a missing header is an error.
pub fn decode_all(bytes: &[u8]) -> (r: Result<GhostFile, DecodeError>)
    ensures
        match r {
            Ok(g) => {
                &&& header_fits(bytes@, 0)
                &&& g.header == header_at(bytes@, 0)
                &&& line_views(g.lines@) == lines_from(bytes@, HEADER_LEN as int)
                &&& g.trailing == bytes@.len() - stop_from(bytes@, HEADER_LEN as int)
            },
            Err(e) => {
                &&& !header_fits(bytes@, 0)
                &&& e == DecodeError::UnexpectedEndOfStream
            },
        },
{
    let mut pos: usize = 0;
    let header = match GhostHeader::read(bytes, &mut pos) {
        Ok(h) => h,
        Err(e) => return Err(e),
    };
    let mut lines: Vec<RunLineV1> = Vec::new();
    loop
        invariant_except_break
            pos <= bytes@.len(),
            lines_from(bytes@, HEADER_LEN as int) == line_views(lines@) + lines_from(
                bytes@,
                pos as int,
            ),
            stop_from(bytes@, HEADER_LEN as int) == stop_from(bytes@, pos as int),
        ensures
            pos <= bytes@.len(),
            lines_from(bytes@, HEADER_LEN as int) == line_views(lines@),
            stop_from(bytes@, HEADER_LEN as int) == pos,
        decreases bytes@.len() - pos,
    {
        match RunLineV1::read(bytes, &mut pos) {
            Ok(line) => {
                let ghost before = lines@;
                lines.push(line);
                assert(line_views(lines@) =~= line_views(before) + seq![line@]);
            },
            Err(_) => {
                assert(line_views(lines@) + lines_from(bytes@, pos as int) =~= line_views(lines@));
                break;
            },
        }
    }
    let trailing = bytes.len() - pos;
    Ok(GhostFile { header, lines, trailing })
}

/// The V2 records that the decode loop yields from offset `p` on.
pub open spec fn lines_v2_from(b: Seq<u8>, p: int) -> Seq<RunLineV2View>
    decreases b.len() - p,
{
    if v2_fits(b, p) {
        seq![v2_at(b, p)] + lines_v2_from(b, v2_end(b, p))
    } else {
        seq![]
    }
}

/// The offset at which the V2 decode loop started at `p` stops.
pub open spec fn stop_v2_from(b: Seq<u8>, p: int) -> int
    decreases b.len() - p,
{
    if v2_fits(b, p) {
        stop_v2_from(b, v2_end(b, p))
    } else {
        p
    }
}

/// The views of a sequence of V2 records, in order.
pub open spec fn line_v2_views(s: Seq<RunLineV2>) -> Seq<RunLineV2View> {
    s.map_values(|l: RunLineV2| l@)
}

/// A decoded ghost replay file whose records carry a yaw.
#[derive(Debug)]
pub struct GhostFileV2 {
    pub header: GhostHeader,
    /// The whole records, in file order.
    pub lines: Vec<RunLineV2>,
    /// How many bytes follow the last whole record.
    pub trailing: usize,
}

/// Decodes a whole file whose records use the layout with a trailing yaw;
/// otherwise as `decode_all`. The header's version does not choose the
/// layout: the caller does.
pub fn decode_all_v2(bytes: &[u8]) -> (r: Result<GhostFileV2, DecodeError>)
    ensures
        match r {
            Ok(g) => {
                &&& header_fits(bytes@, 0)
                &&& g.header == header_at(bytes@, 0)
                &&& line_v2_views(g.lines@) == lines_v2_from(bytes@, HEADER_LEN as int)
                &&& g.trailing == bytes@.len() - stop_v2_from(bytes@, HEADER_LEN as int)
            },
            Err(e) => {
                &&& !header_fits(bytes@, 0)
                &&& e == DecodeError::UnexpectedEndOfStream
            },
        },
{
    let mut pos: usize = 0;
    let header = match GhostHeader::read(bytes, &mut pos) {
        Ok(h) => h,
        Err(e) => return Err(e),
    };
    let mut lines: Vec<RunLineV2> = Vec::new();
    loop
        invariant_except_break
            pos <= bytes@.len(),
            lines_v2_from(bytes@, HEADER_LEN as int) == line_v2_views(lines@) + lines_v2_from(
                bytes@,
                pos as int,
            ),
            stop_v2_from(bytes@, HEADER_LEN as int) == stop_v2_from(bytes@, pos as int),
        ensures
            pos <= bytes@.len(),
            lines_v2_from(bytes@, HEADER_LEN as int) == line_v2_views(lines@),
            stop_v2_from(bytes@, HEADER_LEN as int) == pos,
        decreases bytes@.len() - pos,
    {
        match RunLineV2::read(bytes, &mut pos) {
            Ok(line) => {
                let ghost before = lines@;
                lines.push(line);
                assert(line_v2_views(lines@) =~= line_v2_views(before) + seq![line@]);
            },
            Err(_) => {
                assert(line_v2_views(lines@) + lines_v2_from(bytes@, pos as int) =~= line_v2_views(
                    lines@,
                ));
                break;
            },
        }
    }
    let trailing = bytes.len() - pos;
    Ok(GhostFileV2 { header, lines, trailing })
}

/// Whether the record at index `i` opens a trail segment: the first record
/// does, and so does each record whose map is empty.
pub open spec fn starts_segment(s: Seq<RunLineV1>, i: int) -> bool {
    i == 0 || s[i].map@.len() == 0
}

/// The indices at which trail segments start, in increasing order: index 0,
/// then each record with an empty map.
pub fn segment_starts(lines: &Vec<RunLineV1>) -> (r: Vec<usize>)
    ensures
        forall|j: int|
            0 <= j < r@.len() ==> r@[j] < lines@.len() && starts_segment(lines@, #[trigger] r@[j] as int),
        forall|j: int, k: int| 0 <= j < k < r@.len() ==> r@[j] < r@[k],
        forall|i: int|
            0 <= i < lines@.len() && #[trigger] starts_segment(lines@, i) ==> r@.contains(i as usize),
{
    let mut r: Vec<usize> = Vec::new();
    let mut i: usize = 0;
    while i < lines.len()
        invariant
            i <= lines@.len(),
            forall|j: int| 0 <= j < r@.len() ==> r@[j] < i && starts_segment(lines@, #[trigger] r@[j] as int),
            forall|j: int, k: int| 0 <= j < k < r@.len() ==> r@[j] < r@[k],
            forall|m: int| 0 <= m < i && #[trigger] starts_segment(lines@, m) ==> r@.contains(m as usize),
        decreases lines@.len() - i,
    {
        if i == 0 || lines[i].is_segment_start() {
            let ghost before = r@;
            r.push(i);
            assert forall|m: int| 0 <= m < i + 1 && #[trigger] starts_segment(lines@, m) implies r@.contains(m as usize) by {
                if m == i {
                    assert(r@[before.len() as int] == i);
                } else {
                    let j = choose|j: int| 0 <= j < before.len() && before[j] == m as usize;
                    assert(r@[j] == m as usize);
                }
            }
        }
        i += 1;
    }
    r
}

/// The header of a file is read from its first ten bytes alone.
proof fn lemma_header_prefix(h: Seq<u8>, rest: Seq<u8>)
    requires
        h.len() == HEADER_LEN,
    ensures
        header_fits(h + rest, 0),
        header_at(h + rest, 0) == header_at(h, 0),
{
    let b = h + rest;
    assert(b[1] == h[1] && b[2] == h[2] && b[3] == h[3] && b[4] == h[4] && b[5] == h[5]);
    assert(b[6] == h[6] && b[7] == h[7] && b[8] == h[8] && b[9] == h[9]);
}

/// A header followed by two whole records decodes to that header and those
/// two records, each as it decodes alone, in file order, with nothing left
/// over.
pub proof fn lemma_decode_two_records(h: Seq<u8>, r1: Seq<u8>, r2: Seq<u8>)
    requires
        h.len() == HEADER_LEN,
        is_whole_v1(r1),
        is_whole_v1(r2),
    ensures
        header_at(h + r1 + r2, 0) == header_at(h, 0),
        lines_from(h + r1 + r2, HEADER_LEN as int) == seq![v1_at(r1, 0), v1_at(r2, 0)],
        stop_from(h + r1 + r2, HEADER_LEN as int) == (h + r1 + r2).len(),
{
    let b = h + r1 + r2;
    let o1 = HEADER_LEN as int;
    let o2 = o1 + r1.len();
    lemma_header_prefix(h, r1 + r2);
    assert(h + (r1 + r2) =~= b);
    assert(b.subrange(o1, o2) =~= r1);
    lemma_v1_in_context(b, o1, r1);
    assert(b.subrange(o2, b.len() as int) =~= r2);
    lemma_v1_in_context(b, o2, r2);
    assert(!str_fits(b, b.len() as int));
    assert(lines_from(b, b.len() as int) == Seq::<RunLineV1View>::empty());
    assert(lines_from(b, o2) =~= seq![v1_at(r2, 0)]);
    assert(lines_from(b, o1) =~= seq![v1_at(r1, 0), v1_at(r2, 0)]);
    assert(stop_from(b, b.len() as int) == b.len());
    assert(stop_from(b, o2) == b.len());
}

/// A header, one whole record, and the first `k` bytes of another whole
/// record, short of its end, decode to that header and the first record
/// alone; the `k` partial bytes are left over.
pub proof fn lemma_decode_truncated_tail(h: Seq<u8>, r1: Seq<u8>, r2: Seq<u8>, k: int)
    requires
        h.len() == HEADER_LEN,
        is_whole_v1(r1),
        is_whole_v1(r2),
        0 <= k < r2.len(),
    ensures
        header_at(h + r1 + r2.subrange(0, k), 0) == header_at(h, 0),
        lines_from(h + r1 + r2.subrange(0, k), HEADER_LEN as int) == seq![v1_at(r1, 0)],
        stop_from(h + r1 + r2.subrange(0, k), HEADER_LEN as int) == HEADER_LEN + r1.len(),
{
    let t = r2.subrange(0, k);
    let b = h + r1 + t;
    let o1 = HEADER_LEN as int;
    let o2 = o1 + r1.len();
    lemma_header_prefix(h, r1 + t);
    assert(h + (r1 + t) =~= b);
    assert(b.subrange(o1, o2) =~= r1);
    lemma_v1_in_context(b, o1, r1);
    assert(b.subrange(o2, o2 + k) =~= t);
    lemma_partial_v1_does_not_fit(b, o2, r2, k);
    assert(lines_from(b, o2) == Seq::<RunLineV1View>::empty());
    assert(lines_from(b, o1) =~= seq![v1_at(r1, 0)]);
    assert(stop_from(b, o2) == o2);
    assert(stop_from(b, o1) == o2);
}

} // verus!
