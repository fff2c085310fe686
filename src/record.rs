use vstd::prelude::*;
use vstd::slice::slice_subrange;
use crate::bytes::{lossy_string, read_u32_le, u32_le_at, utf8_lossy};
use crate::header::DecodeError;

verus! {

/// Offset just past the length-prefixed string that starts at `p`.
pub open spec fn str_end(b: Seq<u8>, p: int) -> int {
    p + 1 + b[p] as int
}

/// Whether a whole length-prefixed string starts at offset `p` of `b`.
pub open spec fn str_fits(b: Seq<u8>, p: int) -> bool {
    0 <= p < b.len() && str_end(b, p) <= b.len()
}

/// The text of the length-prefixed string that starts at `p`.
pub open spec fn str_at(b: Seq<u8>, p: int) -> Seq<char> {
    utf8_lossy(b.subrange(p + 1, str_end(b, p)))
}

/// Offset of the first float of the record that starts at `p`: past the map
/// and the name.
pub open spec fn floats_at(b: Seq<u8>, p: int) -> int {
    str_end(b, str_end(b, p))
}

/// Whether both strings of a record and `n` float bytes after them start at `p`.
pub open spec fn strings_and_floats_fit(b: Seq<u8>, p: int, n: int) -> bool {
    &&& str_fits(b, p)
    &&& str_fits(b, str_end(b, p))
    &&& floats_at(b, p) + n <= b.len()
}

/// Whether a whole V1 record starts at offset `p` of `b`.
pub open spec fn v1_fits(b: Seq<u8>, p: int) -> bool {
    strings_and_floats_fit(b, p, 16)
}

/// Offset just past the V1 record that starts at `p`.
pub open spec fn v1_end(b: Seq<u8>, p: int) -> int {
    floats_at(b, p) + 16
}

/// Whether a whole V2 record starts at offset `p` of `b`.
pub open spec fn v2_fits(b: Seq<u8>, p: int) -> bool {
    strings_and_floats_fit(b, p, 20)
}

/// Offset just past the V2 record that starts at `p`.
pub open spec fn v2_end(b: Seq<u8>, p: int) -> int {
    floats_at(b, p) + 20
}

/// A V1 record as values: the two texts and the bit patterns of its floats.
pub struct RunLineV1View {
    pub map: Seq<char>,
    pub name: Seq<char>,
    pub timestamp_bits: u32,
    pub x_bits: u32,
    pub y_bits: u32,
    pub z_bits: u32,
}

/// A V2 record as values: a V1 record and the bit pattern of the yaw.
pub struct RunLineV2View {
    pub map: Seq<char>,
    pub name: Seq<char>,
    pub timestamp_bits: u32,
    pub x_bits: u32,
    pub y_bits: u32,
    pub z_bits: u32,
    pub yaw_bits: u32,
}

/// The V1 record whose bytes start at offset `p` of `b`.
pub open spec fn v1_at(b: Seq<u8>, p: int) -> RunLineV1View {
    let f = floats_at(b, p);
    RunLineV1View {
        map: str_at(b, p),
        name: str_at(b, str_end(b, p)),
        timestamp_bits: u32_le_at(b, f),
        x_bits: u32_le_at(b, f + 4),
        y_bits: u32_le_at(b, f + 8),
        z_bits: u32_le_at(b, f + 12),
    }
}

/// The V2 record whose bytes start at offset `p` of `b`.
pub open spec fn v2_at(b: Seq<u8>, p: int) -> RunLineV2View {
    let f = floats_at(b, p);
    RunLineV2View {
        map: str_at(b, p),
        name: str_at(b, str_end(b, p)),
        timestamp_bits: u32_le_at(b, f),
        x_bits: u32_le_at(b, f + 4),
        y_bits: u32_le_at(b, f + 8),
        z_bits: u32_le_at(b, f + 12),
        yaw_bits: u32_le_at(b, f + 16),
    }
}

/// One position sample, in the layout without yaw. Each float field holds
/// the IEEE-754 single-precision bit pattern as read from the file.
#[derive(Debug)]
pub struct RunLineV1 {
    pub map: String,
    pub name: String,
    pub timestamp_bits: u32,
    pub x_bits: u32,
    pub y_bits: u32,
    pub z_bits: u32,
}

/// One position sample, in the layout with a trailing yaw. Each float field
/// holds the IEEE-754 single-precision bit pattern as read from the file.
#[derive(Debug)]
pub struct RunLineV2 {
    pub map: String,
    pub name: String,
    pub timestamp_bits: u32,
    pub x_bits: u32,
    pub y_bits: u32,
    pub z_bits: u32,
    pub yaw_bits: u32,
}

impl View for RunLineV1 {
    type V = RunLineV1View;

    open spec fn view(&self) -> RunLineV1View {
        RunLineV1View {
            map: self.map@,
            name: self.name@,
            timestamp_bits: self.timestamp_bits,
            x_bits: self.x_bits,
            y_bits: self.y_bits,
            z_bits: self.z_bits,
        }
    }
}

impl View for RunLineV2 {
    type V = RunLineV2View;

    open spec fn view(&self) -> RunLineV2View {
        RunLineV2View {
            map: self.map@,
            name: self.name@,
            timestamp_bits: self.timestamp_bits,
            x_bits: self.x_bits,
            y_bits: self.y_bits,
            z_bits: self.z_bits,
            yaw_bits: self.yaw_bits,
        }
    }
}

/// Whether `r` is exactly one whole V1 record.
pub open spec fn is_whole_v1(r: Seq<u8>) -> bool {
    v1_fits(r, 0) && v1_end(r, 0) == r.len()
}

/// A length-prefixed string depends on its own bytes alone: wherever the
/// same `1 + L` bytes stand, they decode to the same text and take up the
/// same `1 + L` bytes.
pub proof fn lemma_string_depends_on_its_bytes(a: Seq<u8>, p: int, b: Seq<u8>, q: int)
    requires
        str_fits(a, p),
        0 <= q,
        q + (str_end(a, p) - p) <= b.len(),
        b.subrange(q, q + (str_end(a, p) - p)) == a.subrange(p, str_end(a, p)),
    ensures
        str_fits(b, q),
        str_end(a, p) - p == 1 + a[p],
        str_end(b, q) - q == str_end(a, p) - p,
        str_at(b, q) == str_at(a, p),
{
    let n = str_end(a, p) - p;
    assert(b[q] == b.subrange(q, q + n)[0]);
    assert forall|i: int| 0 <= i < n implies #[trigger] b[q + i] == a[p + i] by {
        assert(b[q + i] == b.subrange(q, q + n)[i]);
        assert(a[p + i] == a.subrange(p, p + n)[i]);
    }
    let sb = b.subrange(q + 1, str_end(b, q));
    let sa = a.subrange(p + 1, str_end(a, p));
    assert forall|j: int| 0 <= j < n - 1 implies #[trigger] sb[j] == sa[j] by {
        assert(b[q + (j + 1)] == a[p + (j + 1)]);
    }
    assert(sb =~= sa);
}

/// A whole V1 record decodes the same wherever it stands in a larger input.
pub proof fn lemma_v1_in_context(b: Seq<u8>, o: int, r: Seq<u8>)
    requires
        is_whole_v1(r),
        0 <= o,
        o + r.len() <= b.len(),
        b.subrange(o, o + r.len()) == r,
    ensures
        v1_fits(b, o),
        v1_end(b, o) == o + r.len(),
        v1_at(b, o) == v1_at(r, 0),
{
    assert forall|i: int| 0 <= i < r.len() implies b[o + i] == r[i] by {
        assert(b[o + i] == b.subrange(o, o + r.len())[i]);
    }
    let e1 = str_end(r, 0);
    assert(b.subrange(o, o + e1) =~= r.subrange(0, e1));
    lemma_string_depends_on_its_bytes(r, 0, b, o);
    let e2 = str_end(r, e1);
    assert(b.subrange(o + e1, o + e2) =~= r.subrange(e1, e2));
    lemma_string_depends_on_its_bytes(r, e1, b, o + e1);
    let f = floats_at(r, 0);
    assert(floats_at(b, o) == o + f);
    assert(u32_le_at(b, o + f) == u32_le_at(r, f));
    assert(u32_le_at(b, o + f + 4) == u32_le_at(r, f + 4));
    assert(u32_le_at(b, o + f + 8) == u32_le_at(r, f + 8));
    assert(u32_le_at(b, o + f + 12) == u32_le_at(r, f + 12));
}

/// Bytes that stop short of a whole V1 record hold no record: an input that
/// ends after the first `k` bytes of a whole record, at `o`, has no record
/// fitting at `o`.
pub proof fn lemma_partial_v1_does_not_fit(b: Seq<u8>, o: int, r: Seq<u8>, k: int)
    requires
        is_whole_v1(r),
        0 <= o,
        0 <= k < r.len(),
        b.len() == o + k,
        b.subrange(o, o + k) == r.subrange(0, k),
    ensures
        !v1_fits(b, o),
{
    assert forall|i: int| 0 <= i < k implies b[o + i] == r[i] by {
        assert(b[o + i] == b.subrange(o, o + k)[i]);
        assert(r[i] == r.subrange(0, k)[i]);
    }
    if v1_fits(b, o) {
        let e1 = str_end(r, 0);
        assert(b[o] == r[0]);
        assert(str_end(b, o) == o + e1);
        assert(b[o + e1] == r[e1]);
        assert(floats_at(b, o) == o + floats_at(r, 0));
        assert(false);
    }
}

/// Decodes the length-prefixed string at `*pos`: one length byte `L`, then
/// `L` bytes read as lossy UTF-8. Moves `*pos` past the `1 + L` bytes; on
/// failure `*pos` is left where it was.
pub fn read_length_prefixed_string(bytes: &[u8], pos: &mut usize) -> (r: Result<
    String,
    DecodeError,
>)
    ensures
        match r {
            Ok(s) => {
                &&& str_fits(bytes@, *old(pos) as int)
                &&& s@ == str_at(bytes@, *old(pos) as int)
                &&& bytes@[*old(pos) as int] == 0 ==> s@.len() == 0
                &&& *final(pos) == str_end(bytes@, *old(pos) as int)
            },
            Err(e) => {
                &&& !str_fits(bytes@, *old(pos) as int)
                &&& e == DecodeError::UnexpectedEndOfStream
                &&& *final(pos) == *old(pos)
            },
        },
{
    let p = *pos;
    if p >= bytes.len() {
        return Err(DecodeError::UnexpectedEndOfStream);
    }
    let len = bytes[p] as usize;
    if len > bytes.len() - (p + 1) {
        return Err(DecodeError::UnexpectedEndOfStream);
    }
    let text = lossy_string(slice_subrange(bytes, p + 1, p + 1 + len));
    *pos = p + 1 + len;
    Ok(text)
}

/// The bit pattern of the little-endian float at `*pos`; moves `*pos` past it.
fn read_f32_bits(bytes: &[u8], pos: &mut usize) -> (r: u32)
    requires
        *old(pos) + 4 <= bytes@.len(),
    ensures
        r == u32_le_at(bytes@, *old(pos) as int),
        *final(pos) == *old(pos) + 4,
{
    let p = *pos;
    // the slice's length is a usize, so `p + 4` fits in one
    assert(bytes.len() == bytes@.len());
    let four = slice_subrange(bytes, p, p + 4);
    let r = read_u32_le(four);
    assert(four@[0] == bytes@[p as int] && four@[1] == bytes@[p + 1] && four@[2] == bytes@[p + 2]
        && four@[3] == bytes@[p + 3]);
    *pos = p + 4;
    r
}

/// Decodes the map and the name of the record at `*pos`, and checks that `n`
/// float bytes follow them. On success `*pos` is the offset of the first
/// float; on failure it is left where it was.
fn read_strings(bytes: &[u8], pos: &mut usize, n: usize) -> (r: Result<
    (String, String),
    DecodeError,
>)
    ensures
        match r {
            Ok((map, name)) => {
                &&& strings_and_floats_fit(bytes@, *old(pos) as int, n as int)
                &&& map@ == str_at(bytes@, *old(pos) as int)
                &&& bytes@[*old(pos) as int] == 0 ==> map@.len() == 0
                &&& name@ == str_at(bytes@, str_end(bytes@, *old(pos) as int))
                &&& *final(pos) == floats_at(bytes@, *old(pos) as int)
            },
            Err(e) => {
                &&& !strings_and_floats_fit(bytes@, *old(pos) as int, n as int)
                &&& e == DecodeError::UnexpectedEndOfStream
                &&& *final(pos) == *old(pos)
            },
        },
{
    let mut p = *pos;
    let map = match read_length_prefixed_string(bytes, &mut p) {
        Ok(s) => s,
        Err(e) => return Err(e),
    };
    let name = match read_length_prefixed_string(bytes, &mut p) {
        Ok(s) => s,
        Err(e) => return Err(e),
    };
    if n > bytes.len() - p {
        return Err(DecodeError::UnexpectedEndOfStream);
    }
    *pos = p;
    Ok((map, name))
}

impl RunLineV1 {
    /// Decodes the V1 record at `*pos`: map, name, then timestamp, x, y and z
    /// as little-endian floats. Moves `*pos` past the record; on failure
    /// `*pos` is left where it was.
    pub fn read(bytes: &[u8], pos: &mut usize) -> (r: Result<RunLineV1, DecodeError>)
        ensures
            match r {
                Ok(line) => {
                    &&& v1_fits(bytes@, *old(pos) as int)
                    &&& line@ == v1_at(bytes@, *old(pos) as int)
                    &&& bytes@[*old(pos) as int] == 0 ==> line.map@.len() == 0
                    &&& *final(pos) == v1_end(bytes@, *old(pos) as int)
                },
                Err(e) => {
                    &&& !v1_fits(bytes@, *old(pos) as int)
                    &&& e == DecodeError::UnexpectedEndOfStream
                    &&& *final(pos) == *old(pos)
                },
            },
    {
        let mut p = *pos;
        let (map, name) = match read_strings(bytes, &mut p, 16) {
            Ok(s) => s,
            Err(e) => return Err(e),
        };
        let timestamp_bits = read_f32_bits(bytes, &mut p);
        let x_bits = read_f32_bits(bytes, &mut p);
        let y_bits = read_f32_bits(bytes, &mut p);
        let z_bits = read_f32_bits(bytes, &mut p);
        *pos = p;
        Ok(RunLineV1 { map, name, timestamp_bits, x_bits, y_bits, z_bits })
    }

    /// Whether this record opens a new trail segment: its map is empty.
    pub fn is_segment_start(&self) -> (r: bool)
        ensures
            r == (self.map@.len() == 0),
    {
        self.map.as_str().is_empty()
    }
}

impl RunLineV2 {
    /// Decodes the V2 record at `*pos`: the V1 fields, then yaw as a
    /// little-endian float. Moves `*pos` past the record; on failure `*pos`
    /// is left where it was.
    pub fn read(bytes: &[u8], pos: &mut usize) -> (r: Result<RunLineV2, DecodeError>)
        ensures
            match r {
                Ok(line) => {
                    &&& v2_fits(bytes@, *old(pos) as int)
                    &&& line@ == v2_at(bytes@, *old(pos) as int)
                    &&& bytes@[*old(pos) as int] == 0 ==> line.map@.len() == 0
                    &&& *final(pos) == v2_end(bytes@, *old(pos) as int)
                },
                Err(e) => {
                    &&& !v2_fits(bytes@, *old(pos) as int)
                    &&& e == DecodeError::UnexpectedEndOfStream
                    &&& *final(pos) == *old(pos)
                },
            },
    {
        let mut p = *pos;
        let (map, name) = match read_strings(bytes, &mut p, 20) {
            Ok(s) => s,
            Err(e) => return Err(e),
        };
        let timestamp_bits = read_f32_bits(bytes, &mut p);
        let x_bits = read_f32_bits(bytes, &mut p);
        let y_bits = read_f32_bits(bytes, &mut p);
        let z_bits = read_f32_bits(bytes, &mut p);
        let yaw_bits = read_f32_bits(bytes, &mut p);
        *pos = p;
        Ok(RunLineV2 { map, name, timestamp_bits, x_bits, y_bits, z_bits, yaw_bits })
    }

    /// Whether this record opens a new trail segment: its map is empty.
    pub fn is_segment_start(&self) -> (r: bool)
        ensures
            r == (self.map@.len() == 0),
    {
        self.map.as_str().is_empty()
    }
}

} // verus!
