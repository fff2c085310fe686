use vstd::prelude::*;

verus! {

/// Size in bytes of the fixed file header.
pub const HEADER_LEN: usize = 10;

/// Why a decode step could not produce a value.
#[derive(Debug, Clone, Copy, PartialEq, Eq, Structural)]
pub enum DecodeError {
    /// The input held fewer bytes than the step needed.
    UnexpectedEndOfStream,
}

/// The fixed header at the start of a ghost replay file.
#[derive(Debug, Clone, Copy, PartialEq, Eq)]
pub struct GhostHeader {
    pub version: u8,
    pub game: u8,
    pub trail_length: u8,
    pub trail_color: (u8, u8, u8),
    pub ghost_color: (u8, u8, u8),
}

/// Whether a whole header starts at offset `p` of `b`.
pub open spec fn header_fits(b: Seq<u8>, p: int) -> bool {
    0 <= p && p + HEADER_LEN <= b.len()
}

/// The header whose bytes start at offset `p` of `b`; the byte at `p` is
/// reserved and takes no part.
pub open spec fn header_at(b: Seq<u8>, p: int) -> GhostHeader {
    GhostHeader {
        version: b[p + 1],
        game: b[p + 2],
        trail_color: (b[p + 3], b[p + 4], b[p + 5]),
        ghost_color: (b[p + 6], b[p + 7], b[p + 8]),
        trail_length: b[p + 9],
    }
}

impl GhostHeader {
    /// Decodes the header at `*pos` and moves `*pos` past it. On failure
    /// `*pos` is left where it was.
    pub fn read(bytes: &[u8], pos: &mut usize) -> (r: Result<GhostHeader, DecodeError>)
        ensures
            match r {
                Ok(h) => {
                    &&& header_fits(bytes@, *old(pos) as int)
                    &&& h == header_at(bytes@, *old(pos) as int)
                    &&& *final(pos) == *old(pos) + HEADER_LEN
                },
                Err(e) => {
                    &&& !header_fits(bytes@, *old(pos) as int)
                    &&& e == DecodeError::UnexpectedEndOfStream
                    &&& *final(pos) == *old(pos)
                },
            },
    {
        let p = *pos;
        if p > bytes.len() || bytes.len() - p < HEADER_LEN {
            return Err(DecodeError::UnexpectedEndOfStream);
        }
        let header = GhostHeader {
            version: bytes[p + 1],
            game: bytes[p + 2],
            trail_color: (bytes[p + 3], bytes[p + 4], bytes[p + 5]),
            ghost_color: (bytes[p + 6], bytes[p + 7], bytes[p + 8]),
            trail_length: bytes[p + 9],
        };
        *pos = p + HEADER_LEN;
        Ok(header)
    }
}

/// The reserved first byte never influences the decoded header: two inputs
/// that agree on the other nine header bytes decode to the same header.
pub proof fn lemma_header_ignores_reserved(a: Seq<u8>, b: Seq<u8>, p: int)
    requires
        header_fits(a, p),
        header_fits(b, p),
        forall|i: int| p < i < p + HEADER_LEN ==> a[i] == b[i],
    ensures
        header_at(a, p) == header_at(b, p),
{
    assert(a[p + 1] == b[p + 1]);
    assert(a[p + 2] == b[p + 2]);
    assert(a[p + 3] == b[p + 3]);
    assert(a[p + 4] == b[p + 4]);
    assert(a[p + 5] == b[p + 5]);
    assert(a[p + 6] == b[p + 6]);
    assert(a[p + 7] == b[p + 7]);
    assert(a[p + 8] == b[p + 8]);
    assert(a[p + 9] == b[p + 9]);
}

} // verus!
