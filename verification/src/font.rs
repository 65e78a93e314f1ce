//! Parsed fonts. A face's source bytes are validated by reading the sfnt
//! header: the four-byte version tag must be one of the known values and
//! the table directory announced in the header must lie within the data.
//! A face whose bytes fail this check yields no font; the failure is
//! reported per face and never aborts a batch operation.

use vstd::prelude::*;

use crate::db::FaceRecord;

verus! {

/// Why a face identifier produced no font.
#[derive(Clone, Copy, Debug, PartialEq, Eq, Structural)]
pub enum FontError {
    /// The identifier is unknown to the database.
    NotFound,
    /// The face is known but its source bytes failed to parse.
    LoadFailure,
}

/// The realized font object produced by validating a face's source bytes:
/// the face identity together with the parsed header fields. Handles to it
/// are shared; it is never re-parsed while a cache entry exists.
#[derive(Clone, Copy, Debug, PartialEq, Eq, Structural)]
pub struct Font {
    /// Identifier of the face this font was parsed from.
    pub id: u64,
    /// The sfnt version tag read from the first four source bytes.
    pub sfnt_version: u32,
    /// The number of tables announced by the header.
    pub num_tables: u16,
}

/// The big-endian 16-bit value at byte offset `i`.
pub open spec fn be_u16(b: Seq<u8>, i: int) -> int {
    b[i] * 0x100 + b[i + 1]
}

/// The big-endian 32-bit value at byte offset `i`.
pub open spec fn be_u32(b: Seq<u8>, i: int) -> int {
    b[i] * 0x1000000 + b[i + 1] * 0x10000 + b[i + 2] * 0x100 + b[i + 3]
}

/// The accepted sfnt version tags: 0x00010000 (TrueType outlines),
/// "OTTO" (CFF outlines), "true" and "typ1" (legacy TrueType).
pub open spec fn valid_sfnt_tag(t: int) -> bool {
    ||| t == 0x00010000
    ||| t == 0x4F54544F
    ||| t == 0x74727565
    ||| t == 0x74797031
}

/// Whether the source bytes parse: a 12-byte header with an accepted
/// version tag, and room for the announced table directory of 16 bytes
/// per table.
pub open spec fn parse_ok(b: Seq<u8>) -> bool {
    &&& b.len() >= 12
    &&& valid_sfnt_tag(be_u32(b, 0))
    &&& b.len() >= 12 + 16 * be_u16(b, 4)
}

/// The font that parsing a record's source bytes yields, when they parse.
pub open spec fn font_of(face: FaceRecord) -> Font {
    Font {
        id: face.id,
        sfnt_version: be_u32(face.source@, 0) as u32,
        num_tables: be_u16(face.source@, 4) as u16,
    }
}

impl Font {
    /// Parses a face's source bytes, returning the font exactly when the
    /// bytes parse.
    pub fn new(face: &FaceRecord) -> (r: Option<Font>)
        ensures
            r is Some <==> parse_ok(face.source@),
            r matches Some(f) ==> f == font_of(*face),
    {
        let src: &Vec<u8> = &face.source;
        if src.len() < 12 {
            return None;
        }
        let tag: u32 = (src[0] as u32) * 0x1000000 + (src[1] as u32) * 0x10000 + (src[2] as u32)
            * 0x100 + (src[3] as u32);
        if !(tag == 0x00010000 || tag == 0x4F54544F || tag == 0x74727565 || tag == 0x74797031) {
            return None;
        }
        let num_tables: u16 = (src[4] as u16) * 0x100 + (src[5] as u16);
        if src.len() < 12 + 16 * (num_tables as usize) {
            return None;
        }
        Some(Font { id: face.id, sfnt_version: tag, num_tables })
    }

    /// The identifier of the face this font was parsed from.
    pub fn id(&self) -> (r: u64)
        ensures
            r == self.id,
    {
        self.id
    }
}

} // verus!
