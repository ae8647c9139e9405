//! Verified validation of record framing.
//!
//! The decoder slices attachment record bodies as
//! `body[header_len .. body_len - 4]`, where `header_len` is computed from
//! two length-prefixed strings inside the body; crafted bytes can place the
//! start of that range after its end, which panics.  Likewise, a record
//! inside an uncompressed chunk that overruns the chunk's declared size
//! underruns the decoder's byte accounting.  The reader never hands bytes
//! to the decoder without first walking their `opcode, length, body`
//! frames with the functions of this module and failing closed when a
//! frame the decoder would reach is malformed in one of those two ways.
//!
//! The walk mirrors the decoder exactly.  A frame that runs past the end
//! of the decoded region is fine - the decoder stops with an error there -
//! with one exception: a declared body length within nine bytes of the
//! platform maximum makes the decoder's `opcode + length + body` sum wrap
//! before its end-of-stream comparison, so such frames are rejected
//! outright.  A chunk record with a non-empty compression string is fine:
//! this build carries no decompressors, so the decoder refuses it before
//! reading any contained record.

use vstd::prelude::*;

verus! {

/// The little-endian 32-bit value at `b[i..i+4]`.
pub open spec fn le_u32_at(b: Seq<u8>, i: int) -> int {
    b[i] + 0x100 * b[i + 1] + 0x10000 * b[i + 2] + 0x1000000 * b[i + 3]
}

/// The little-endian 64-bit value at `b[i..i+8]`.
pub open spec fn le_u64_at(b: Seq<u8>, i: int) -> int {
    le_u32_at(b, i) + 0x100000000 * le_u32_at(b, i + 4)
}

/// Read the little-endian 32-bit value at `b[i..i+4]`.
pub(crate) fn read_le_u32(b: &Vec<u8>, i: usize) -> (r: u32)
    requires
        i + 4 <= b@.len(),
    ensures
        r as int == le_u32_at(b@, i as int),
{
    let _len_bound = b.len();
    (b[i] as u32) + 0x100 * (b[i + 1] as u32) + 0x10000 * (b[i + 2] as u32) + 0x1000000 * (b[i
        + 3] as u32)
}

/// Read the little-endian 64-bit value at `b[i..i+8]`.
pub(crate) fn read_le_u64(b: &Vec<u8>, i: usize) -> (r: u64)
    requires
        i + 8 <= b@.len(),
    ensures
        r as int == le_u64_at(b@, i as int),
{
    let _len_bound = b.len();
    (read_le_u32(b, i) as u64) + 0x100000000 * (read_le_u32(b, i + 4) as u64)
}

/// Whether the decoder survives an attachment record body at
/// `b[s .. s + l]`.  The body holds two timestamps, a length-prefixed name
/// and media type, and a data length; the decoder then slices from the end
/// of those fields to four bytes before the body's end, so either some
/// field must already run out of the body (the decoder errors first) or
/// the body must reach four bytes past the fields.
pub open spec fn attachment_body_ok(b: Seq<u8>, s: int, l: int) -> bool {
    if l < 20 {
        true
    } else {
        let n = le_u32_at(b, s + 16);
        if l < 24 + n {
            true
        } else {
            let m = le_u32_at(b, s + 20 + n);
            if l < 32 + n + m {
                true
            } else {
                l >= 36 + n + m
            }
        }
    }
}

/// Check [`attachment_body_ok`] for the body at `b[s .. s + l]`.
pub(crate) fn check_attachment_body(b: &Vec<u8>, s: usize, l: usize) -> (r: bool)
    requires
        s + l <= b@.len(),
    ensures
        r == attachment_body_ok(b@, s as int, l as int),
{
    let _len_bound = b.len();
    if l < 20 {
        return true;
    }
    let n = read_le_u32(b, s + 16) as u64;
    if (l as u64) < 24 + n {
        return true;
    }
    proof {
        assert(n + 24 <= l);
    }
    let nn = n as usize;
    let m = read_le_u32(b, s + 20 + nn) as u64;
    if (l as u64) < 32 + n + m {
        return true;
    }
    (l as u64) >= 36 + n + m
}

/// Whether the decoder survives the records of an uncompressed chunk: no
/// frame may declare a length whose nine-byte framing sum wraps, the region
/// `[pos, cend)` must tile exactly into frames (a frame fully inside the
/// stream that overruns `cend` underruns the decoder's accounting), and
/// every attachment body in it must be well formed.  `eof` is where the
/// decoder's byte stream ends; frames running past it stop the decoder with
/// a read error before any harm.
pub open spec fn chunk_frames_ok(b: Seq<u8>, pos: int, cend: int, eof: int) -> bool
    decreases cend - pos,
{
    if pos >= cend {
        true
    } else if pos + 9 > eof {
        true
    } else {
        let l = le_u64_at(b, pos + 1);
        if l > usize::MAX - 9 {
            false
        } else if pos + 9 + l > eof {
            true
        } else if pos + 9 + l > cend {
            false
        } else {
            &&& (b[pos] == 9 ==> attachment_body_ok(b, pos + 9, l))
            &&& chunk_frames_ok(b, pos + 9 + l, cend, eof)
        }
    }
}

/// Check [`chunk_frames_ok`] for the region of `s` bytes at `start`.
pub(crate) fn check_chunk_frames(b: &Vec<u8>, start: u64, s: u64, eof: u64) -> (r: bool)
    requires
        eof <= b@.len(),
        start <= eof,
    ensures
        r == chunk_frames_ok(b@, start as int, start as int + s as int, eof as int),
{
    let ghost cend: int = start as int + s as int;
    let blen = b.len();
    let mut pos: u64 = start;
    let mut rem: u64 = s;
    loop
        invariant
            eof <= b@.len(),
            blen == b@.len(),
            pos <= eof,
            cend == start as int + s as int,
            pos as int + rem as int == cend,
            chunk_frames_ok(b@, start as int, cend, eof as int) == chunk_frames_ok(
                b@,
                pos as int,
                cend,
                eof as int,
            ),
        decreases rem,
    {
        if rem == 0 {
            return true;
        }
        if eof - pos < 9 {
            return true;
        }
        let l = read_le_u64(b, (pos + 1) as usize);
        if l > (usize::MAX - 9) as u64 {
            return false;
        }
        if l > eof - (pos + 9) {
            return true;
        }
        if rem < 9 || l > rem - 9 {
            return false;
        }
        if b[pos as usize] == 9 {
            if !check_attachment_body(b, (pos + 9) as usize, l as usize) {
                return false;
            }
        }
        pos = pos + 9 + l;
        rem = rem - 9 - l;
    }
}

/// Whether the decoder survives a chunk record met while scanning a record
/// stream: the frame at `pos` with body length `l`.  The chunk header is
/// read from the stream; a non-empty compression string stops the decoder
/// (no decompressor is built in), and an empty one exposes the following
/// `size` bytes of the stream as contained records.
pub open spec fn top_chunk_ok(b: Seq<u8>, pos: int, l: int, eof: int) -> bool {
    let bs = pos + 9;
    if bs + 40 > eof {
        true
    } else {
        let c = le_u32_at(b, bs + 28);
        if bs + 40 + c > eof {
            true
        } else if l < 40 + c {
            true
        } else if c != 0 {
            true
        } else {
            let s = le_u64_at(b, bs + 32);
            if s > l - 40 {
                true
            } else {
                chunk_frames_ok(b, bs + 40, bs + 40 + s, eof)
            }
        }
    }
}

/// Check [`top_chunk_ok`] for the chunk frame at `pos`.
pub(crate) fn check_top_chunk(b: &Vec<u8>, pos: u64, l: u64, eof: u64) -> (r: bool)
    requires
        eof <= b@.len(),
        pos + 9 <= eof,
    ensures
        r == top_chunk_ok(b@, pos as int, l as int, eof as int),
{
    let _len_bound = b.len();
    let bs = pos + 9;
    if eof - bs < 40 {
        return true;
    }
    let c = read_le_u32(b, (bs + 28) as usize) as u64;
    if c > eof - bs - 40 {
        return true;
    }
    if l < 40 + c {
        return true;
    }
    if c != 0 {
        return true;
    }
    let s = read_le_u64(b, (bs + 32) as usize);
    if s > l - 40 {
        return true;
    }
    check_chunk_frames(b, bs + 40, s, eof)
}

/// Whether the decoder survives a linear scan of the record stream
/// `[pos, eof)`: every frame it can reach is checked, chunk records through
/// [`top_chunk_ok`], attachment records through [`attachment_body_ok`], and
/// any non-chunk frame whose nine-byte framing sum wraps is rejected.
/// (Chunk frames never enter that sum: the decoder takes their header and
/// contents from the stream and subtracts from the declared length with
/// checked arithmetic.)
pub open spec fn scan_ok(b: Seq<u8>, pos: int, eof: int) -> bool
    decreases eof - pos,
{
    if pos + 9 > eof {
        true
    } else {
        let op = b[pos];
        let l = le_u64_at(b, pos + 1);
        if op == 6 {
            &&& top_chunk_ok(b, pos, l, eof)
            &&& if pos + 9 + l >= eof {
                true
            } else {
                scan_ok(b, pos + 9 + l, eof)
            }
        } else if l > usize::MAX - 9 {
            false
        } else if pos + 9 + l > eof {
            true
        } else {
            &&& (op == 9 ==> attachment_body_ok(b, pos + 9, l))
            &&& scan_ok(b, pos + 9 + l, eof)
        }
    }
}

/// Check [`scan_ok`] for the record stream `[start, eof)`.
pub(crate) fn check_scan(b: &Vec<u8>, start: u64, eof: u64) -> (r: bool)
    requires
        eof <= b@.len(),
    ensures
        r == scan_ok(b@, start as int, eof as int),
{
    let blen = b.len();
    let mut pos: u64 = start;
    loop
        invariant
            eof <= b@.len(),
            blen == b@.len(),
            scan_ok(b@, start as int, eof as int) == scan_ok(b@, pos as int, eof as int),
        decreases eof as int - pos as int,
    {
        if pos >= eof || eof - pos < 9 {
            return true;
        }
        let op = b[pos as usize];
        let l = read_le_u64(b, (pos + 1) as usize);
        if op == 6 {
            if !check_top_chunk(b, pos, l, eof) {
                return false;
            }
            if l >= eof - (pos + 9) {
                return true;
            }
            pos = pos + 9 + l;
        } else {
            if l > (usize::MAX - 9) as u64 {
                return false;
            }
            if l > eof - (pos + 9) {
                return true;
            }
            if op == 9 {
                if !check_attachment_body(b, (pos + 9) as usize, l as usize) {
                    return false;
                }
            }
            pos = pos + 9 + l;
        }
    }
}

/// Whether a chunk frame stops the decoder by itself: its header errors,
/// its compression is unsupported, or it exposes at least one contained
/// record (which is then decoded or errors).  Only a well-formed empty
/// chunk lets the scan continue to the next frame.
pub open spec fn chunk_emits(b: Seq<u8>, pos: int, l: int, eof: int) -> bool {
    let bs = pos + 9;
    if bs + 40 > eof {
        true
    } else {
        let c = le_u32_at(b, bs + 28);
        if bs + 40 + c > eof {
            true
        } else if l < 40 + c {
            true
        } else if c != 0 {
            true
        } else {
            le_u64_at(b, bs + 32) > 0
        }
    }
}

/// Whether the decoder survives reading one record from the stream
/// `[pos, eof)`: the frames up to and including the first one that yields a
/// record (the scan crosses well-formed empty chunks) are checked.
pub open spec fn emit_chain_ok(b: Seq<u8>, pos: int, eof: int) -> bool
    decreases eof - pos,
{
    if pos + 9 > eof {
        true
    } else {
        let op = b[pos];
        let l = le_u64_at(b, pos + 1);
        if op == 6 {
            &&& top_chunk_ok(b, pos, l, eof)
            &&& (chunk_emits(b, pos, l, eof) || if pos + 9 + l >= eof {
                true
            } else {
                emit_chain_ok(b, pos + 9 + l, eof)
            })
        } else if l > usize::MAX - 9 {
            false
        } else if pos + 9 + l > eof {
            true
        } else if op == 9 {
            attachment_body_ok(b, pos + 9, l)
        } else {
            true
        }
    }
}

/// Check [`emit_chain_ok`] for the record stream `[start, eof)`.
pub(crate) fn check_emit_chain(b: &Vec<u8>, start: u64, eof: u64) -> (r: bool)
    requires
        eof <= b@.len(),
    ensures
        r == emit_chain_ok(b@, start as int, eof as int),
{
    let blen = b.len();
    let mut pos: u64 = start;
    loop
        invariant
            eof <= b@.len(),
            blen == b@.len(),
            emit_chain_ok(b@, start as int, eof as int) == emit_chain_ok(
                b@,
                pos as int,
                eof as int,
            ),
        decreases eof as int - pos as int,
    {
        if pos >= eof || eof - pos < 9 {
            return true;
        }
        let op = b[pos as usize];
        let l = read_le_u64(b, (pos + 1) as usize);
        if op == 6 {
            if !check_top_chunk(b, pos, l, eof) {
                return false;
            }
            let bs = pos + 9;
            let emits: bool = if eof - bs < 40 {
                true
            } else {
                let c = read_le_u32(b, (bs + 28) as usize) as u64;
                if c > eof - bs - 40 {
                    true
                } else if l < 40 + c {
                    true
                } else if c != 0 {
                    true
                } else {
                    read_le_u64(b, (bs + 32) as usize) > 0
                }
            };
            if emits {
                return true;
            }
            if l >= eof - (pos + 9) {
                return true;
            }
            pos = pos + 9 + l;
        } else if l > (usize::MAX - 9) as u64 {
            return false;
        } else if l > eof - (pos + 9) {
            return true;
        } else if op == 9 {
            return check_attachment_body(b, (pos + 9) as usize, l as usize);
        } else {
            return true;
        }
    }
}

/// Whether the decoder survives streaming the chunk record at
/// `b[start .. start + len]`: its header is parsed from the body alone and
/// its contained records end exactly where its data ends, so only the
/// attachment bodies inside need checking.
pub open spec fn chunk_record_ok(b: Seq<u8>, start: int, len: int) -> bool {
    let bs = start + 9;
    let bl = len - 9;
    if bl < 40 {
        true
    } else {
        let c = le_u32_at(b, bs + 28);
        if 40 + c > bl {
            true
        } else if c != 0 {
            true
        } else {
            let s = le_u64_at(b, bs + 32);
            if s > bl - 40 {
                true
            } else {
                chunk_frames_ok(b, bs + 40, bs + 40 + s, bs + 40 + s)
            }
        }
    }
}

/// Check [`chunk_record_ok`] for the chunk record at `b[start .. start + len]`.
pub(crate) fn check_chunk_record(b: &Vec<u8>, start: u64, len: u64) -> (r: bool)
    requires
        start + len <= b@.len(),
        9 <= len,
    ensures
        r == chunk_record_ok(b@, start as int, len as int),
{
    let _len_bound = b.len();
    let bs = start + 9;
    let bl = len - 9;
    if bl < 40 {
        return true;
    }
    let c = read_le_u32(b, (bs + 28) as usize) as u64;
    if 40 + c > bl {
        return true;
    }
    if c != 0 {
        return true;
    }
    let s = read_le_u64(b, (bs + 32) as usize);
    if s > bl - 40 {
        return true;
    }
    check_chunk_frames(b, bs + 40, s, bs + 40 + s)
}

/// Whether the decoder survives parsing the summary section: the footer
/// record at the tail names where the summary starts, and the record
/// stream from there to the end of the log is scanned.  A log too short
/// for a footer, without the trailing magic, without a footer opcode, or
/// without a summary stops the decoder before any record is parsed.
pub open spec fn summary_scan_ok(b: Seq<u8>) -> bool {
    let n = b.len() as int;
    if n < 45 {
        true
    } else if !(b[n - 8] == 0x89 && b[n - 7] == 77 && b[n - 6] == 67 && b[n - 5] == 65 && b[n - 4]
        == 80 && b[n - 3] == 48 && b[n - 2] == 13 && b[n - 1] == 10) {
        true
    } else if b[n - 37] != 2 {
        true
    } else {
        let ss = le_u64_at(b, n - 28);
        if ss == 0 {
            true
        } else {
            scan_ok(b, ss, n)
        }
    }
}

/// Check [`summary_scan_ok`] for a whole log.
pub(crate) fn check_summary_scan(b: &Vec<u8>) -> (r: bool)
    ensures
        r == summary_scan_ok(b@),
{
    let n = b.len();
    if n < 45 {
        return true;
    }
    if !(b[n - 8] == 0x89 && b[n - 7] == 77 && b[n - 6] == 67 && b[n - 5] == 65 && b[n - 4] == 80
        && b[n - 3] == 48 && b[n - 2] == 13 && b[n - 1] == 10) {
        return true;
    }
    if b[n - 37] != 2 {
        return true;
    }
    let ss = read_le_u64(b, n - 28);
    if ss == 0 {
        return true;
    }
    if ss > n as u64 {
        return true;
    }
    check_scan(b, ss, n as u64)
}

/// Whether the decoder survives a linear scan of the whole log: the eight
/// magic bytes lead, and the record stream runs from there to the end.
pub open spec fn linear_scan_ok(b: Seq<u8>) -> bool {
    scan_ok(b, 8, b.len() as int)
}

/// Check [`linear_scan_ok`] for a whole log.
pub(crate) fn check_linear_scan(b: &Vec<u8>) -> (r: bool)
    ensures
        r == linear_scan_ok(b@),
{
    check_scan(b, 8, b.len() as u64)
}

} // verus!
