//! Parsing of the ZIP container: the end-of-central-directory record, the
//! central-directory records, and per-entry local file headers, all read from
//! an in-memory byte buffer.

use vstd::prelude::*;
use vstd::slice::slice_subrange;
use vstd::slice::slice_to_vec;
use vstd::utf8::decode_utf8;
use vstd::utf8::valid_utf8;
use crate::errors::Error;
use crate::text::utf8_to_string;

verus! {

/// The 16-bit little-endian value at `p`.
pub open spec fn le16(b: Seq<u8>, p: int) -> int {
    b[p] + 256 * b[p + 1]
}

/// The 32-bit little-endian value at `p`.
pub open spec fn le32(b: Seq<u8>, p: int) -> int {
    b[p] + 256 * b[p + 1] + 65536 * b[p + 2] + 16777216 * b[p + 3]
}

fn read_u16_at(b: &[u8], p: usize) -> (r: u16)
    requires
        p + 2 <= b@.len(),
    ensures
        r == le16(b@, p as int),
{
    let lo: u16 = b[p] as u16;
    let hi: u16 = b[p + 1] as u16;
    lo + hi * 256
}

fn read_u32_at(b: &[u8], p: usize) -> (r: u32)
    requires
        p + 4 <= b@.len(),
    ensures
        r == le32(b@, p as int),
{
    let b0: u32 = b[p] as u32;
    let b1: u32 = b[p + 1] as u32;
    let b2: u32 = b[p + 2] as u32;
    let b3: u32 = b[p + 3] as u32;
    b0 + b1 * 256 + b2 * 65536 + b3 * 16777216
}

/// The end-of-central-directory record: how many central-directory records
/// there are, where they start, and where the record itself sits.
pub struct Eocd {
    pub cd_count: u16,
    pub cd_size: u32,
    pub cd_offset: u32,
    pub pos: usize,
}

/// Whether a well-formed end-of-central-directory record sits at `p`: its
/// signature, its fixed part, and a comment running exactly to the end of the
/// buffer.
pub open spec fn valid_eocd_at(b: Seq<u8>, p: int) -> bool {
    &&& 0 <= p
    &&& p + 22 <= b.len()
    &&& b[p] == 0x50u8
    &&& b[p + 1] == 0x4bu8
    &&& b[p + 2] == 0x05u8
    &&& b[p + 3] == 0x06u8
    &&& p + 22 + le16(b, p + 20) == b.len()
}

/// The earliest position at or after `p` holding a well-formed
/// end-of-central-directory record, if any.
pub open spec fn spec_find_eocd(b: Seq<u8>, p: int) -> Option<int>
    decreases b.len() - p,
    when 0 <= p
{
    if p + 22 > b.len() {
        None
    } else if valid_eocd_at(b, p) {
        Some(p)
    } else {
        spec_find_eocd(b, p + 1)
    }
}

proof fn lemma_find_eocd_skip(b: Seq<u8>, p: int)
    requires
        0 <= p,
        forall|q: int| 0 <= q < p ==> !valid_eocd_at(b, q),
    ensures
        spec_find_eocd(b, 0) == spec_find_eocd(b, p),
    decreases p,
{
    if p > 0 {
        lemma_find_eocd_skip(b, p - 1);
        assert(!valid_eocd_at(b, p - 1));
    }
}

/// Finds the end-of-central-directory record: the earliest position holding a
/// well-formed record. Fails with `CorruptArchive` when there is none.
pub fn parse_eocd(b: &[u8]) -> (r: Result<Eocd, Error>)
    ensures
        match r {
            Ok(e) => {
                &&& spec_find_eocd(b@, 0) == Some(e.pos as int)
                &&& valid_eocd_at(b@, e.pos as int)
                &&& e.cd_count == le16(b@, e.pos + 10)
                &&& e.cd_size == le32(b@, e.pos + 12)
                &&& e.cd_offset == le32(b@, e.pos + 16)
            },
            Err(err) => {
                &&& err == Error::CorruptArchive
                &&& spec_find_eocd(b@, 0) is None
            },
        },
{
    let len = b.len();
    if len < 22 {
        return Err(Error::CorruptArchive);
    }
    // A comment is at most 65535 bytes, so a valid record cannot start
    // before this bound.
    let lower = if len >= 65557 {
        len - 65557
    } else {
        0
    };
    proof {
        assert forall|q: int| 0 <= q < lower implies !valid_eocd_at(b@, q) by {
            if valid_eocd_at(b@, q) {
                assert(le16(b@, q + 20) <= 65535);
            }
        }
    }
    let mut p = lower;
    while p <= len - 22
        invariant
            lower <= p <= len,
            len == b@.len(),
            len >= 22,
            forall|q: int| 0 <= q < p ==> !valid_eocd_at(b@, q),
        decreases len - p,
    {
        if b[p] == 0x50u8 && b[p + 1] == 0x4bu8 && b[p + 2] == 0x05u8 && b[p + 3] == 0x06u8 {
            let clen = read_u16_at(b, p + 20);
            if len - p - 22 == clen as usize {
                proof {
                    assert(valid_eocd_at(b@, p as int));
                    lemma_find_eocd_skip(b@, p as int);
                }
                let e = Eocd {
                    cd_count: read_u16_at(b, p + 10),
                    cd_size: read_u32_at(b, p + 12),
                    cd_offset: read_u32_at(b, p + 16),
                    pos: p,
                };
                return Ok(e);
            }
        }
        proof {
            assert(!valid_eocd_at(b@, p as int));
        }
        p = p + 1;
    }
    proof {
        lemma_find_eocd_skip(b@, p as int);
    }
    Err(Error::CorruptArchive)
}

/// One central-directory record, reduced to what the build reads: the entry
/// name and where its local file header sits.
pub struct CdEntry {
    pub name: String,
    pub local_header_position: u32,
}

/// What a central-directory record means.
pub struct CdEntryModel {
    pub name: Seq<char>,
    pub local_header_position: u32,
}

impl View for CdEntry {
    type V = CdEntryModel;

    open spec fn view(&self) -> CdEntryModel {
        CdEntryModel { name: self.name@, local_header_position: self.local_header_position }
    }
}

/// Position of the record following the one at `p`.
pub open spec fn cd_next(b: Seq<u8>, p: int) -> int {
    p + 46 + le16(b, p + 28) + le16(b, p + 30) + le16(b, p + 32)
}

/// The raw bytes of the entry name of the record at `p`.
pub open spec fn cd_name_raw(b: Seq<u8>, p: int) -> Seq<u8> {
    b.subrange(p + 46, p + 46 + le16(b, p + 28))
}

/// Whether a well-formed central-directory record sits at `p`: its signature,
/// its fixed part, its variable part in bounds, and a UTF-8 entry name.
pub open spec fn valid_cd_at(b: Seq<u8>, p: int) -> bool {
    &&& 0 <= p
    &&& p + 46 <= b.len()
    &&& b[p] == 0x50u8
    &&& b[p + 1] == 0x4bu8
    &&& b[p + 2] == 0x01u8
    &&& b[p + 3] == 0x02u8
    &&& cd_next(b, p) <= b.len()
    &&& valid_utf8(cd_name_raw(b, p))
}

/// What the record at `p` means.
pub open spec fn cd_model(b: Seq<u8>, p: int) -> CdEntryModel {
    CdEntryModel {
        name: decode_utf8(cd_name_raw(b, p)),
        local_header_position: le32(b, p + 42) as u32,
    }
}

/// Position of record `i`, counting from the start of the central directory
/// at `p0`.
pub open spec fn cd_pos(b: Seq<u8>, p0: int, i: nat) -> int
    decreases i,
{
    if i == 0 {
        p0
    } else {
        cd_next(b, cd_pos(b, p0, (i - 1) as nat))
    }
}

/// Whether records `0 .. n` from `p0` are all well-formed.
pub open spec fn cd_all_valid(b: Seq<u8>, p0: int, n: nat) -> bool {
    forall|i: nat| i < n ==> valid_cd_at(b, #[trigger] cd_pos(b, p0, i))
}

proof fn lemma_not_all_valid(b: Seq<u8>, p0: int, n: nat, k: nat)
    requires
        k < n,
        !valid_cd_at(b, cd_pos(b, p0, k)),
    ensures
        !cd_all_valid(b, p0, n),
{
}

/// Reads the central directory announced by `eocd`: `cd_count` consecutive
/// records from `cd_offset`, which must run exactly up to the
/// end-of-central-directory record. Fails with `CorruptArchive` otherwise.
pub fn parse_central_directory(b: &[u8], eocd: &Eocd) -> (r: Result<Vec<CdEntry>, Error>)
    requires
        eocd.pos <= b@.len(),
    ensures
        match r {
            Ok(v) => {
                &&& cd_all_valid(b@, eocd.cd_offset as int, eocd.cd_count as nat)
                &&& cd_pos(b@, eocd.cd_offset as int, eocd.cd_count as nat) == eocd.pos as int
                &&& v@.len() == eocd.cd_count as nat
                &&& forall|i: int|
                    0 <= i < v@.len() ==> (#[trigger] v@[i])@ == cd_model(
                        b@,
                        cd_pos(b@, eocd.cd_offset as int, i as nat),
                    )
            },
            Err(err) => {
                &&& err == Error::CorruptArchive
                &&& !({
                    &&& cd_all_valid(b@, eocd.cd_offset as int, eocd.cd_count as nat)
                    &&& cd_pos(b@, eocd.cd_offset as int, eocd.cd_count as nat) == eocd.pos as int
                })
            },
        },
{
    let ghost p0: int = eocd.cd_offset as int;
    let n: usize = eocd.cd_count as usize;
    let mut out: Vec<CdEntry> = Vec::new();
    let mut pos: usize = 0;
    let start: usize = eocd.cd_offset as usize;
    if start > b.len() {
        proof {
            assert(cd_pos(b@, p0, 0) == p0);
            if eocd.cd_count == 0 {
                assert(cd_pos(b@, p0, eocd.cd_count as nat) != eocd.pos as int);
            } else {
                assert(!valid_cd_at(b@, cd_pos(b@, p0, 0)));
            }
        }
        return Err(Error::CorruptArchive);
    }
    pos = start;
    let mut k: usize = 0;
    while k < n
        invariant
            k <= n,
            n == eocd.cd_count as nat,
            p0 == eocd.cd_offset as int,
            eocd.pos <= b@.len(),
            pos <= b@.len(),
            pos == cd_pos(b@, p0, k as nat),
            cd_all_valid(b@, p0, k as nat),
            out@.len() == k,
            forall|i: int|
                0 <= i < k ==> (#[trigger] out@[i])@ == cd_model(b@, cd_pos(b@, p0, i as nat)),
        decreases n - k,
    {
        if b.len() - pos < 46 {
            proof {
                assert(!valid_cd_at(b@, cd_pos(b@, p0, k as nat)));
                lemma_not_all_valid(b@, p0, eocd.cd_count as nat, k as nat);
            }
            return Err(Error::CorruptArchive);
        }
        if !(b[pos] == 0x50u8 && b[pos + 1] == 0x4bu8 && b[pos + 2] == 0x01u8 && b[pos + 3]
            == 0x02u8) {
            proof {
                assert(!valid_cd_at(b@, cd_pos(b@, p0, k as nat)));
                lemma_not_all_valid(b@, p0, eocd.cd_count as nat, k as nat);
            }
            return Err(Error::CorruptArchive);
        }
        let nlen = read_u16_at(b, pos + 28) as usize;
        let xlen = read_u16_at(b, pos + 30) as usize;
        let clen = read_u16_at(b, pos + 32) as usize;
        let need: usize = 46 + nlen + xlen + clen;
        if need > b.len() - pos {
            proof {
                assert(cd_next(b@, pos as int) > b@.len());
                assert(!valid_cd_at(b@, cd_pos(b@, p0, k as nat)));
                lemma_not_all_valid(b@, p0, eocd.cd_count as nat, k as nat);
            }
            return Err(Error::CorruptArchive);
        }
        let raw = slice_subrange(b, pos + 46, pos + 46 + nlen);
        proof {
            assert(raw@ =~= cd_name_raw(b@, pos as int));
        }
        let name = match utf8_to_string(slice_to_vec(raw)) {
            Some(s) => s,
            None => {
                proof {
                    assert(!valid_cd_at(b@, cd_pos(b@, p0, k as nat)));
                lemma_not_all_valid(b@, p0, eocd.cd_count as nat, k as nat);
                }
                return Err(Error::CorruptArchive);
            },
        };
        let lhp = read_u32_at(b, pos + 42);
        out.push(CdEntry { name, local_header_position: lhp });
        proof {
            assert(valid_cd_at(b@, pos as int));
            assert(cd_pos(b@, p0, (k + 1) as nat) == cd_next(b@, cd_pos(b@, p0, k as nat)));
            assert(le32(b@, pos + 42) < 0x100000000);
        }
        pos = pos + need;
        k = k + 1;
    }
    if pos == eocd.pos {
        Ok(out)
    } else {
        Err(Error::CorruptArchive)
    }
}

/// One local file header with its raw payload.
pub struct LocalFile {
    pub method: u16,
    pub crc32: u32,
    pub uncompressed_size: u32,
    pub payload: Vec<u8>,
}

/// Compression method declared by the local file header at `p`.
pub open spec fn local_method(b: Seq<u8>, p: int) -> int {
    le16(b, p + 8)
}

/// CRC32 declared by the local file header at `p`.
pub open spec fn local_crc32(b: Seq<u8>, p: int) -> int {
    le32(b, p + 14)
}

/// Uncompressed size declared by the local file header at `p`.
pub open spec fn local_uncompressed_size(b: Seq<u8>, p: int) -> int {
    le32(b, p + 22)
}

/// Where the raw payload of the local file header at `p` starts.
pub open spec fn local_data_start(b: Seq<u8>, p: int) -> int {
    p + 30 + le16(b, p + 26) + le16(b, p + 28)
}

/// Whether a well-formed local file header sits at `p`, its payload in
/// bounds.
pub open spec fn valid_local_at(b: Seq<u8>, p: int) -> bool {
    &&& 0 <= p
    &&& p + 30 <= b.len()
    &&& b[p] == 0x50u8
    &&& b[p + 1] == 0x4bu8
    &&& b[p + 2] == 0x03u8
    &&& b[p + 3] == 0x04u8
    &&& local_data_start(b, p) + le32(b, p + 18) <= b.len()
}

/// The raw payload of the local file header at `p`.
pub open spec fn local_payload(b: Seq<u8>, p: int) -> Seq<u8> {
    b.subrange(local_data_start(b, p), local_data_start(b, p) + le32(b, p + 18))
}

/// Materializes the local file header at `offset`: compression method,
/// CRC32, sizes, and the raw payload. Fails with `CorruptArchive` when the
/// header or its payload does not fit.
pub fn parse_local_file(b: &[u8], offset: u32) -> (r: Result<LocalFile, Error>)
    ensures
        match r {
            Ok(f) => {
                &&& valid_local_at(b@, offset as int)
                &&& f.method == local_method(b@, offset as int)
                &&& f.crc32 == local_crc32(b@, offset as int)
                &&& f.uncompressed_size == local_uncompressed_size(b@, offset as int)
                &&& f.payload@ == local_payload(b@, offset as int)
            },
            Err(err) => {
                &&& err == Error::CorruptArchive
                &&& !valid_local_at(b@, offset as int)
            },
        },
{
    let pos = offset as usize;
    if pos > b.len() || b.len() - pos < 30 {
        return Err(Error::CorruptArchive);
    }
    if !(b[pos] == 0x50u8 && b[pos + 1] == 0x4bu8 && b[pos + 2] == 0x03u8 && b[pos + 3] == 0x04u8) {
        return Err(Error::CorruptArchive);
    }
    let nlen = read_u16_at(b, pos + 26) as usize;
    let xlen = read_u16_at(b, pos + 28) as usize;
    let head: usize = 30 + nlen + xlen;
    if head > b.len() - pos {
        return Err(Error::CorruptArchive);
    }
    let csize = read_u32_at(b, pos + 18) as usize;
    if csize > b.len() - pos - head {
        return Err(Error::CorruptArchive);
    }
    let payload = slice_to_vec(slice_subrange(b, pos + head, pos + head + csize));
    proof {
        assert(payload@ =~= local_payload(b@, offset as int));
    }
    Ok(
        LocalFile {
            method: read_u16_at(b, pos + 8),
            crc32: read_u32_at(b, pos + 14),
            uncompressed_size: read_u32_at(b, pos + 22),
            payload,
        },
    )
}

} // verus!
