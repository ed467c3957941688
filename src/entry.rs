//! The 32-bit and 64-bit SMBIOS entry-point structures, decoded field by
//! field from little-endian bytes, with their validity checks.
use vstd::prelude::*;

verus! {

/// Value of two bytes read least significant first.
pub open spec fn le16(b: Seq<u8>, at: int) -> int {
    b[at] + 256 * b[at + 1]
}

/// Value of four bytes read least significant first.
pub open spec fn le32(b: Seq<u8>, at: int) -> int {
    le16(b, at) + 65536 * le16(b, at + 2)
}

/// Value of eight bytes read least significant first.
pub open spec fn le64(b: Seq<u8>, at: int) -> int {
    le32(b, at) + 4294967296 * le32(b, at + 4)
}

/// Reads a little-endian `u16` at `at`.
pub fn read_u16(b: &[u8], at: usize) -> (r: u16)
    requires
        at + 2 <= b@.len(),
    ensures
        r == le16(b@, at as int),
{
    (b[at] as u16) + (b[at + 1] as u16) * 256
}

/// Reads a little-endian `u32` at `at`.
pub fn read_u32(b: &[u8], at: usize) -> (r: u32)
    requires
        at + 4 <= b@.len(),
    ensures
        r == le32(b@, at as int),
{
    // the length of a slice fits in a usize, so `at + 4` does not overflow
    let _ = b.len();
    let lo = read_u16(b, at);
    let hi = read_u16(b, at + 2);
    (lo as u32) + (hi as u32) * 65536
}

/// Reads a little-endian `u64` at `at`.
pub fn read_u64(b: &[u8], at: usize) -> (r: u64)
    requires
        at + 8 <= b@.len(),
    ensures
        r == le64(b@, at as int),
{
    // the length of a slice fits in a usize, so `at + 8` does not overflow
    let _ = b.len();
    let lo = read_u32(b, at);
    let hi = read_u32(b, at + 4);
    (lo as u64) + (hi as u64) * 4294967296
}

/// Size in bytes of the 32-bit entry point.
pub const SMBIOS_SIZE: usize = 31;

/// Size in bytes of the 64-bit entry point.
pub const SMBIOS3_SIZE: usize = 24;

/// The 32-bit ("_SM_") entry point.
#[derive(Clone, Copy, Default, Debug)]
pub struct Smbios {
    pub anchor: [u8; 4],
    pub checksum: u8,
    pub length: u8,
    pub major_version: u8,
    pub minor_version: u8,
    pub max_structure_size: u16,
    pub revision: u8,
    pub formatted: [u8; 5],
    pub inter_anchor: [u8; 5],
    pub inter_checksum: u8,
    pub table_length: u16,
    pub table_address: u32,
    pub structure_count: u16,
    pub bcd_revision: u8,
}

/// The sum of the bytes that the 32-bit checksum covers: the anchor, the
/// checksum itself, the length, both version numbers, the low byte of the
/// maximum structure size, the revision and the formatted area.
pub open spec fn smbios_sum(s: Smbios) -> int {
    s.anchor@[0] + s.anchor@[1] + s.anchor@[2] + s.anchor@[3] + s.checksum + s.length
        + s.major_version + s.minor_version + (s.max_structure_size % 256) + s.revision
        + s.formatted@[0] + s.formatted@[1] + s.formatted@[2] + s.formatted@[3]
        + s.formatted@[4]
}

/// `s` is the entry point that the first `SMBIOS_SIZE` bytes of `b` hold.
pub open spec fn smbios_decodes(b: Seq<u8>, s: Smbios) -> bool {
    &&& b.len() >= SMBIOS_SIZE
    &&& s.anchor@ == b.subrange(0, 4)
    &&& s.checksum == b[4]
    &&& s.length == b[5]
    &&& s.major_version == b[6]
    &&& s.minor_version == b[7]
    &&& s.max_structure_size == le16(b, 8)
    &&& s.revision == b[10]
    &&& s.formatted@ == b.subrange(11, 16)
    &&& s.inter_anchor@ == b.subrange(16, 21)
    &&& s.inter_checksum == b[21]
    &&& s.table_length == le16(b, 22)
    &&& s.table_address == le32(b, 24)
    &&& s.structure_count == le16(b, 28)
    &&& s.bcd_revision == b[30]
}

impl Smbios {
    /// Decodes the entry point from the start of `b`; `None` when `b` is
    /// shorter than `SMBIOS_SIZE`.
    pub fn from_bytes(b: &[u8]) -> (r: Option<Smbios>)
        ensures
            b@.len() < SMBIOS_SIZE <==> r is None,
            r matches Some(s) ==> smbios_decodes(b@, s),
    {
        if b.len() < SMBIOS_SIZE {
            return None;
        }
        let s = Smbios {
            anchor: [b[0], b[1], b[2], b[3]],
            checksum: b[4],
            length: b[5],
            major_version: b[6],
            minor_version: b[7],
            max_structure_size: read_u16(b, 8),
            revision: b[10],
            formatted: [b[11], b[12], b[13], b[14], b[15]],
            inter_anchor: [b[16], b[17], b[18], b[19], b[20]],
            inter_checksum: b[21],
            table_length: read_u16(b, 22),
            table_address: read_u32(b, 24),
            structure_count: read_u16(b, 28),
            bcd_revision: b[30],
        };
        assert(s.anchor@ =~= b@.subrange(0, 4));
        assert(s.formatted@ =~= b@.subrange(11, 16));
        assert(s.inter_anchor@ =~= b@.subrange(16, 21));
        Some(s)
    }

    /// True when the bytes that the checksum covers sum to zero modulo 256.
    pub fn is_valid(&self) -> (r: bool)
        ensures
            r == (smbios_sum(*self) % 256 == 0),
    {
        let sum: u32 = self.anchor[0] as u32 + self.anchor[1] as u32 + self.anchor[2] as u32
            + self.anchor[3] as u32 + self.checksum as u32 + self.length as u32
            + self.major_version as u32 + self.minor_version as u32
            + (self.max_structure_size % 256) as u32 + self.revision as u32
            + self.formatted[0] as u32 + self.formatted[1] as u32 + self.formatted[2] as u32
            + self.formatted[3] as u32 + self.formatted[4] as u32;
        sum % 256 == 0
    }
}

/// Offsets of the bytes that the 32-bit checksum covers.
pub open spec fn smbios_counted(k: int) -> bool {
    0 <= k <= 8 || 10 <= k <= 15
}

/// The covered bytes of a 32-bit entry-point buffer, summed.
pub open spec fn smbios_byte_sum(b: Seq<u8>) -> int {
    b[0] + b[1] + b[2] + b[3] + b[4] + b[5] + b[6] + b[7] + b[8] + b[10] + b[11] + b[12] + b[13]
        + b[14] + b[15]
}

/// The covered sum of a decoded entry point is the sum of the covered bytes of
/// its buffer.
pub proof fn lemma_smbios_sum_of_bytes(b: Seq<u8>, s: Smbios)
    requires
        smbios_decodes(b, s),
    ensures
        smbios_sum(s) == smbios_byte_sum(b),
{
    let lo = b[8] as int;
    let hi = b[9] as int;
    assert((lo + 256 * hi) % 256 == lo) by (nonlinear_arith)
        requires
            0 <= lo < 256,
    ;
    assert(s.anchor@[0] == b[0] && s.anchor@[1] == b[1] && s.anchor@[2] == b[2]
        && s.anchor@[3] == b[3]);
    assert(s.formatted@[0] == b[11] && s.formatted@[1] == b[12] && s.formatted@[2] == b[13]
        && s.formatted@[3] == b[14] && s.formatted@[4] == b[15]);
}

/// A buffer whose covered bytes sum to zero modulo 256 decodes to a valid
/// entry point, and changing any single covered byte to another value makes
/// the entry point decoded from it invalid.
pub proof fn lemma_smbios_single_byte_change(b: Seq<u8>, k: int, v: u8, s: Smbios, t: Smbios)
    requires
        smbios_decodes(b, s),
        smbios_byte_sum(b) % 256 == 0,
        smbios_counted(k),
        v != b[k],
        smbios_decodes(b.update(k, v), t),
    ensures
        smbios_sum(s) % 256 == 0,
        smbios_sum(t) % 256 != 0,
{
    lemma_smbios_sum_of_bytes(b, s);
    lemma_smbios_sum_of_bytes(b.update(k, v), t);
    let c = b.update(k, v);
    assert(smbios_byte_sum(c) == smbios_byte_sum(b) - b[k] + v);
}

/// The anchor string "_SM3_" that opens a 64-bit entry point.
pub open spec fn smbios3_anchor() -> Seq<u8> {
    seq![95u8, 83u8, 77u8, 51u8, 95u8]
}

/// The 64-bit ("_SM3_") entry point.
#[derive(Clone, Copy, Default, Debug)]
pub struct Smbios3 {
    pub anchor: [u8; 5],
    pub checksum: u8,
    pub length: u8,
    pub major_version: u8,
    pub minor_version: u8,
    pub docrev: u8,
    pub revision: u8,
    pub reserved: u8,
    pub table_length: u32,
    pub table_address: u64,
}

/// `s` is the entry point that the first `SMBIOS3_SIZE` bytes of `b` hold.
pub open spec fn smbios3_decodes(b: Seq<u8>, s: Smbios3) -> bool {
    &&& b.len() >= SMBIOS3_SIZE
    &&& s.anchor@ == b.subrange(0, 5)
    &&& s.checksum == b[5]
    &&& s.length == b[6]
    &&& s.major_version == b[7]
    &&& s.minor_version == b[8]
    &&& s.docrev == b[9]
    &&& s.revision == b[10]
    &&& s.reserved == b[11]
    &&& s.table_length == le32(b, 12)
    &&& s.table_address == le64(b, 16)
}

impl Smbios3 {
    /// Decodes the entry point from the start of `b`; `None` when `b` is
    /// shorter than `SMBIOS3_SIZE`.
    pub fn from_bytes(b: &[u8]) -> (r: Option<Smbios3>)
        ensures
            b@.len() < SMBIOS3_SIZE <==> r is None,
            r matches Some(s) ==> smbios3_decodes(b@, s),
    {
        if b.len() < SMBIOS3_SIZE {
            return None;
        }
        let s = Smbios3 {
            anchor: [b[0], b[1], b[2], b[3], b[4]],
            checksum: b[5],
            length: b[6],
            major_version: b[7],
            minor_version: b[8],
            docrev: b[9],
            revision: b[10],
            reserved: b[11],
            table_length: read_u32(b, 12),
            table_address: read_u64(b, 16),
        };
        assert(s.anchor@ =~= b@.subrange(0, 5));
        Some(s)
    }

    /// True when the anchor reads "_SM3_". The checksum byte is not examined.
    pub fn is_valid(&self) -> (r: bool)
        ensures
            r == (self.anchor@ == smbios3_anchor()),
    {
        let r = self.anchor[0] == 95 && self.anchor[1] == 83 && self.anchor[2] == 77
            && self.anchor[3] == 51 && self.anchor[4] == 95;
        assert(r ==> self.anchor@ =~= smbios3_anchor());
        r
    }
}

/// Whether a 64-bit entry point is valid is decided by the first five bytes
/// of its buffer alone: it is valid exactly when they read "_SM3_", whatever
/// the other bytes hold.
pub proof fn lemma_smbios3_valid_by_anchor(b: Seq<u8>, s: Smbios3)
    requires
        smbios3_decodes(b, s),
    ensures
        (s.anchor@ == smbios3_anchor()) <==> b.subrange(0, 5) == smbios3_anchor(),
{
}

} // verus!
