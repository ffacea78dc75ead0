//! GPT (GUID Partition Table) reader: locates a partition by name.
//!
//! Signature, header checksum and entries checksum are validated before an
//! entry is looked at, so a corrupt table is an error and never a wrong
//! location.
use crate::block::{BlockDevice, BlockError, SECTOR_SIZE};
use crate::text::{byte_range, copy_bytes, same_bytes};
use vstd::prelude::*;

verus! {

broadcast use vstd::string::group_string_axioms;

/// GPT errors.
#[derive(Debug, Clone, Copy, PartialEq, Eq, Structural)]
pub enum GptError {
    /// The GPT signature "EFI PART" is missing.
    BadSignature,
    /// The header CRC32 does not match.
    HeaderCrcMismatch,
    /// The partition-entries CRC32 does not match.
    EntriesCrcMismatch,
    /// A structural field is outside sane bounds (entry size, count).
    Malformed,
    /// No entry with the requested name.
    NotFound,
    /// A block read failed.
    Io,
}

impl GptError {
    /// What the error is called in diagnostics.
    pub open spec fn message(self) -> Seq<char> {
        match self {
            GptError::BadSignature => "GPT signature missing"@,
            GptError::HeaderCrcMismatch => "GPT header CRC mismatch"@,
            GptError::EntriesCrcMismatch => "GPT entries CRC mismatch"@,
            GptError::Malformed => "GPT malformed structure"@,
            GptError::NotFound => "GPT partition not found"@,
            GptError::Io => "GPT block I/O error"@,
        }
    }

    /// The diagnostic text of the error.
    pub fn to_string(&self) -> (r: String)
        ensures
            r@ == self.message(),
    {
        match self {
            GptError::BadSignature => "GPT signature missing".to_owned(),
            GptError::HeaderCrcMismatch => "GPT header CRC mismatch".to_owned(),
            GptError::EntriesCrcMismatch => "GPT entries CRC mismatch".to_owned(),
            GptError::Malformed => "GPT malformed structure".to_owned(),
            GptError::NotFound => "GPT partition not found".to_owned(),
            GptError::Io => "GPT block I/O error".to_owned(),
        }
    }
}

impl From<BlockError> for GptError {
    fn from(e: BlockError) -> Self {
        GptError::Io
    }
}

impl vstd::std_specs::convert::FromSpecImpl<BlockError> for GptError {
    open spec fn obeys_from_spec() -> bool {
        true
    }

    open spec fn from_spec(e: BlockError) -> Self {
        GptError::Io
    }
}

/// A located partition.
#[derive(Debug, Clone, Copy, PartialEq, Eq, Structural)]
pub struct PartitionInfo {
    /// First LBA of the partition.
    pub first_lba: u64,
    /// Last LBA (inclusive).
    pub last_lba: u64,
}

impl PartitionInfo {
    /// Partition length in sectors.
    pub fn sectors(&self) -> (r: u64)
        requires
            self.first_lba <= self.last_lba,
            self.last_lba - self.first_lba < u64::MAX,
        ensures
            r == self.last_lba - self.first_lba + 1,
    {
        self.last_lba - self.first_lba + 1
    }
}

// ---------------------------------------------------------------------------
// Checksum
// ---------------------------------------------------------------------------

/// One step of the CRC32 division (IEEE 802.3, reflected).
pub open spec fn crc_bit(crc: u32) -> u32 {
    if crc & 1 == 1 {
        (crc >> 1) ^ 0xEDB8_8320u32
    } else {
        crc >> 1
    }
}

/// Several steps of the CRC32 division.
pub open spec fn crc_bits(crc: u32, n: nat) -> u32
    decreases n,
{
    if n == 0 {
        crc
    } else {
        crc_bit(crc_bits(crc, (n - 1) as nat))
    }
}

/// The CRC32 register after some bytes.
pub open spec fn crc_register(data: Seq<u8>) -> u32
    decreases data.len(),
{
    if data.len() == 0 {
        0xFFFF_FFFFu32
    } else {
        crc_bits(crc_register(data.drop_last()) ^ (data.last() as u32), 8)
    }
}

/// The CRC32 of some bytes.
pub open spec fn crc32_of(data: Seq<u8>) -> u32 {
    !crc_register(data)
}

/// CRC32 (IEEE 802.3, reflected, polynomial 0xEDB88320), tableless.
pub fn crc32(data: &[u8]) -> (r: u32)
    ensures
        r == crc32_of(data@),
{
    let mut crc: u32 = 0xFFFF_FFFF;
    let mut i: usize = 0;
    assert(data@.take(0) =~= Seq::empty());
    while i < data.len()
        invariant
            i <= data@.len(),
            crc == crc_register(data@.take(i as int)),
        decreases data@.len() - i,
    {
        assert(data@.take(i + 1).drop_last() =~= data@.take(i as int));
        crc = crc ^ (data[i] as u32);
        let ghost start = crc;
        let mut k: usize = 0;
        while k < 8
            invariant
                k <= 8,
                crc == crc_bits(start, k as nat),
            decreases 8 - k,
        {
            if crc & 1 == 1 {
                crc = (crc >> 1) ^ 0xEDB8_8320u32;
            } else {
                crc = crc >> 1;
            }
            k += 1;
        }
        i += 1;
    }
    assert(data@.take(data@.len() as int) =~= data@);
    !crc
}

// ---------------------------------------------------------------------------
// The header
// ---------------------------------------------------------------------------

/// Maximum partition entries examined.
pub const MAX_ENTRIES: u32 = 128;

/// Maximum sectors of the entries table.
pub const MAX_TABLE_SECTORS: u32 = 32;

/// The number in four bytes, the low byte first.
pub open spec fn le32_at(d: Seq<u8>, off: int) -> int {
    d[off] + 0x100 * d[off + 1] + 0x1_0000 * d[off + 2] + 0x100_0000 * d[off + 3]
}

/// The number in eight bytes, the low byte first.
pub open spec fn le64_at(d: Seq<u8>, off: int) -> int {
    le32_at(d, off) + 0x1_0000_0000 * le32_at(d, off + 4)
}

/// Reads a little-endian number of four bytes.
pub fn le32(buf: &[u8], off: usize) -> (r: u32)
    requires
        off + 4 <= buf@.len(),
    ensures
        r == le32_at(buf@, off as int),
{
    buf[off] as u32 + 0x100 * buf[off + 1] as u32 + 0x1_0000 * buf[off + 2] as u32 + 0x100_0000
        * buf[off + 3] as u32
}

/// Reads a little-endian number of eight bytes.
pub fn le64(buf: &[u8], off: usize) -> (r: u64)
    requires
        off + 8 <= buf@.len(),
    ensures
        r == le64_at(buf@, off as int),
{
    assert(buf@.len() == buf.len());
    le32(buf, off) as u64 + 0x1_0000_0000 * le32(buf, off + 4) as u64
}

/// The bytes of `EFI PART`.
pub open spec fn signature() -> Seq<u8> {
    seq![0x45u8, 0x46u8, 0x49u8, 0x20u8, 0x50u8, 0x41u8, 0x52u8, 0x54u8]
}

/// What a valid header says of the partition entries.
#[derive(Debug, Clone, Copy, PartialEq, Eq, Structural)]
pub struct GptHeader {
    /// First LBA of the entries table.
    pub entries_lba: u64,
    /// Number of entries.
    pub entry_count: u32,
    /// Bytes per entry.
    pub entry_size: u32,
    /// CRC32 of the entries table.
    pub entries_crc: u32,
}

impl GptHeader {
    /// Bytes of the entries table.
    pub open spec fn table_bytes(self) -> int {
        self.entry_count * self.entry_size
    }

    /// Sectors of the entries table.
    pub open spec fn table_sectors(self) -> int {
        (self.table_bytes() + SECTOR_SIZE - 1) / SECTOR_SIZE as int
    }

    /// Entry count, entry size and table size are within their bounds.
    pub open spec fn wf(self) -> bool {
        &&& 0 < self.entry_count <= MAX_ENTRIES
        &&& 128 <= self.entry_size <= SECTOR_SIZE
        &&& self.entry_size % 8 == 0
        &&& self.table_sectors() <= MAX_TABLE_SECTORS
    }
}

/// A header sector with its checksum field zeroed.
pub open spec fn without_crc(header: Seq<u8>) -> Seq<u8> {
    header.update(16, 0).update(17, 0).update(18, 0).update(19, 0)
}

/// What a header sector says, once its signature, its own size, its checksum and
/// its bounds have been found good in this order.
pub open spec fn header_of(header: Seq<u8>) -> Result<GptHeader, GptError> {
    let size = le32_at(header, 12);
    let h = GptHeader {
        entries_lba: le64_at(header, 72) as u64,
        entry_count: le32_at(header, 80) as u32,
        entry_size: le32_at(header, 84) as u32,
        entries_crc: le32_at(header, 88) as u32,
    };
    if header.take(8) != signature() {
        Err(GptError::BadSignature)
    } else if size < 92 || size > SECTOR_SIZE {
        Err(GptError::Malformed)
    } else if crc32_of(without_crc(header).take(size)) != le32_at(header, 16) {
        Err(GptError::HeaderCrcMismatch)
    } else if !h.wf() {
        Err(GptError::Malformed)
    } else {
        Ok(h)
    }
}

/// Validate a header sector.
pub fn read_header(header: &[u8]) -> (r: Result<GptHeader, GptError>)
    requires
        header@.len() == SECTOR_SIZE,
    ensures
        r == header_of(header@),
{
    let sig: [u8; 8] = [0x45, 0x46, 0x49, 0x20, 0x50, 0x41, 0x52, 0x54];
    assert(sig@ =~= signature());
    let start = byte_range(header, 0, 8);
    assert(start@ =~= header@.take(8));
    if !same_bytes(start, sig.as_slice()) {
        return Err(GptError::BadSignature);
    }
    let size: usize = le32(header, 12) as usize;
    if size < 92 || size > SECTOR_SIZE {
        return Err(GptError::Malformed);
    }
    let mut zeroed = copy_bytes(header);
    zeroed[16] = 0;
    zeroed[17] = 0;
    zeroed[18] = 0;
    zeroed[19] = 0;
    assert(zeroed@ =~= without_crc(header@));
    let covered = byte_range(zeroed.as_slice(), 0, size);
    assert(covered@ =~= without_crc(header@).take(size as int));
    if crc32(covered) != le32(header, 16) {
        return Err(GptError::HeaderCrcMismatch);
    }
    let h = GptHeader {
        entries_lba: le64(header, 72),
        entry_count: le32(header, 80),
        entry_size: le32(header, 84),
        entries_crc: le32(header, 88),
    };
    if h.entry_count == 0 || h.entry_count > MAX_ENTRIES {
        return Err(GptError::Malformed);
    }
    if h.entry_size < 128 || h.entry_size > 512 || h.entry_size % 8 != 0 {
        return Err(GptError::Malformed);
    }
    proof {
        assert(h.entry_count * h.entry_size <= 128 * 512) by (nonlinear_arith)
            requires
                h.entry_count <= 128,
                h.entry_size <= 512,
        ;
    }
    let bytes: u32 = h.entry_count * h.entry_size;
    if (bytes + 511) / 512 > MAX_TABLE_SECTORS {
        return Err(GptError::Malformed);
    }
    Ok(h)
}

// ---------------------------------------------------------------------------
// The entries
// ---------------------------------------------------------------------------

/// A character in UTF-16LE.
pub open spec fn utf16_char(c: char) -> Seq<u8> {
    let n = c as u32;
    if n < 0x1_0000 {
        unit_bytes(n as int)
    } else {
        unit_bytes(0xD800 + (n - 0x1_0000) / 0x400) + unit_bytes(0xDC00 + (n - 0x1_0000) % 0x400)
    }
}

/// A UTF-16 code unit, the low byte first.
pub open spec fn unit_bytes(u: int) -> Seq<u8> {
    seq![(u % 0x100) as u8, (u / 0x100) as u8]
}

/// A text in UTF-16LE.
pub open spec fn utf16(s: Seq<char>) -> Seq<u8>
    decreases s.len(),
{
    if s.len() == 0 {
        Seq::empty()
    } else {
        utf16(s.drop_last()) + utf16_char(s.last())
    }
}

/// The name field of an entry with a name: UTF-16LE, padded with zeros to 72
/// bytes.
pub open spec fn name_field(name: Seq<char>) -> Option<Seq<u8>> {
    let t = utf16(name);
    if t.len() > 72 {
        None
    } else {
        Some(Seq::new(72, |i: int| if i < t.len() { t[i] } else { 0u8 }))
    }
}

/// An entry of the table.
pub open spec fn entry_at(table: Seq<u8>, size: int, i: int) -> Seq<u8> {
    table.subrange(i * size, i * size + size)
}

/// Whether an entry is in use: its type is not all zeros.
pub open spec fn is_used(entry: Seq<u8>) -> bool {
    exists|j: int| 0 <= j < 16 && #[trigger] entry[j] != 0
}

/// The first used entry from `i` on whose name field is the given one.
pub open spec fn entry_named(
    table: Seq<u8>,
    size: int,
    count: int,
    field: Seq<u8>,
    i: int,
) -> Result<PartitionInfo, GptError>
    decreases count - i,
{
    if i >= count {
        Err(GptError::NotFound)
    } else {
        let entry = entry_at(table, size, i);
        if is_used(entry) && entry.subrange(56, 128) == field {
            Ok(
                PartitionInfo {
                    first_lba: le64_at(entry, 32) as u64,
                    last_lba: le64_at(entry, 40) as u64,
                },
            )
        } else {
            entry_named(table, size, count, field, i + 1)
        }
    }
}

/// The partition with a name in an entries table, once the checksum of the table
/// has been found good.
pub open spec fn partition_in(h: GptHeader, table: Seq<u8>, name: Seq<char>) -> Result<
    PartitionInfo,
    GptError,
> {
    if crc32_of(table.take(h.table_bytes())) != h.entries_crc {
        Err(GptError::EntriesCrcMismatch)
    } else {
        match name_field(name) {
            None => Err(GptError::NotFound),
            Some(field) => entry_named(
                table,
                h.entry_size as int,
                h.entry_count as int,
                field,
                0,
            ),
        }
    }
}

/// Appends a UTF-16 code unit, the low byte first.
fn push_unit(out: &mut Vec<u8>, u: u32)
    requires
        u < 0x1_0000,
    ensures
        final(out)@ == old(out)@ + unit_bytes(u as int),
{
    out.push((u % 0x100) as u8);
    out.push((u / 0x100) as u8);
    assert(out@ =~= old(out)@ + unit_bytes(u as int));
}

/// A text in UTF-16LE.
fn to_utf16(s: &str) -> (v: Vec<u8>)
    ensures
        v@ == utf16(s@),
{
    let mut v: Vec<u8> = Vec::new();
    assert(s@.take(0) =~= Seq::empty());
    for c in it: s.chars()
        invariant
            it.seq() == s@,
            v@ == utf16(s@.take(it.index() as int)),
    {
        proof {
            let i = it.index() as int;
            assert(s@.take(i + 1).drop_last() =~= s@.take(i));
            assert(s@.take(i + 1).last() == c);
            vstd::utf8::char_is_scalar(c);
        }
        let ghost before = v@;
        let n: u32 = c as u32;
        if n < 0x1_0000 {
            push_unit(&mut v, n);
        } else {
            let high: u32 = (n - 0x1_0000) / 0x400;
            push_unit(&mut v, 0xD800 + high);
            push_unit(&mut v, 0xDC00 + (n - 0x1_0000) % 0x400);
        }
        assert(v@ =~= before + utf16_char(c));
    }
    assert(s@.take(s@.len() as int) =~= s@);
    v
}

/// Whether an entry is in use.
fn used(entry: &[u8]) -> (r: bool)
    requires
        entry@.len() >= 16,
    ensures
        r == is_used(entry@),
{
    let mut j: usize = 0;
    while j < 16
        invariant
            j <= 16,
            entry@.len() >= 16,
            forall|k: int| 0 <= k < j ==> #[trigger] entry@[k] == 0,
        decreases 16 - j,
    {
        if entry[j] != 0 {
            return true;
        }
        j += 1;
    }
    false
}

/// Find the partition with a name in an entries table.
pub fn find_in_table(h: &GptHeader, table: &[u8], name: &str) -> (r: Result<PartitionInfo, GptError>)
    requires
        h.wf(),
        h.table_bytes() <= table@.len(),
    ensures
        r == partition_in(*h, table@, name@),
{
    proof {
        assert(h.entry_count * h.entry_size <= 128 * 512) by (nonlinear_arith)
            requires
                h.entry_count <= 128,
                h.entry_size <= 512,
        ;
    }
    let bytes: usize = (h.entry_count * h.entry_size) as usize;
    let covered = byte_range(table, 0, bytes);
    assert(covered@ =~= table@.take(h.table_bytes()));
    if crc32(covered) != h.entries_crc {
        return Err(GptError::EntriesCrcMismatch);
    }
    let mut field = to_utf16(name);
    if field.len() > 72 {
        return Err(GptError::NotFound);
    }
    field.resize(72, 0);
    assert(field@ =~= name_field(name@)->0);
    let size: usize = h.entry_size as usize;
    let count: usize = h.entry_count as usize;
    let mut i: usize = 0;
    while i < count
        invariant
            i <= count,
            count == h.entry_count,
            size == h.entry_size,
            h.wf(),
            count * size <= table@.len(),
            field@.len() == 72,
            partition_in(*h, table@, name@) == entry_named(
                table@,
                size as int,
                count as int,
                field@,
                0,
            ),
            entry_named(table@, size as int, count as int, field@, 0) == entry_named(
                table@,
                size as int,
                count as int,
                field@,
                i as int,
            ),
        decreases count - i,
    {
        proof {
            assert(i * size + size <= count * size && i * size >= 0) by (nonlinear_arith)
                requires
                    i < count,
                    size >= 0,
            ;
            assert(table@.len() == table.len());
        }
        let base: usize = i * size;
        let entry = byte_range(table, base, base + size);
        assert(entry@ == entry_at(table@, size as int, i as int));
        if used(entry) && same_bytes(byte_range(entry, 56, 128), field.as_slice()) {
            return Ok(PartitionInfo { first_lba: le64(entry, 32), last_lba: le64(entry, 40) });
        }
        i += 1;
    }
    Err(GptError::NotFound)
}

/// The partition with a name on a device.
pub open spec fn partition_on<D: BlockDevice>(dev: &D, name: Seq<char>) -> Result<
    PartitionInfo,
    GptError,
> {
    match dev.sectors_at(1, 1) {
        Err(_) => Err(GptError::Io),
        Ok(header) => match header_of(header) {
            Err(e) => Err(e),
            Ok(h) => match dev.sectors_at(h.entries_lba, h.table_sectors() as u32) {
                Err(_) => Err(GptError::Io),
                Ok(table) => partition_in(h, table, name),
            },
        },
    }
}

/// Locate a partition by its GPT entry name: the header stands in sector 1 and
/// says where the entries are.
pub fn find_partition<D: BlockDevice>(dev: &D, name: &str) -> (r: Result<PartitionInfo, GptError>)
    ensures
        r == partition_on(dev, name@),
{
    let header = match dev.read_sectors(1, 1) {
        Ok(s) => s,
        Err(e) => {
            return Err(GptError::from(e));
        },
    };
    let h = match read_header(header.as_slice()) {
        Ok(h) => h,
        Err(e) => {
            return Err(e);
        },
    };
    proof {
        assert(h.entry_count * h.entry_size <= 128 * 512) by (nonlinear_arith)
            requires
                h.entry_count <= 128,
                h.entry_size <= 512,
        ;
    }
    let sectors: u32 = (h.entry_count * h.entry_size + 511) / 512;
    let table = match dev.read_sectors(h.entries_lba, sectors) {
        Ok(s) => s,
        Err(e) => {
            return Err(GptError::from(e));
        },
    };
    find_in_table(&h, table.as_slice(), name)
}

// ---------------------------------------------------------------------------
// Laws
// ---------------------------------------------------------------------------

proof fn lemma_crc_bit_injective(a: u32, b: u32)
    by (bit_vector)
    requires
        crc_bit(a) == crc_bit(b),
    ensures
        a == b,
{
}

proof fn lemma_crc_bits_injective(a: u32, b: u32, n: nat)
    requires
        crc_bits(a, n) == crc_bits(b, n),
    ensures
        a == b,
    decreases n,
{
    if n > 0 {
        lemma_crc_bit_injective(crc_bits(a, (n - 1) as nat), crc_bits(b, (n - 1) as nat));
        lemma_crc_bits_injective(a, b, (n - 1) as nat);
    }
}

proof fn lemma_xor_injective(s: u32, t: u32, x: u32, y: u32)
    by (bit_vector)
    ensures
        s ^ x == t ^ x ==> s == t,
        s ^ x == s ^ y ==> x == y,
{
}

proof fn lemma_not_injective(x: u32, y: u32)
    by (bit_vector)
    requires
        !x == !y,
    ensures
        x == y,
{
}

proof fn lemma_register_differs(data: Seq<u8>, i: int, b: u8)
    requires
        0 <= i < data.len(),
        b != data[i],
    ensures
        crc_register(data) != crc_register(data.update(i, b)),
    decreases data.len(),
{
    let other = data.update(i, b);
    let s = crc_register(data.drop_last());
    let t = crc_register(other.drop_last());
    let x = data.last() as u32;
    let y = other.last() as u32;
    lemma_xor_injective(s, t, x, y);
    if i == data.len() - 1 {
        assert(other.drop_last() =~= data.drop_last());
        if crc_register(data) == crc_register(other) {
            lemma_crc_bits_injective(s ^ x, t ^ y, 8);
        }
    } else {
        assert(other.drop_last() =~= data.drop_last().update(i, b));
        lemma_register_differs(data.drop_last(), i, b);
        if crc_register(data) == crc_register(other) {
            lemma_crc_bits_injective(s ^ x, t ^ y, 8);
        }
    }
}

/// Law: the checksum tells apart data that differ in one byte, whatever the byte
/// and whatever its new value.
pub proof fn law_checksum_detects_a_changed_byte(data: Seq<u8>, i: int, b: u8)
    requires
        0 <= i < data.len(),
        b != data[i],
    ensures
        crc32_of(data) != crc32_of(data.update(i, b)),
{
    lemma_register_differs(data, i, b);
    let x = crc_register(data);
    let y = crc_register(data.update(i, b));
    if !x == !y {
        lemma_not_injective(x, y);
    }
}

/// Law: a table with one byte changed is never searched: where the checksum of
/// the table was good, the changed table is refused.
pub proof fn law_changed_table_is_refused(h: GptHeader, table: Seq<u8>, i: int, b: u8, name: Seq<char>)
    requires
        crc32_of(table.take(h.table_bytes())) == h.entries_crc,
        0 <= i < h.table_bytes() <= table.len(),
        b != table[i],
    ensures
        partition_in(h, table.update(i, b), name) == Err::<PartitionInfo, GptError>(
            GptError::EntriesCrcMismatch,
        ),
{
    let covered = table.take(h.table_bytes());
    law_checksum_detects_a_changed_byte(covered, i, b);
    assert(table.update(i, b).take(h.table_bytes()) =~= covered.update(i, b));
}

} // verus!
