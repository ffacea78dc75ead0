//! What a partition table says, byte by byte.
use crate::block::{BlockDevice, BlockError};
use crate::gpt::{
    crc32_of, crc_bit, crc_bits, crc_register, entry_at, entry_named, header_of, is_used, le32_at,
    le64_at, name_field, partition_on, signature, unit_bytes, utf16, utf16_char, without_crc,
    GptError, GptHeader, PartitionInfo,
};
use vstd::prelude::*;

verus! {

/// The number in some bytes, the low byte first.
pub open spec fn number_at(d: Seq<u8>, off: int, n: nat) -> int
    decreases n,
{
    if n == 0 {
        0
    } else {
        d[off] + 256 * number_at(d, off + 1, (n - 1) as nat)
    }
}

/// Law: numbers of four and of eight bytes are read with the low byte first.
pub proof fn law_numbers_have_their_low_byte_first(d: Seq<u8>, off: int)
    ensures
        le32_at(d, off) == number_at(d, off, 4),
        le64_at(d, off) == number_at(d, off, 8),
        0 <= number_at(d, off, 4) <= u32::MAX,
        0 <= number_at(d, off, 8) <= u64::MAX,
{
    reveal_with_fuel(number_at, 9);
}

/// Whether a sector starts with the bytes of `EFI PART`.
pub open spec fn is_signed(s: Seq<u8>) -> bool {
    s[0] == 0x45 && s[1] == 0x46 && s[2] == 0x49 && s[3] == 0x20 && s[4] == 0x50 && s[5] == 0x41
        && s[6] == 0x52 && s[7] == 0x54
}

/// Whether what a header says of the entries is within the bounds: at most 128 entries of a
/// multiple of eight bytes from 128 to 512.
pub open spec fn fits_bounds(count: int, size: int) -> bool {
    0 < count <= 128 && 128 <= size <= 512 && size % 8 == 0
}

/// Law: a header is accepted where it has the signature, a size of its own from 92 to 512, the
/// checksum of its bytes with the checksum's own place zeroed, and entries within the bounds;
/// the entries are where it says, as many and as large as it says. Each fault has its error.
pub proof fn law_headers_are_checked(s: Seq<u8>)
    requires
        s.len() == 512,
    ensures
        ({
            let size = number_at(s, 12, 4);
            let sum = crc32_of(
                Seq::new(
                    size as nat,
                    |i: int|
                        if 16 <= i < 20 {
                            0u8
                        } else {
                            s[i]
                        },
                ),
            );
            let count = number_at(s, 80, 4);
            let each = number_at(s, 84, 4);
            &&& !is_signed(s) ==> header_of(s) == Err::<GptHeader, GptError>(GptError::BadSignature)
            &&& is_signed(s) && !(92 <= size <= 512) ==> header_of(s) == Err::<GptHeader, GptError>(
                GptError::Malformed,
            )
            &&& is_signed(s) && 92 <= size <= 512 && sum != number_at(s, 16, 4) ==> header_of(s)
                == Err::<GptHeader, GptError>(GptError::HeaderCrcMismatch)
            &&& is_signed(s) && 92 <= size <= 512 && sum == number_at(s, 16, 4) && !fits_bounds(
                count,
                each,
            ) ==> header_of(s) == Err::<GptHeader, GptError>(GptError::Malformed)
            &&& is_signed(s) && 92 <= size <= 512 && sum == number_at(s, 16, 4) && fits_bounds(
                count,
                each,
            ) && (count * each + 511) / 512 <= 32 ==> (header_of(s)
                matches Ok(h) && h.entries_lba == number_at(s, 72, 8) && h.entry_count == count
                && h.entry_size == each && h.entries_crc == number_at(s, 88, 4))
        }),
{
    law_numbers_have_their_low_byte_first(s, 12);
    law_numbers_have_their_low_byte_first(s, 16);
    law_numbers_have_their_low_byte_first(s, 72);
    law_numbers_have_their_low_byte_first(s, 80);
    law_numbers_have_their_low_byte_first(s, 84);
    law_numbers_have_their_low_byte_first(s, 88);
    let t = s.take(8);
    assert(signature().len() == 8);
    if is_signed(s) {
        assert(t =~= signature());
    } else if t == signature() {
        assert(t[0] == s[0] && t[1] == s[1] && t[2] == s[2] && t[3] == s[3] && t[4] == s[4] && t[5]
            == s[5] && t[6] == s[6] && t[7] == s[7]);
    }
    let size = le32_at(s, 12);
    if 92 <= size <= 512 {
        assert(without_crc(s).take(size) =~= Seq::new(
            size as nat,
            |i: int|
                if 16 <= i < 20 {
                    0u8
                } else {
                    s[i]
                },
        ));
    }
}

/// Whether an entry of a table is in use: some byte of its first sixteen is not zero.
pub open spec fn in_use(table: Seq<u8>, base: int) -> bool {
    exists|j: int| 0 <= j < 16 && #[trigger] table[base + j] != 0
}

/// Whether an entry of a table has a name field.
pub open spec fn is_named(table: Seq<u8>, base: int, field: Seq<u8>) -> bool {
    forall|j: int| 0 <= j < 72 ==> #[trigger] table[base + 56 + j] == field[j]
}

proof fn lemma_entry(table: Seq<u8>, size: int, i: int, count: int, field: Seq<u8>)
    requires
        128 <= size,
        0 <= i < count,
        count * size <= table.len(),
        field.len() == 72,
    ensures
        0 <= i * size,
        i * size + size <= table.len(),
        ({
            let e = entry_at(table, size, i);
            &&& is_used(e) == in_use(table, i * size)
            &&& (e.subrange(56, 128) == field) == is_named(table, i * size, field)
            &&& le64_at(e, 32) == number_at(table, i * size + 32, 8)
            &&& le64_at(e, 40) == number_at(table, i * size + 40, 8)
        }),
{
    assert(0 <= i * size && i * size + size <= count * size) by (nonlinear_arith)
        requires
            0 <= i < count,
            size >= 0,
    ;
    let base = i * size;
    let e = entry_at(table, size, i);
    assert forall|j: int| 0 <= j < size implies #[trigger] e[j] == table[base + j] by {}
    if is_used(e) {
        let j = choose|j: int| 0 <= j < 16 && #[trigger] e[j] != 0;
        assert(table[base + j] != 0);
    }
    if in_use(table, base) {
        let j = choose|j: int| 0 <= j < 16 && #[trigger] table[base + j] != 0;
        assert(e[j] != 0);
    }
    let f = e.subrange(56, 128);
    assert forall|j: int| 0 <= j < 72 implies #[trigger] f[j] == table[base + 56 + j] by {
        assert(e[56 + j] == table[base + (56 + j)]);
    }
    if is_named(table, base, field) {
        assert forall|j: int| 0 <= j < 72 implies f[j] == field[j] by {
            assert(table[base + 56 + j] == field[j]);
        }
        assert(f =~= field);
    }
    if f == field {
        assert forall|j: int| 0 <= j < 72 implies #[trigger] table[base + 56 + j] == field[j] by {
            assert(f[j] == table[base + 56 + j]);
        }
    }
    law_numbers_have_their_low_byte_first(e, 32);
    law_numbers_have_their_low_byte_first(e, 40);
    reveal_with_fuel(number_at, 9);
}

proof fn lemma_named(
    table: Seq<u8>,
    size: int,
    count: int,
    field: Seq<u8>,
    from: int,
    i: int,
)
    requires
        128 <= size,
        0 <= from <= i <= count,
        count * size <= table.len(),
        field.len() == 72,
        forall|j: int|
            from <= j < i ==> !(in_use(table, #[trigger] (j * size)) && is_named(
                table,
                j * size,
                field,
            )),
        i < count ==> in_use(table, i * size) && is_named(table, i * size, field),
    ensures
        i == count ==> entry_named(table, size, count, field, from) == Err::<PartitionInfo, GptError>(
            GptError::NotFound,
        ),
        i < count ==> (entry_named(table, size, count, field, from) matches Ok(p) && p.first_lba
            == number_at(table, i * size + 32, 8) && p.last_lba == number_at(
            table,
            i * size + 40,
            8,
        )),
    decreases i - from,
{
    if from < count {
        lemma_entry(table, size, from, count, field);
        if from < i {
            assert(!(in_use(table, from * size) && is_named(table, from * size, field)));
            lemma_named(table, size, count, field, from + 1, i);
        } else {
            let e = entry_at(table, size, from);
            law_numbers_have_their_low_byte_first(e, 32);
            law_numbers_have_their_low_byte_first(e, 40);
        }
    }
}

/// Law: on a device whose first sector behind the boot record is a good header, and whose table
/// has the checksum that the header says, the partition of a name is the first entry in use
/// with that name, and reaches from the sector at 32 to the one at 40 of that entry; without
/// one it is not found. Nothing is taken from a table with another checksum.
pub proof fn law_partitions_are_found_by_name<D: BlockDevice>(
    dev: &D,
    header: Seq<u8>,
    h: GptHeader,
    table: Seq<u8>,
    name: Seq<char>,
    field: Seq<u8>,
    i: int,
)
    requires
        dev.sectors_at(1, 1) == Ok::<Seq<u8>, BlockError>(header),
        header_of(header) == Ok::<GptHeader, GptError>(h),
        dev.sectors_at(
            h.entries_lba,
            ((h.entry_count * h.entry_size + 511) / 512) as u32,
        ) == Ok::<Seq<u8>, BlockError>(table),
        h.entry_count * h.entry_size <= table.len(),
        name_field(name) == Some(field),
        0 <= i <= h.entry_count,
        forall|j: int|
            0 <= j < i ==> !(in_use(table, #[trigger] (j * (h.entry_size as int))) && is_named(
                table,
                j * (h.entry_size as int),
                field,
            )),
        i < h.entry_count ==> in_use(table, i * (h.entry_size as int)) && is_named(
            table,
            i * (h.entry_size as int),
            field,
        ),
    ensures
        ({
            let sum = crc32_of(table.take(h.entry_count * h.entry_size));
            let found = partition_on(dev, name);
            &&& sum != h.entries_crc ==> found == Err::<PartitionInfo, GptError>(
                GptError::EntriesCrcMismatch,
            )
            &&& sum == h.entries_crc && i == h.entry_count ==> found == Err::<
                PartitionInfo,
                GptError,
            >(GptError::NotFound)
            &&& sum == h.entries_crc && i < h.entry_count ==> (found matches Ok(p) && p.first_lba
                == number_at(table, i * (h.entry_size as int) + 32, 8) && p.last_lba == number_at(
                table,
                i * (h.entry_size as int) + 40,
                8,
            ))
        }),
{
    assert(h.wf());
    lemma_named(table, h.entry_size as int, h.entry_count as int, field, 0, i);
}

/// Law: a device that cannot be read gives no partition.
pub proof fn law_unreadable_devices_have_no_partitions<D: BlockDevice>(dev: &D, name: Seq<char>)
    requires
        dev.sectors_at(1, 1) is Err,
    ensures
        partition_on(dev, name) == Err::<PartitionInfo, GptError>(GptError::Io),
{
}

proof fn lemma_utf16_plain(name: Seq<char>)
    requires
        forall|i: int| 0 <= i < name.len() ==> (#[trigger] name[i]) as u32 <= 0xFFFF,
    ensures
        utf16(name).len() == 2 * name.len(),
        forall|i: int|
            0 <= i < name.len() ==> utf16(name)[2 * i] + 256 * utf16(name)[2 * i + 1]
                == (#[trigger] name[i]) as u32,
    decreases name.len(),
{
    if name.len() > 0 {
        let front = name.drop_last();
        assert forall|i: int| 0 <= i < front.len() implies (#[trigger] front[i]) as u32
            <= 0xFFFF by {
            assert(front[i] == name[i]);
        }
        lemma_utf16_plain(front);
        let c = name.last();
        assert(name[name.len() - 1] as u32 <= 0xFFFF);
        let u = utf16_char(c);
        assert(u == unit_bytes(c as u32 as int));
        assert(u[0] + 256 * u[1] == c as u32);
        assert forall|i: int| 0 <= i < name.len() implies utf16(name)[2 * i] + 256 * utf16(name)[2
            * i + 1] == (#[trigger] name[i]) as u32 by {
            if i < front.len() {
                assert(front[i] == name[i]);
            }
        }
    }
}

/// Law: a name field holds each character in two bytes, the low byte first, and zeros behind
/// the last; a name of more than thirty-six characters has none.
pub proof fn law_names_are_written_in_pairs(name: Seq<char>, i: int)
    requires
        forall|k: int| 0 <= k < name.len() ==> (#[trigger] name[k]) as u32 <= 0xFFFF,
        0 <= i < 36,
    ensures
        name_field(name) is Some <==> name.len() <= 36,
        name_field(name) matches Some(f) ==> f.len() == 72 && f[2 * i] + 256 * f[2 * i + 1] == (
        if i < name.len() {
            name[i] as u32 as int
        } else {
            0
        }),
{
    lemma_utf16_plain(name);
}

// ---------------------------------------------------------------------------
// Checksums
// ---------------------------------------------------------------------------

/// Whether a word has a bit.
pub open spec fn bit(x: u32, i: u32) -> bool {
    (x >> i) & 1 == 1
}

/// Whether a power below the thirty-second is a term of the polynomial of IEEE 802.3.
pub open spec fn is_term(power: int) -> bool {
    power == 0 || power == 1 || power == 2 || power == 4 || power == 5 || power == 7 || power == 8
        || power == 10 || power == 11 || power == 12 || power == 16 || power == 22 || power == 23
        || power == 26
}

/// Law: a step of the checksum divides by the polynomial of IEEE 802.3 with the highest power
/// in the lowest bit: every bit moves down, and where one falls out at the low end each term of
/// the polynomial is added.
pub proof fn law_checksum_steps_divide_by_the_polynomial(crc: u32, i: u32)
    requires
        i < 32,
    ensures
        bit(crc_bit(crc), i) == ((i < 31 && bit(crc, (i + 1) as u32)) != (bit(crc, 0) && is_term(
            31 - i,
        ))),
{
    let j = (i + 1) as u32;
    assert(crc >> 0u32 == crc) by (bit_vector);
    assert(((crc >> 1) >> i) & 1 == 1 <==> (j < 32 && (crc >> j) & 1 == 1)) by (bit_vector)
        requires
            i < 32,
            j == i + 1,
    ;
    assert((((crc >> 1) ^ 0xEDB8_8320u32) >> i) & 1 == 1 <==> ((((crc >> 1) >> i) & 1 == 1) != ((
    0xEDB8_8320u32 >> i) & 1 == 1))) by (bit_vector)
        requires
            i < 32,
    ;
    assert((0xEDB8_8320u32 >> i) & 1 == 1 <==> (i == 31 || i == 30 || i == 29 || i == 27 || i == 26
        || i == 24 || i == 23 || i == 21 || i == 20 || i == 19 || i == 15 || i == 9 || i == 8 || i
        == 5)) by (bit_vector)
        requires
            i < 32,
    ;
}

/// Law: a checksum starts from all ones, takes each byte in by eight steps, the low bit first,
/// and is told inverted.
pub proof fn law_checksums_take_bytes_in_by_eight_steps(data: Seq<u8>, b: u8)
    ensures
        crc32_of(Seq::empty()) == 0,
        ({
            let c = !crc32_of(data) ^ (b as u32);
            !crc32_of(data.push(b)) == crc_bit(
                crc_bit(crc_bit(crc_bit(crc_bit(crc_bit(crc_bit(crc_bit(c))))))),
            )
        }),
{
    assert(data.push(b).drop_last() =~= data);
    reveal_with_fuel(crc_bits, 9);
    let a = crc_register(data);
    let z = crc_register(data.push(b));
    assert(!(!a) == a) by (bit_vector);
    assert(!(!z) == z) by (bit_vector);
    assert(!0xFFFF_FFFFu32 == 0) by (bit_vector);
}

// ---------------------------------------------------------------------------
// Names
// ---------------------------------------------------------------------------

/// Law: a character beyond sixteen bits is written as a pair of surrogates that give it back.
pub proof fn law_large_characters_are_written_as_pairs(c: char)
    requires
        c as u32 >= 0x1_0000,
    ensures
        ({
            let f = utf16_char(c);
            let high = f[0] + 256 * f[1];
            let low = f[2] + 256 * f[3];
            &&& f.len() == 4
            &&& 0xD800 <= high < 0xDC00
            &&& 0xDC00 <= low < 0xE000
            &&& (high - 0xD800) * 1024 + (low - 0xDC00) + 0x1_0000 == c as u32
        }),
{
    let n = c as u32;
    assert(n <= 0x10_FFFF);
    assert(0 <= (n - 0x1_0000) / 0x400 < 0x400);
}

} // verus!
