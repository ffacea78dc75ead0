//! Partition table.
use thumos::block::{BlockDevice, BlockError, MemBlockDevice, SECTOR_SIZE};
use thumos::gpt::{crc32, find_partition, le32, le64, GptError};

#[test]
fn crc32_known_answer() {
    assert_eq!(crc32(b"123456789"), 0xCBF4_3926);
    assert_eq!(crc32(b""), 0);
}

fn gpt_device(entries: &[(&str, u64, u64)]) -> MemBlockDevice {
    let entry_size = 128usize;
    let entry_count = 128u32;
    let entries_bytes = entry_count as usize * entry_size;
    let total_sectors = 2 + entries_bytes / SECTOR_SIZE + 512;
    let mut dev = MemBlockDevice::new(total_sectors as u64).expect("device");

    let mut table = vec![0u8; entries_bytes];
    for (i, (name, first, last)) in entries.iter().enumerate() {
        let base = i * entry_size;
        table[base] = 0xAF;
        table[base + 32..base + 40].copy_from_slice(&first.to_le_bytes());
        table[base + 40..base + 48].copy_from_slice(&last.to_le_bytes());
        for (j, b) in name.bytes().enumerate() {
            table[base + 56 + j * 2] = b;
        }
    }
    let entries_crc = crc32(&table);
    dev.write_sectors(2, (entries_bytes / SECTOR_SIZE) as u32, &table)
        .expect("write entries");

    let mut header = [0u8; SECTOR_SIZE];
    header[..8].copy_from_slice(b"EFI PART");
    header[12..16].copy_from_slice(&92u32.to_le_bytes());
    header[72..80].copy_from_slice(&2u64.to_le_bytes());
    header[80..84].copy_from_slice(&entry_count.to_le_bytes());
    header[84..88].copy_from_slice(&(entry_size as u32).to_le_bytes());
    header[88..92].copy_from_slice(&entries_crc.to_le_bytes());
    let header_crc = crc32(&header[..92]);
    header[16..20].copy_from_slice(&header_crc.to_le_bytes());
    dev.write_sectors(1, 1, &header).expect("write header");
    dev
}

#[test]
fn finds_boot_partition_by_name() {
    let dev = gpt_device(&[("boot", 2048, 4095), ("userdata", 0x50C000, 0xB0BFDF)]);
    let boot = find_partition(&dev, "boot").expect("boot must be found");
    assert_eq!(boot.first_lba, 2048);
    assert_eq!(boot.last_lba, 4095);
    assert_eq!(boot.sectors(), 2048);
}

#[test]
fn missing_partition_is_not_found() {
    let dev = gpt_device(&[("boot", 2048, 4095)]);
    assert_eq!(find_partition(&dev, "vendor"), Err(GptError::NotFound));
}

#[test]
fn bad_signature_rejects() {
    let mut dev = gpt_device(&[("boot", 2048, 4095)]);
    let mut hdr = dev.read_sectors(1, 1).expect("read");
    hdr[0] = b'X';
    dev.write_sectors(1, 1, &hdr).expect("write");
    assert_eq!(find_partition(&dev, "boot"), Err(GptError::BadSignature));
}

#[test]
fn corrupt_header_crc_rejects() {
    let mut dev = gpt_device(&[("boot", 2048, 4095)]);
    let mut hdr = dev.read_sectors(1, 1).expect("read");
    hdr[76] ^= 0x01;
    dev.write_sectors(1, 1, &hdr).expect("write");
    assert_eq!(
        find_partition(&dev, "boot"),
        Err(GptError::HeaderCrcMismatch)
    );
}

#[test]
fn corrupt_entries_crc_rejects() {
    let mut dev = gpt_device(&[("boot", 2048, 4095)]);
    let mut entry = dev.read_sectors(2, 1).expect("read");
    entry[60] ^= 0x01;
    dev.write_sectors(2, 1, &entry).expect("write");
    assert_eq!(
        find_partition(&dev, "boot"),
        Err(GptError::EntriesCrcMismatch)
    );
}

#[test]
fn a_device_without_a_header_sector_cannot_be_read() {
    let dev = MemBlockDevice::new(1).expect("device");
    assert_eq!(find_partition(&dev, "boot"), Err(GptError::Io));
}

#[test]
fn implausible_headers_are_malformed() {
    for (at, bytes) in [
        (12usize, 91u32),
        (12, 513),
        (80, 0),
        (80, 129),
        (84, 64),
        (84, 132),
        (84, 1024),
    ] {
        let mut dev = gpt_device(&[("boot", 2048, 4095)]);
        let mut hdr = dev.read_sectors(1, 1).expect("read");
        hdr[at..at + 4].copy_from_slice(&bytes.to_le_bytes());
        hdr[16..20].copy_from_slice(&[0; 4]);
        let crc = crc32(&hdr[..92]);
        hdr[16..20].copy_from_slice(&crc.to_le_bytes());
        dev.write_sectors(1, 1, &hdr).expect("write");
        assert_eq!(
            find_partition(&dev, "boot"),
            Err(GptError::Malformed),
            "{at} {bytes}"
        );
    }
}

#[test]
fn names_are_compared_whole() {
    let dev = gpt_device(&[("boot2", 10, 20), ("boo", 30, 40), ("boot", 2048, 4095)]);
    let boot = find_partition(&dev, "boot").expect("found");
    assert_eq!((boot.first_lba, boot.last_lba), (2048, 4095));
}

#[test]
fn sectors_that_were_written_are_read_back() {
    let mut dev = MemBlockDevice::new(4).expect("device");
    let data = vec![7u8; 2 * SECTOR_SIZE];
    dev.write_sectors(1, 2, &data).expect("write");
    assert_eq!(dev.read_sectors(1, 2), Ok(data));
    assert_eq!(dev.read_sectors(0, 1), Ok(vec![0u8; SECTOR_SIZE]));
    assert_eq!(dev.read_sectors(3, 2), Err(BlockError::OutOfRange));
    assert_eq!(
        dev.write_sectors(0, 1, &[1, 2, 3]),
        Err(BlockError::BadLength)
    );
    assert_eq!(
        dev.write_sectors(4, 1, &[0; SECTOR_SIZE]),
        Err(BlockError::OutOfRange)
    );
}

#[test]
fn little_endian_numbers() {
    let bytes = [0x78, 0x56, 0x34, 0x12, 0xF0, 0xDE, 0xBC, 0x9A, 0xFF];
    assert_eq!(le32(&bytes, 0), 0x1234_5678);
    assert_eq!(le64(&bytes, 0), 0x9ABC_DEF0_1234_5678);
    assert_eq!(le32(&bytes, 5), 0xFF9A_BCDE);
}

#[test]
fn gpt_errors_have_texts() {
    assert_eq!(GptError::BadSignature.to_string(), "GPT signature missing");
    assert_eq!(GptError::NotFound.to_string(), "GPT partition not found");
}
