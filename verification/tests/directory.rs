use sqlsync::directory::{SerializedPagesReader, RECORD_SIZE};
use sqlsync::endian::{decode_u64, encode_u64};
use sqlsync::page::{Page, SparsePages, PAGESIZE, PAGE_IDX_SIZE};
use sqlsync::positioned_io::PositionedReader;
use sqlsync::Serializable;
use std::io;

fn counting_page(seed: u8) -> Page {
    let mut page = [0u8; PAGESIZE];
    for (at, byte) in page.iter_mut().enumerate() {
        *byte = (at as u8).wrapping_mul(31).wrapping_add(seed);
    }
    page
}

fn store(indices: &[u64]) -> SparsePages {
    let mut pages = SparsePages::new();
    for idx in indices {
        pages.write(*idx, counting_page(*idx as u8));
    }
    pages
}

fn directory_of(pages: &SparsePages) -> Vec<u8> {
    let mut bytes = Vec::new();
    pages.serialize_into(&mut bytes);
    bytes
}

#[test]
fn encode_is_big_endian() {
    assert_eq!(encode_u64(0), [0u8; 8]);
    assert_eq!(encode_u64(1), [0, 0, 0, 0, 0, 0, 0, 1]);
    assert_eq!(encode_u64(1000), [0, 0, 0, 0, 0, 0, 0x03, 0xE8]);
    assert_eq!(
        encode_u64(0x0102_0304_0506_0708),
        [0x01, 0x02, 0x03, 0x04, 0x05, 0x06, 0x07, 0x08]
    );
    assert_eq!(encode_u64(u64::MAX), [0xFF; 8]);
    for value in [0u64, 255, 256, 65_535, 1 << 32, u64::MAX - 1] {
        assert_eq!(encode_u64(value), value.to_be_bytes());
    }
}

#[test]
fn decode_is_big_endian() {
    assert_eq!(decode_u64(&[0u8; 8]), 0);
    assert_eq!(decode_u64(&[0, 0, 0, 0, 0, 0, 0x03, 0xE8]), 1000);
    assert_eq!(
        decode_u64(&[0x01, 0x02, 0x03, 0x04, 0x05, 0x06, 0x07, 0x08]),
        0x0102_0304_0506_0708
    );
    assert_eq!(decode_u64(&[0xFF; 8]), u64::MAX);
    assert_eq!(decode_u64(&[0x80, 0, 0, 0, 0, 0, 0, 0]), 1 << 63);
}

#[test]
fn decode_undoes_encode() {
    for value in [0u64, 1, 3, 17, 1000, 0xDEAD_BEEF, u64::MAX] {
        assert_eq!(decode_u64(&encode_u64(value)), value);
    }
}

#[test]
fn record_size_is_index_and_page() {
    assert_eq!(PAGE_IDX_SIZE, 8);
    assert_eq!(PAGESIZE, 4096);
    assert_eq!(RECORD_SIZE, 4104);
}

#[test]
fn directory_layout_is_header_then_sorted_records() {
    let pages = store(&[17, 3]);
    let bytes = directory_of(&pages);
    assert_eq!(bytes.len(), 8 + 2 * 4104);
    assert_eq!(&bytes[0..8], &17u64.to_be_bytes());
    assert_eq!(&bytes[8..16], &3u64.to_be_bytes());
    assert_eq!(&bytes[16..16 + 4096], &counting_page(3)[..]);
    assert_eq!(&bytes[4112..4120], &17u64.to_be_bytes());
    assert_eq!(&bytes[4120..4120 + 4096], &counting_page(17)[..]);
}

#[test]
fn directory_of_one_page() {
    let mut pages = SparsePages::new();
    pages.write(0x0102, [0xAB; PAGESIZE]);
    let bytes = directory_of(&pages);
    let mut expected = vec![0, 0, 0, 0, 0, 0, 1, 2, 0, 0, 0, 0, 0, 0, 1, 2];
    expected.extend_from_slice(&[0xAB; PAGESIZE]);
    assert_eq!(bytes, expected);
}

#[test]
fn serialize_into_appends_to_the_writer() {
    let pages = store(&[1]);
    let mut bytes = vec![9u8, 9, 9];
    pages.serialize_into(&mut bytes);
    assert_eq!(&bytes[..3], &[9, 9, 9]);
    assert_eq!(&bytes[3..], &directory_of(&pages)[..]);
}

#[test]
fn num_pages_is_derived_from_the_size() {
    assert_eq!(SerializedPagesReader(vec![0u8; 8]).num_pages().unwrap(), 0);
    assert_eq!(SerializedPagesReader(vec![0u8; 8 + 4103]).num_pages().unwrap(), 0);
    assert_eq!(SerializedPagesReader(vec![0u8; 8 + 4104]).num_pages().unwrap(), 1);
    assert_eq!(SerializedPagesReader(vec![0u8; 8 + 3 * 4104]).num_pages().unwrap(), 3);
    assert_eq!(SerializedPagesReader(vec![0u8; 8 + 3 * 4104 + 100]).num_pages().unwrap(), 3);
}

#[test]
fn medium_shorter_than_the_header_holds_no_records() {
    let reader = SerializedPagesReader(vec![0u8; 3]);
    assert_eq!(reader.num_pages().unwrap(), 0);
    let mut buf = [7u8; 4];
    assert_eq!(reader.read(0, 0, &mut buf).unwrap(), 0);
    assert_eq!(buf, [7u8; 4]);
    assert_eq!(SerializedPagesReader(Vec::new()).num_pages().unwrap(), 0);
}

#[test]
fn max_page_idx_fails_on_a_medium_shorter_than_the_header() {
    let reader = SerializedPagesReader(vec![0u8; 7]);
    let error = reader.max_page_idx().unwrap_err();
    assert_eq!(error.kind(), io::ErrorKind::UnexpectedEof);
}

#[test]
fn round_trip_of_three_pages() {
    let indices = [3u64, 17, 1000];
    let pages = store(&indices);
    let reader = SerializedPagesReader(directory_of(&pages));

    assert_eq!(reader.num_pages().unwrap(), 3);
    assert_eq!(reader.max_page_idx().unwrap(), 1000);

    for idx in indices {
        let page = counting_page(idx as u8);
        let mut whole = [0u8; PAGESIZE];
        assert_eq!(reader.read(idx, 0, &mut whole).unwrap(), PAGESIZE);
        assert_eq!(whole, page);
        for (offset, len) in [(0, 1), (0, 4095), (1, 4095), (100, 200), (4095, 1), (2048, 2048)] {
            let mut buf = vec![0u8; len];
            assert_eq!(reader.read(idx, offset, &mut buf).unwrap(), len);
            assert_eq!(&buf[..], &page[offset..offset + len]);
        }
    }

    let mut buf = [0x55u8; PAGESIZE];
    assert_eq!(reader.read(42, 0, &mut buf).unwrap(), 0);
    assert!(buf.iter().all(|byte| *byte == 0x55));
}

#[test]
fn round_trip_of_every_byte_range_of_a_page() {
    let pages = store(&[3, 17, 1000]);
    let reader = SerializedPagesReader(directory_of(&pages));
    let page = counting_page(17);
    for offset in (0..PAGESIZE).step_by(509) {
        for len in [0, 1, 7, PAGESIZE - offset] {
            let mut buf = vec![0u8; len];
            assert_eq!(reader.read(17, offset, &mut buf).unwrap(), len);
            assert_eq!(&buf[..], &page[offset..offset + len]);
        }
    }
}

#[test]
fn reader_agrees_with_the_store() {
    let indices = [0u64, 1, 2, 5, 8, 13, 21, 34, 55, 89, u64::MAX];
    let pages = store(&indices);
    let reader = SerializedPagesReader(directory_of(&pages));
    assert_eq!(reader.num_pages().unwrap(), pages.num_pages());
    assert_eq!(Some(reader.max_page_idx().unwrap()), pages.max_page_idx());
    for idx in (0..100).chain([u64::MAX - 1, u64::MAX]) {
        let mut from_store = [0u8; 64];
        let mut from_reader = [0u8; 64];
        let copied = pages.read(idx, 32, &mut from_store);
        assert_eq!(reader.read(idx, 32, &mut from_reader).unwrap(), copied);
        assert_eq!(from_store, from_reader);
        assert_eq!(copied, if indices.contains(&idx) { 64 } else { 0 });
    }
}

#[test]
fn read_of_an_absent_page_between_records() {
    let pages = store(&[10, 20, 30, 40]);
    let reader = SerializedPagesReader(directory_of(&pages));
    for idx in [0u64, 9, 11, 25, 39, 41, u64::MAX] {
        let mut buf = [1u8; 8];
        assert_eq!(reader.read(idx, 0, &mut buf).unwrap(), 0);
        assert_eq!(buf, [1u8; 8]);
    }
}

#[test]
fn read_of_no_bytes_reports_zero() {
    let pages = store(&[4]);
    let reader = SerializedPagesReader(directory_of(&pages));
    let mut buf = [0u8; 0];
    assert_eq!(reader.read(4, PAGESIZE, &mut buf).unwrap(), 0);
    assert_eq!(reader.read(4, 0, &mut buf).unwrap(), 0);
}

#[test]
fn memory_medium_reads_at_positions() {
    let medium: Vec<u8> = (0u8..10).collect();
    assert_eq!(medium.size().unwrap(), 10);
    let mut buf = [0u8; 4];
    medium.read_exact_at(3, &mut buf).unwrap();
    assert_eq!(buf, [3, 4, 5, 6]);
    medium.read_exact_at(6, &mut buf).unwrap();
    assert_eq!(buf, [6, 7, 8, 9]);
    let mut none = [0u8; 0];
    medium.read_exact_at(10, &mut none).unwrap();
}

#[test]
fn memory_medium_fails_past_its_end() {
    let medium: Vec<u8> = (0u8..10).collect();
    let mut buf = [0xEEu8; 4];
    let error = medium.read_exact_at(7, &mut buf).unwrap_err();
    assert_eq!(error.kind(), io::ErrorKind::UnexpectedEof);
    assert_eq!(buf, [0xEEu8; 4]);
    assert!(medium.read_exact_at(11, &mut buf[..0]).is_err());
    assert!(medium.read_exact_at(usize::MAX, &mut buf).is_err());
}

/// A medium that claims a size and fails every read after the first few.
struct Failing {
    inner: Vec<u8>,
    reads_left: std::cell::Cell<usize>,
}

impl PositionedReader for Failing {
    fn read_exact_at(&self, pos: usize, buf: &mut [u8]) -> io::Result<()> {
        if self.reads_left.get() == 0 {
            return Err(io::Error::from(io::ErrorKind::BrokenPipe));
        }
        self.reads_left.set(self.reads_left.get() - 1);
        self.inner.read_exact_at(pos, buf)
    }

    fn size(&self) -> io::Result<usize> {
        self.inner.size()
    }
}

#[test]
fn failure_of_the_medium_is_handed_on() {
    let pages = store(&[1, 2, 3, 4, 5, 6, 7]);
    let bytes = directory_of(&pages);
    let mut buf = [0u8; 4];

    let broken = SerializedPagesReader(Failing { inner: bytes.clone(), reads_left: 0.into() });
    assert_eq!(broken.read(4, 0, &mut buf).unwrap_err().kind(), io::ErrorKind::BrokenPipe);
    assert_eq!(broken.max_page_idx().unwrap_err().kind(), io::ErrorKind::BrokenPipe);
    assert_eq!(broken.num_pages().unwrap(), 7);

    // The first probe hits page 4; the read of its content fails.
    let hit = SerializedPagesReader(Failing { inner: bytes.clone(), reads_left: 1.into() });
    assert!(hit.read(4, 0, &mut buf).is_err());

    // Page 1 takes three probes and one read of the content.
    let short = SerializedPagesReader(Failing { inner: bytes.clone(), reads_left: 3.into() });
    assert!(short.read(1, 0, &mut buf).is_err());
    let enough = SerializedPagesReader(Failing { inner: bytes, reads_left: 4.into() });
    assert_eq!(enough.read(1, 0, &mut buf).unwrap(), 4);
    assert_eq!(buf, counting_page(1)[..4]);
}

/// A medium that counts the reads it serves.
struct Counting {
    inner: Vec<u8>,
    probes: std::cell::Cell<usize>,
    bytes: std::cell::Cell<usize>,
}

impl PositionedReader for Counting {
    fn read_exact_at(&self, pos: usize, buf: &mut [u8]) -> io::Result<()> {
        self.probes.set(self.probes.get() + 1);
        self.bytes.set(self.bytes.get() + buf.len());
        self.inner.read_exact_at(pos, buf)
    }

    fn size(&self) -> io::Result<usize> {
        self.inner.size()
    }
}

#[test]
fn lookup_reads_a_logarithmic_number_of_indices() {
    let indices: Vec<u64> = (0..64).map(|idx| idx * 2).collect();
    let pages = store(&indices);
    let medium = Counting { inner: directory_of(&pages), probes: 0.into(), bytes: 0.into() };
    let reader = SerializedPagesReader(medium);
    for idx in 0..130u64 {
        reader.0.probes.set(0);
        reader.0.bytes.set(0);
        let mut buf = [0u8; 32];
        let copied = reader.read(idx, 0, &mut buf).unwrap();
        let probes = reader.0.probes.get();
        if copied == 32 {
            assert!(probes <= 7 + 1);
            assert_eq!(reader.0.bytes.get(), (probes - 1) * 8 + 32);
        } else {
            assert!(probes <= 7);
            assert_eq!(reader.0.bytes.get(), probes * 8);
        }
    }
}
