use binary_reader::reader::BinaryReader;
use binary_reader::source::MemSource;

fn reader_over(bytes: Vec<u8>) -> BinaryReader<MemSource> {
    BinaryReader::new(MemSource::new(bytes))
}

#[test]
fn short_source_zero_pads_u16() {
    let mut r = reader_over(vec![0x01]);
    assert_eq!(r.read_u16().unwrap(), 0x0001);
    assert_eq!(r.position().unwrap(), 1);
}

#[test]
fn short_source_zero_pads_u32() {
    let mut r = reader_over(vec![0xAA, 0xBB]);
    assert_eq!(r.read_u32().unwrap(), 0x0000BBAA);
    assert_eq!(r.position().unwrap(), 2);
}

#[test]
fn short_source_zero_pads_i64() {
    // 0xFF alone reads as 255, not -1: the missing high bytes are zero.
    let mut r = reader_over(vec![0xFF]);
    assert_eq!(r.read_i64().unwrap(), 255);
}

#[test]
fn empty_source_reads_zero() {
    let mut r = reader_over(Vec::new());
    assert_eq!(r.read_u8().unwrap(), 0);
    assert_eq!(r.read_u64().unwrap(), 0);
    assert_eq!(r.position().unwrap(), 0);
}

#[test]
fn read_to_buf_fills_whole_buffer() {
    let mut r = reader_over(vec![1, 2, 3, 4, 5]);
    let mut buf = vec![0u8; 4];
    assert_eq!(r.read_to_buf(&mut buf).unwrap(), 4);
    assert_eq!(buf, vec![1, 2, 3, 4]);
    assert_eq!(r.position().unwrap(), 4);
}

#[test]
fn read_to_buf_short_source_leaves_tail_untouched() {
    let mut r = reader_over(vec![1, 2, 3]);
    let mut buf = vec![0xEEu8; 8];
    let n = r.read_to_buf(&mut buf).unwrap();
    assert_eq!(n, 3);
    assert_eq!(&buf[..3], &[1, 2, 3]);
    assert_eq!(&buf[3..], &[0xEE; 5]);
    assert_eq!(r.position().unwrap(), 3);
}

#[test]
fn read_to_buf_empty_buffer() {
    let mut r = reader_over(vec![1, 2, 3]);
    let mut buf = Vec::new();
    assert_eq!(r.read_to_buf(&mut buf).unwrap(), 0);
    assert_eq!(r.position().unwrap(), 0);
}

#[test]
fn read_bytes_full_length() {
    let mut r = reader_over(vec![9, 8, 7]);
    let v = r.read_bytes(2).unwrap();
    assert_eq!(v, vec![9, 8]);
    assert_eq!(r.position().unwrap(), 2);
}

#[test]
fn read_bytes_short_source_zero_tail() {
    let mut r = reader_over(vec![9, 8]);
    let v = r.read_bytes(5).unwrap();
    assert_eq!(v.len(), 5);
    assert_eq!(v, vec![9, 8, 0, 0, 0]);
    assert_eq!(r.position().unwrap(), 2);
}
