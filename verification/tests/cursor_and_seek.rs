use binary_reader::reader::BinaryReader;
use binary_reader::source::MemSource;

fn reader_over(bytes: Vec<u8>) -> BinaryReader<MemSource> {
    BinaryReader::new(MemSource::new(bytes))
}

#[test]
fn cursor_starts_at_zero() {
    let mut r = reader_over(vec![1, 2, 3]);
    assert_eq!(r.position().unwrap(), 0);
}

#[test]
fn cursor_advances_by_width() {
    let mut r = reader_over((0u8..32).collect());
    r.read_u8().unwrap();
    assert_eq!(r.position().unwrap(), 1);
    r.read_i8().unwrap();
    assert_eq!(r.position().unwrap(), 2);
    r.read_u16().unwrap();
    assert_eq!(r.position().unwrap(), 4);
    r.read_i16().unwrap();
    assert_eq!(r.position().unwrap(), 6);
    r.read_u32().unwrap();
    assert_eq!(r.position().unwrap(), 10);
    r.read_i32().unwrap();
    assert_eq!(r.position().unwrap(), 14);
    r.read_u64().unwrap();
    assert_eq!(r.position().unwrap(), 22);
    r.read_i64().unwrap();
    assert_eq!(r.position().unwrap(), 30);
}

#[test]
fn cursor_advances_by_read_bytes_count() {
    let mut r = reader_over((0u8..16).collect());
    r.read_bytes(5).unwrap();
    assert_eq!(r.position().unwrap(), 5);
    r.read_bytes(0).unwrap();
    assert_eq!(r.position().unwrap(), 5);
    r.read_bytes(11).unwrap();
    assert_eq!(r.position().unwrap(), 16);
}

#[test]
fn set_position_then_position() {
    let mut r = reader_over((0u8..10).collect());
    r.set_position(7).unwrap();
    assert_eq!(r.position().unwrap(), 7);
    r.set_position(0).unwrap();
    assert_eq!(r.position().unwrap(), 0);
}

#[test]
fn reads_begin_at_seek_target() {
    let mut r = reader_over(vec![0x10, 0x11, 0x12, 0x13, 0x14, 0x15]);
    r.set_position(4).unwrap();
    assert_eq!(r.read_u8().unwrap(), 0x14);
    r.set_position(2).unwrap();
    assert_eq!(r.read_u16().unwrap(), 0x1312);
    assert_eq!(r.position().unwrap(), 4);
}

#[test]
fn seek_past_end_is_accepted() {
    let mut r = reader_over(vec![1, 2, 3]);
    r.set_position(100).unwrap();
    assert_eq!(r.position().unwrap(), 100);
    // A read there sees no bytes and decodes zero under the zero-pad policy.
    assert_eq!(r.read_u32().unwrap(), 0);
    assert_eq!(r.position().unwrap(), 100);
}

#[test]
fn rereading_after_seek_back() {
    let mut r = reader_over(vec![0xAB, 0xCD]);
    assert_eq!(r.read_u16().unwrap(), 0xCDAB);
    r.set_position(0).unwrap();
    assert_eq!(r.read_u16().unwrap(), 0xCDAB);
}
