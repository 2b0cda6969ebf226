use reimu::binreader::BinReader;

#[test]
fn reads_little_endian_words() {
    let data: Vec<u8> = vec![0x78, 0x56, 0x34, 0x12, 0xf8, 0xff, 0xff, 0xff, 0x2a];
    let mut r = BinReader::new(&data);
    assert_eq!(r.read_u32(), Some(0x1234_5678));
    assert_eq!(r.get_position(), 4);
    assert_eq!(r.read_i32(), Some(-8));
    assert_eq!(r.read_u8(), Some(0x2a));
    assert_eq!(r.get_position(), 9);
    assert_eq!(r.read_u8(), None);
    assert_eq!(r.get_position(), 9);
}

#[test]
fn short_read_fails_and_consumes_the_rest() {
    let data: Vec<u8> = vec![1, 2, 3];
    let mut r = BinReader::new(&data);
    r.set_position(1);
    assert_eq!(r.read_u32(), None);
    assert_eq!(r.get_position(), 3);
    r.set_position(0);
    assert_eq!(r.read_i32(), None);
    assert_eq!(r.get_position(), 3);
    r.set_position(100);
    assert_eq!(r.read_u8(), None);
    assert_eq!(r.read_u32(), None);
    assert_eq!(r.get_position(), 100);
}

#[test]
fn cstr_return_point_wraps() {
    let data: Vec<u8> = vec![0; 8];
    let mut r = BinReader::new(&data);
    r.set_position_relative(-2);
    assert_eq!(r.get_position(), u64::MAX - 1);
    assert_eq!(r.read_cstr(None::<fn(u32) -> u32>), None);
    assert_eq!(r.get_position(), 2);
}

#[test]
fn relative_seek_moves_both_ways() {
    let data: Vec<u8> = vec![0; 16];
    let mut r = BinReader::new(&data);
    r.set_position(8);
    r.set_position_relative(4);
    assert_eq!(r.get_position(), 12);
    r.set_position_relative(-10);
    assert_eq!(r.get_position(), 2);
    assert_eq!(r.get_data().len(), 16);
}

fn string_buffer() -> Vec<u8> {
    // pointer at 0 to the string at 8, pointer at 4 to the string at 12
    let mut d: Vec<u8> = vec![8, 0, 0, 0, 12, 0, 0, 0];
    d.extend_from_slice(b"abc\0");
    d.extend_from_slice(b"xy");
    d
}

#[test]
fn cstr_reads_through_pointer_and_snaps_back() {
    let data = string_buffer();
    let mut r = BinReader::new(&data);
    let s = r.read_cstr(None::<fn(u32) -> u32>);
    assert_eq!(s.as_deref(), Some("abc"));
    assert_eq!(r.get_position(), 4);
    // the end of the buffer ends the string
    let s = r.read_cstr(None::<fn(u32) -> u32>);
    assert_eq!(s.as_deref(), Some("xy"));
    assert_eq!(r.get_position(), 8);
}

#[test]
fn cstr_applies_translation() {
    let data = string_buffer();
    let mut r = BinReader::new(&data);
    let s = r.read_cstr(Some(|x: u32| x + 1));
    assert_eq!(s.as_deref(), Some("bc"));
    assert_eq!(r.get_position(), 4);
}

#[test]
fn cstr_failure_still_snaps_back() {
    let mut data: Vec<u8> = vec![4, 0, 0, 0, 0xff, 0xfe, 0];
    let mut r = BinReader::new(&data);
    assert_eq!(r.read_cstr(None::<fn(u32) -> u32>), None);
    assert_eq!(r.get_position(), 4);
    data.truncate(2);
    let mut r = BinReader::new(&data);
    assert_eq!(r.read_cstr(None::<fn(u32) -> u32>), None);
    assert_eq!(r.get_position(), 4);
}

#[test]
fn cstr_past_end_is_empty() {
    let data: Vec<u8> = vec![200, 0, 0, 0];
    let mut r = BinReader::new(&data);
    assert_eq!(r.read_cstr(None::<fn(u32) -> u32>).as_deref(), Some(""));
    assert_eq!(r.get_position(), 4);
}
