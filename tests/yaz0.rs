use pef_tbtab::yaz0::{decompress, Yaz0Error};

fn stream(size: u32, body: &[u8]) -> Vec<u8> {
    let mut b = b"Yaz0".to_vec();
    b.extend_from_slice(&size.to_be_bytes());
    b.extend_from_slice(&[0; 8]);
    b.extend_from_slice(body);
    b
}

#[test]
fn literals_only() {
    let b = stream(3, &[0xe0, b'a', b'b', b'c']);
    assert_eq!(decompress(&b), Ok(b"abc".to_vec()));
}

#[test]
fn short_back_reference() {
    // "ab", then copy 4 bytes from 2 back: "ababab"
    let b = stream(6, &[0xc0, b'a', b'b', 0x20, 0x01]);
    assert_eq!(decompress(&b), Ok(b"ababab".to_vec()));
}

#[test]
fn long_back_reference() {
    // "a", then 0x12 + 2 = 20 bytes from 1 back
    let b = stream(21, &[0x80, b'a', 0x00, 0x00, 0x02]);
    assert_eq!(decompress(&b), Ok(vec![b'a'; 21]));
}

#[test]
fn output_stops_at_size() {
    let b = stream(4, &[0xc0, b'a', b'b', 0x20, 0x01]);
    assert_eq!(decompress(&b), Ok(b"abab".to_vec()));
}

#[test]
fn empty_output() {
    assert_eq!(decompress(&stream(0, &[])), Ok(vec![]));
}

#[test]
fn bad_header() {
    let mut b = stream(3, &[0xe0, b'a', b'b', b'c']);
    b[0] = b'X';
    assert_eq!(decompress(&b), Err(Yaz0Error::BadHeader));
    assert_eq!(decompress(&b"Yaz0"[..]), Err(Yaz0Error::BadHeader));
}

#[test]
fn truncated_stream() {
    let b = stream(4, &[0xe0, b'a', b'b', b'c']);
    assert_eq!(decompress(&b), Err(Yaz0Error::Corrupt));
}

#[test]
fn reference_before_start() {
    let b = stream(4, &[0x80, b'a', 0x20, 0x05]);
    assert_eq!(decompress(&b), Err(Yaz0Error::Corrupt));
}
