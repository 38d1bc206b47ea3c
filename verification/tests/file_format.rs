use search::index::v1::file_format::{
    frame_index_file, index_bytes, is_well_framed, push_u64_be, read_u64_be,
};

#[test]
fn u64_is_written_big_endian() {
    let mut out = vec![0xAA];
    push_u64_be(&mut out, 0x0102_0304_0506_0708);
    assert_eq!(out, vec![0xAA, 1, 2, 3, 4, 5, 6, 7, 8]);
}

#[test]
fn u64_reads_back() {
    for n in [0u64, 1, 255, 256, 0x1234_5678_9ABC_DEF0, u64::MAX] {
        let mut out = vec![];
        push_u64_be(&mut out, n);
        assert_eq!(out, n.to_be_bytes().to_vec());
        assert_eq!(read_u64_be(&out), n);
    }
}

#[test]
fn framed_file_layout() {
    let file = frame_index_file(b"v1", b"abc");
    assert_eq!(
        file,
        vec![0, 0, 0, 0, 0, 0, 0, 2, b'v', b'1', 0, 0, 0, 0, 0, 0, 0, 3, b'a', b'b', b'c']
    );
    assert_eq!(file.len(), 16 + 2 + 3);
}

#[test]
fn framed_file_round_trips() {
    let file = frame_index_file(b"stork-version", b"\x81\xa7entries\x90");
    assert!(is_well_framed(&file));
    assert_eq!(index_bytes(&file), b"\x81\xa7entries\x90");
}

#[test]
fn empty_blocks_round_trip() {
    let file = frame_index_file(b"", b"");
    assert_eq!(file, vec![0u8; 16]);
    assert!(is_well_framed(&file));
    assert_eq!(index_bytes(&file), b"");
}

#[test]
fn trailing_bytes_are_ignored() {
    let mut file = frame_index_file(b"v", b"xy");
    file.extend_from_slice(b"trailing");
    assert!(is_well_framed(&file));
    assert_eq!(index_bytes(&file), b"xy");
}

#[test]
fn short_files_are_not_well_framed() {
    assert!(!is_well_framed(b""));
    assert!(!is_well_framed(&[0u8; 15]));
    let file = frame_index_file(b"v", b"xyz");
    assert!(!is_well_framed(&file[..file.len() - 1]));
    let mut huge_version = vec![0xFF; 8];
    huge_version.extend_from_slice(&[0u8; 8]);
    assert!(!is_well_framed(&huge_version));
}
