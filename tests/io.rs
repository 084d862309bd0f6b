use sbpf_guest::bytes::u64_to_le_bytes;
use sbpf_guest::io::Write;

#[test]
fn vector_sink_takes_everything() {
    let mut sink: Vec<u8> = vec![1, 2];
    assert_eq!(Write::write(&mut sink, &[3, 4, 5]), Ok(3));
    assert_eq!(Write::write_all(&mut sink, &[6, 7]), Ok(()));
    assert_eq!(Write::write_all(&mut sink, &[]), Ok(()));
    assert_eq!(sink, vec![1, 2, 3, 4, 5, 6, 7]);
}

#[test]
fn little_endian_bytes_match_std() {
    for v in [0u64, 1, 0x0102_0304_0506_0708, u64::MAX, 1000] {
        assert_eq!(u64_to_le_bytes(v), v.to_le_bytes());
    }
}
