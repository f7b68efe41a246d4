use epo_processor::checksum::{checksum_matches, compute_sha1, to_hex_upper, Sha1Stream};

#[test]
fn sha1_of_known_inputs() {
    assert_eq!(compute_sha1(b""), "DA39A3EE5E6B4B0D3255BFEF95601890AFD80709");
    assert_eq!(compute_sha1(b"abc"), "A9993E364706816ABA3E25717850C26C9CD0D89D");
    assert_eq!(compute_sha1(b"hello world"), "2AAE6C35C94FCFB415DBE95F408B9CE91EE846ED");
    assert_eq!(
        compute_sha1(b"The quick brown fox jumps over the lazy dog"),
        "2FD4E1C67A2D28FCED849EE1BB76E7391B93EB12"
    );
}

#[test]
fn sha1_of_a_stream_is_that_of_its_chunks_together() {
    let mut stream = Sha1Stream::new();
    stream.update(b"hello");
    stream.update(b"");
    stream.update(b" ");
    stream.update(b"world");
    assert_eq!(stream.finish(), "2AAE6C35C94FCFB415DBE95F408B9CE91EE846ED");
}

#[test]
fn sha1_of_a_large_input_in_fixed_chunks() {
    let data: Vec<u8> = (0..100_000u32).map(|i| (i % 251) as u8).collect();
    let mut stream = Sha1Stream::new();
    for chunk in data.chunks(4096) {
        stream.update(chunk);
    }
    assert_eq!(stream.finish(), compute_sha1(&data));
}

#[test]
fn sha1_of_nothing_fed_is_that_of_the_empty_input() {
    assert_eq!(Sha1Stream::new().finish(), "DA39A3EE5E6B4B0D3255BFEF95601890AFD80709");
}

#[test]
fn checksum_has_forty_capital_hex_digits() {
    let checksum = compute_sha1(b"x");
    assert_eq!(checksum.len(), 40);
    assert!(checksum.chars().all(|c| c.is_ascii_digit() || ('A'..='F').contains(&c)));
}

#[test]
fn hex_writes_two_capital_digits_for_each_byte() {
    assert_eq!(to_hex_upper(&Vec::new()), "");
    assert_eq!(to_hex_upper(&vec![0x00]), "00");
    assert_eq!(to_hex_upper(&vec![0x0a, 0xf0, 0xff, 0x19]), "0AF0FF19");
    assert_eq!(to_hex_upper(&vec![0x01, 0x23, 0x45, 0x67, 0x89, 0xab, 0xcd, 0xef]), "0123456789ABCDEF");
}

#[test]
fn checksums_are_compared_whatever_their_case() {
    assert!(checksum_matches("2aae6c35c94fcfb415dbe95f408b9ce91ee846ed", "2AAE6C35C94FCFB415DBE95F408B9CE91EE846ED"));
    assert!(checksum_matches("2AAE6C35", "2AAE6C35"));
    assert!(!checksum_matches("2AAE6C35", "2AAE6C36"));
    assert!(!checksum_matches("2AAE6C35", "2AAE6C3"));
    assert!(!checksum_matches("", "DA39"));
}

#[test]
fn checksums_are_compared_in_capitals() {
    assert!(checksum_matches("straße", "STRASSE"));
    assert!(checksum_matches("\u{fb00}", "FF"));
    assert!(checksum_matches("é", "É"));
    assert!(!checksum_matches("e", "é"));
}
