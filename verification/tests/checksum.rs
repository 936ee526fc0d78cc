use airlog::wire::checksum::checksum;
use airlog::wire::frame::{
    checksums_intact, command, command_with_argument, from_be_bytes, to_be_bytes, word_checksum,
};

#[test]
fn checksum_reference_vectors() {
    assert_eq!(checksum(&[0x00, 0x64]), 0xfe);
    assert_eq!(checksum(&[0xbe, 0xef]), 0x92);
    assert_eq!(checksum(&[0x80, 0x00]), 0xa2);
    assert_eq!(checksum(&[0x66, 0x66]), 0x93);
    assert_eq!(checksum(&[0x00, 0x00]), 0x81);
    assert_eq!(checksum(&[0xff, 0xff]), 0xac);
}

#[test]
fn checksum_of_nothing_is_the_initial_value() {
    assert_eq!(checksum(&[]), 0xff);
}

#[test]
fn checksum_is_deterministic() {
    let data = [0x12, 0x34, 0x56, 0x78, 0x9a];
    assert_eq!(checksum(&data), checksum(&data));
    assert_eq!(checksum(&[0x00, 0x64]), checksum(&[0x00, 0x64]));
}

#[test]
fn checksum_is_order_sensitive() {
    assert_eq!(checksum(&[0x64, 0x00]), 0x57);
    assert_ne!(checksum(&[0x00, 0x64]), checksum(&[0x64, 0x00]));
    assert_ne!(checksum(&[0xbe, 0xef]), checksum(&[0xef, 0xbe]));
}

#[test]
fn checksum_covers_every_byte() {
    assert_ne!(checksum(&[0x00, 0x64]), checksum(&[0x64]));
    assert_ne!(checksum(&[0x00]), checksum(&[]));
    assert_ne!(checksum(&[0x01, 0x64]), checksum(&[0x00, 0x64]));
    assert_ne!(checksum(&[0x00, 0x65]), checksum(&[0x00, 0x64]));
}

#[test]
fn words_split_and_join() {
    assert_eq!(to_be_bytes(0xd100), [0xd1, 0x00]);
    assert_eq!(to_be_bytes(0x0010), [0x00, 0x10]);
    assert_eq!(to_be_bytes(0xffff), [0xff, 0xff]);
    assert_eq!(from_be_bytes(0x03, 0xff), 1023);
    assert_eq!(from_be_bytes(0x00, 0x01), 1);
    for word in [0u16, 1, 255, 256, 0x1234, 0xfffe, 0xffff] {
        let bytes = to_be_bytes(word);
        assert_eq!(from_be_bytes(bytes[0], bytes[1]), word);
    }
}

#[test]
fn word_checksums() {
    assert_eq!(word_checksum(0xbeef), 0x92);
    assert_eq!(word_checksum(0x0064), 0xfe);
    assert_eq!(word_checksum(0x6400), 0x57);
}

#[test]
fn frames_without_argument() {
    assert_eq!(command(0x0202), [0x02, 0x02]);
    assert_eq!(command(0x0300), [0x03, 0x00]);
}

#[test]
fn frames_with_argument_check_the_argument_only() {
    assert_eq!(command_with_argument(0x0010, 1023), [0x00, 0x10, 0x03, 0xff, 0x00]);
    assert_eq!(command_with_argument(0x5403, 372), [0x54, 0x03, 0x01, 0x74, 0x49]);
    let one = command_with_argument(0x0010, 0xbeef);
    let other = command_with_argument(0x5403, 0xbeef);
    assert_eq!(one[4], 0x92);
    assert_eq!(other[4], 0x92);
}

#[test]
fn intact_responses_are_recognised() {
    let response = [
        0x43, 0xdb, 0xcb, 0x8c, 0x2e, 0x8f, 0x41, 0xd9, 0x70, 0xe7, 0xff, 0xf5, 0x42, 0x43, 0xbf,
        0x3a, 0x1b, 0x74,
    ];
    assert!(checksums_intact(&response));
    assert!(checksums_intact(&[0x00, 0x01, 0xb0]));
    assert!(checksums_intact(&[]));
    assert!(checksums_intact(&[0x12, 0x34]));
}

#[test]
fn corrupted_responses_are_recognised() {
    let mut response = [
        0x43, 0xdb, 0xcb, 0x8c, 0x2e, 0x8f, 0x41, 0xd9, 0x70, 0xe7, 0xff, 0xf5, 0x42, 0x43, 0xbf,
        0x3a, 0x1b, 0x74,
    ];
    response[17] = 0x75;
    assert!(!checksums_intact(&response));
    response[17] = 0x74;
    response[6] = 0x40;
    assert!(!checksums_intact(&response));
    assert!(!checksums_intact(&[0x00, 0x01, 0xb1]));
    assert!(!checksums_intact(&[0x00, 0x01, 0xb1, 0x55]));
}
