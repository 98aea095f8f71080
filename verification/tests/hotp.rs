use totp::error::CryptoError;
use totp::hotp::{counter_to_bytes, dynamic_truncate, hotp_code};
use totp::Encryption;

fn from_hex(text: &str) -> Vec<u8> {
    let digits: Vec<u8> = text.chars().map(|c| c.to_digit(16).unwrap() as u8).collect();
    digits.chunks(2).map(|pair| pair[0] * 16 + pair[1]).collect()
}

#[test]
fn counter_bytes_are_big_endian() {
    assert_eq!(counter_to_bytes(0), vec![0; 8]);
    assert_eq!(counter_to_bytes(1), vec![0, 0, 0, 0, 0, 0, 0, 1]);
    assert_eq!(counter_to_bytes(0x0102_0304_0506_0708), vec![1, 2, 3, 4, 5, 6, 7, 8]);
    assert_eq!(counter_to_bytes(i64::MAX), vec![0x7f, 255, 255, 255, 255, 255, 255, 255]);
}

#[test]
fn counter_bytes_of_negative_counters_are_twos_complement() {
    assert_eq!(counter_to_bytes(-1), vec![255; 8]);
    assert_eq!(counter_to_bytes(-2), vec![255, 255, 255, 255, 255, 255, 255, 254]);
    assert_eq!(counter_to_bytes(-256), vec![255, 255, 255, 255, 255, 255, 255, 0]);
    assert_eq!(counter_to_bytes(i64::MIN), vec![0x80, 0, 0, 0, 0, 0, 0, 0]);
}

#[test]
fn counter_bytes_agree_with_std() {
    for counter in [0i64, 1, -1, 59, 37037036, -37037036, 1 << 40, -(1 << 40), i64::MIN, i64::MAX] {
        assert_eq!(counter_to_bytes(counter), counter.to_be_bytes().to_vec());
    }
}

#[test]
fn truncate_reference_digest() {
    let digest = from_hex("1f8698690e02ca16618550ef7f19da8e945b555a");
    assert_eq!(dynamic_truncate(&digest), 0x50ef7f19);
    assert_eq!(dynamic_truncate(&digest) % 1_000_000, 872921);
}

#[test]
fn truncate_clears_the_top_bit() {
    let mut digest = vec![0u8; 20];
    digest[0] = 0xff;
    digest[1] = 0xff;
    digest[2] = 0xff;
    digest[3] = 0xff;
    assert_eq!(dynamic_truncate(&digest), 0x7fff_ffff);
    digest[0] = 0x80;
    assert_eq!(dynamic_truncate(&digest), 0x00ff_ffff);
}

#[test]
fn truncate_uses_the_low_four_bits_of_the_last_byte() {
    let mut digest: Vec<u8> = (0..20).collect();
    digest[19] = 0xf3;
    assert_eq!(dynamic_truncate(&digest), 0x0304_0506);
    digest[19] = 0x0f;
    assert_eq!(dynamic_truncate(&digest), 0x0f10_1112);
}

#[test]
fn truncate_twenty_bytes_at_the_largest_offset() {
    let mut digest: Vec<u8> = (100..120).collect();
    digest[19] = 0xff;
    assert_eq!(dynamic_truncate(&digest), u32::from_be_bytes([115, 116, 117, 118]));
}

#[test]
fn truncate_sixteen_bytes_without_wrap() {
    let mut digest: Vec<u8> = (1..17).collect();
    digest[15] = 0x0c;
    assert_eq!(dynamic_truncate(&digest), u32::from_be_bytes([13, 14, 15, 0x0c]));
    digest[15] = 0x00;
    assert_eq!(dynamic_truncate(&digest), u32::from_be_bytes([1, 2, 3, 4]));
}

#[test]
fn truncate_sixteen_bytes_wraps_to_the_start() {
    let mut digest: Vec<u8> = (1..17).collect();
    digest[15] = 0x0d;
    assert_eq!(dynamic_truncate(&digest), u32::from_be_bytes([14, 15, 0x0d, 1]));
    digest[15] = 0x0e;
    assert_eq!(dynamic_truncate(&digest), u32::from_be_bytes([15, 0x0e, 1, 2]));
    digest[15] = 0x0f;
    assert_eq!(dynamic_truncate(&digest), u32::from_be_bytes([0x0f, 1, 2, 3]));
    digest[15] = 0xff;
    assert_eq!(dynamic_truncate(&digest), u32::from_be_bytes([0x7f, 1, 2, 3]));
}

#[test]
fn truncate_every_offset_of_sixteen_bytes_stays_inside() {
    for low in 0..16u8 {
        let mut digest: Vec<u8> = (0..16).collect();
        digest[15] = 0x10 | low;
        let at = |i: usize| digest[(low as usize + i) % 16];
        let expected = u32::from_be_bytes([at(0) & 0x7f, at(1), at(2), at(3)]);
        assert_eq!(dynamic_truncate(&digest), expected);
    }
}

#[test]
fn truncate_short_digests() {
    assert_eq!(dynamic_truncate(&[0xff]), 0x7fff_ffff);
    assert_eq!(dynamic_truncate(&[1, 2, 3]), u32::from_be_bytes([1, 2, 3, 1]));
    assert_eq!(dynamic_truncate(&[1, 2, 3, 2]), u32::from_be_bytes([3, 2, 1, 2]));
}

#[test]
fn hmac_sha1_reference_tags() {
    assert_eq!(
        Encryption::SHA1.authenticate(&[0x0b; 20], b"Hi There"),
        Ok(from_hex("b617318655057264e28bc0b6fb378c8ef146be00"))
    );
    assert_eq!(
        Encryption::SHA1.authenticate(b"Jefe", b"what do ya want for nothing?"),
        Ok(from_hex("effcdf6ae5eb2fa2d27416d5f184df9c259a7c79"))
    );
}

#[test]
fn hmac_md5_reference_tags() {
    assert_eq!(
        Encryption::MD5.authenticate(&[0x0b; 16], b"Hi There"),
        Ok(from_hex("9294727a3638bb1c13f48ef8158bfc9d"))
    );
    assert_eq!(
        Encryption::MD5.authenticate(b"Jefe", b"what do ya want for nothing?"),
        Ok(from_hex("750c783e6ab0b503eaa86e310a5db738"))
    );
}

#[test]
fn hmac_takes_keys_of_any_length() {
    let empty = Encryption::SHA1.authenticate(b"", &[0; 8]);
    assert_eq!(empty, Ok(from_hex("dab69ad98e28764f977ee2487e4f3f6873b2a297")));
    let empty = Encryption::MD5.authenticate(b"", &[0; 8]);
    assert_eq!(empty, Ok(from_hex("18853b46630a1a19c58b2b26d6753012")));
    let long = Encryption::SHA1.authenticate(&[b'k'; 100], b"abc");
    assert_eq!(long, Ok(from_hex("26030f686a1d565e024767e62c960a6434855442")));
    assert_eq!(Encryption::SHA1.authenticate(&[7; 64], b"abc").unwrap().len(), 20);
    assert_eq!(Encryption::MD5.authenticate(&[7; 65], b"abc").unwrap().len(), 16);
}

#[test]
fn hmac_tag_lengths() {
    for length in [0usize, 1, 19, 20, 63, 64, 65, 200] {
        let key = vec![0x5a; length];
        assert_eq!(Encryption::SHA1.authenticate(&key, b"message").unwrap().len(), 20);
        assert_eq!(Encryption::MD5.authenticate(&key, b"message").unwrap().len(), 16);
    }
}

#[test]
fn hotp_reference_codes() {
    let key = b"12345678901234567890";
    let expected: [u32; 10] = [
        1284755224, 1094287082, 137359152, 1726969429, 1640338314, 868254676, 1918287922,
        82162583, 673399871, 645520489,
    ];
    let six_digits: [u32; 10] =
        [755224, 287082, 359152, 969429, 338314, 254676, 287922, 162583, 399871, 520489];
    for counter in 0..10usize {
        let code = hotp_code(Encryption::SHA1, key, counter as i64);
        assert_eq!(code, Ok(expected[counter]));
        assert_eq!(code.unwrap() % 1_000_000, six_digits[counter]);
    }
}

#[test]
fn hotp_md5_wraps_the_window() {
    // The tag ends in 9d: the window starts at 13 and takes its last byte
    // from the start of the tag.
    let counter = i64::from_be_bytes(*b"Hi There");
    assert_eq!(hotp_code(Encryption::MD5, &[0x0b; 16], counter), Ok(201104786));
    // These tags end in ef, 0e and 9d.
    let key = b"12345678901234567890";
    assert_eq!(hotp_code(Encryption::MD5, key, 0), Ok(1864108307));
    assert_eq!(hotp_code(Encryption::MD5, key, 2), Ok(51281820));
    assert_eq!(hotp_code(Encryption::MD5, key, 4), Ok(2037489139));
}

#[test]
fn hotp_md5_without_wrap() {
    let key = b"12345678901234567890";
    assert_eq!(hotp_code(Encryption::MD5, key, 1), Ok(1578532013));
    assert_eq!(hotp_code(Encryption::MD5, key, 39), Ok(740502396));
}

#[test]
fn hotp_of_a_negative_counter() {
    assert_eq!(hotp_code(Encryption::SHA1, b"12345678901234567890", -1), Ok(1663094451));
}

#[test]
fn hotp_with_an_empty_key() {
    assert_eq!(hotp_code(Encryption::SHA1, b"", 0), Ok(1335328482));
    assert_eq!(hotp_code(Encryption::MD5, b"", 0), Ok(994468618));
}

#[test]
fn hotp_codes_have_31_bits() {
    for counter in -50..50i64 {
        for algorithm in [Encryption::SHA1, Encryption::MD5] {
            let code: Result<u32, CryptoError> = hotp_code(algorithm, b"secret", counter);
            assert!(code.unwrap() < 0x8000_0000);
        }
    }
}
