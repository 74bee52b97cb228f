//! Round trips and error cases of the encodings and paddings.

use unicity_nostr::crypto::{bech32, nip04, nip44};
use unicity_nostr::hex;
use unicity_nostr::Error;

#[test]
fn hex_roundtrip_and_case() {
    let bytes = [0u8, 1, 0xab, 0xff, 0x10];
    let s = hex::encode(&bytes);
    assert_eq!(s, "0001abff10");
    assert_eq!(hex::decode(&s).unwrap(), bytes.to_vec());
    assert_eq!(hex::decode("ABff").unwrap(), vec![0xab, 0xff]);
    assert!(hex::decode("abc").is_none());
    assert!(hex::decode("zz").is_none());
}

#[test]
fn bech32_roundtrip_and_errors() {
    let data = [7u8; 20];
    let s = bech32::encode("test", &data).unwrap();
    let (hrp, back) = bech32::decode(&s).unwrap();
    assert_eq!(hrp, "test");
    assert_eq!(back, data.to_vec());
    assert_eq!(bech32::decode(&s.to_uppercase()).unwrap().1, data.to_vec());
    let mut broken = s.clone();
    let last = broken.pop().unwrap();
    broken.push(if last == 'q' { 'p' } else { 'q' });
    assert!(matches!(bech32::decode(&broken), Err(Error::Malformed("bech32 checksum"))));
    assert!(matches!(bech32::decode("noseparator"), Err(Error::Malformed("bech32 no separator"))));
    assert!(matches!(bech32::decode("a1qqq"), Err(Error::Malformed("bech32 length"))));
    let npub = bech32::encode_npub(&[1u8; 32]).unwrap();
    assert!(matches!(bech32::decode_nsec(&npub), Err(Error::Malformed("expected nsec"))));
    let short = bech32::encode("npub", &[1u8; 31]).unwrap();
    assert!(matches!(bech32::decode_npub(&short), Err(Error::InvalidLength(_))));
}

#[test]
fn nip44_padding() {
    assert_eq!(nip44::calc_padded_len(1).unwrap(), 32);
    assert_eq!(nip44::calc_padded_len(32).unwrap(), 32);
    assert_eq!(nip44::calc_padded_len(33).unwrap(), 64);
    assert_eq!(nip44::calc_padded_len(257).unwrap(), 320);
    assert!(matches!(nip44::calc_padded_len(0), Err(Error::Padding("message too short"))));
    assert!(matches!(nip44::calc_padded_len(65536), Err(Error::Padding("message too long"))));
    for msg in [&b"a"[..], &[9u8; 100][..], &[0u8; 1000][..]] {
        let padded = nip44::pad(msg).unwrap();
        assert_eq!(padded.len(), 2 + nip44::calc_padded_len(msg.len()).unwrap());
        assert_eq!(nip44::unpad(&padded).unwrap(), msg.to_vec());
    }
    assert!(nip44::unpad(&[0u8; 10]).is_err());
    let key = [1u8; 32];
    assert!(matches!(nip44::decrypt_with_key(&key, "AAAA"), Err(Error::Malformed(_))));
    assert!(matches!(nip44::decrypt_with_key(&key, "@@"), Err(Error::Decode(_))));
}

#[test]
fn nip04_payload_errors() {
    let secret = [2u8; 32];
    assert!(matches!(nip04::decrypt_with_secret(&secret, "abc"), Err(Error::Malformed("nip04 missing ?iv="))));
    assert!(matches!(nip04::decrypt_with_secret(&secret, "AAAA?iv=AAAA"), Err(Error::InvalidLength("iv != 16"))));
    assert!(matches!(nip04::decrypt_with_secret(&secret, "@@?iv=AAAA"), Err(Error::Decode(_))));
    let payload = nip04::encrypt_auto_with_secret_iv(&secret, &[3u8; 16], "round trip").unwrap();
    assert_eq!(nip04::decrypt_with_secret(&secret, &payload).unwrap(), "round trip");
}

#[test]
fn bech32_upper_case_and_wrong_keys() {
    let data = [0x5au8; 33];
    let s = bech32::encode("abc", &data).unwrap();
    let (hrp, back) = bech32::decode(&s.to_ascii_uppercase()).unwrap();
    assert_eq!(hrp, "abc");
    assert_eq!(back, data.to_vec());
    let nsec = bech32::encode_nsec(&[3u8; 32]).unwrap();
    assert!(matches!(bech32::decode_npub(&nsec), Err(Error::Malformed("expected npub"))));
    let short = bech32::encode("npub", &[0u8; 31]).unwrap();
    assert!(matches!(bech32::decode_npub(&short), Err(Error::InvalidLength("npub != 32 bytes"))));
    let long = bech32::encode("nsec", &[0u8; 33]).unwrap();
    assert!(matches!(bech32::decode_nsec(&long), Err(Error::InvalidLength("nsec != 32 bytes"))));
}

#[test]
fn nip44_padded_len_bounds_and_monotone() {
    let mut prev = 0usize;
    for n in 1..=65535usize {
        let p = nip44::calc_padded_len(n).unwrap();
        assert!(p >= n && p >= 32 && p % 32 == 0 && p <= 65536, "bounds at {n}");
        let chunk = std::cmp::max(32, n.next_power_of_two() / 8);
        assert!(p - n < chunk, "slack at {n}");
        assert!(p >= prev, "monotone at {n}");
        prev = p;
    }
    assert_eq!(nip44::calc_padded_len(65535).unwrap(), 65536);
    assert_eq!(nip44::calc_padded_len(1025).unwrap(), 1280);
}
