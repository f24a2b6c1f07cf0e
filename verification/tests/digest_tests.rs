use mup::digest;
use mup::error::Error;

#[test]
fn test_hash_and_write() {
    let input_data = b"hello world".to_vec();
    let expected_hash = "2aae6c35c94fcfb415dbe95f408b9ce91ee846ed";

    let hash = digest::hex_digest("sha1", &input_data).unwrap();
    assert_eq!(hash, expected_hash);
}

#[test]
fn sha256_digest_of_known_input() {
    let data = b"hello world".to_vec();
    let hash = digest::hex_digest("sha256", &data).unwrap();
    assert_eq!(
        hash,
        "b94d27b9934d3e08a52e52d7da7dabfac484efe37a5380ee9088f7ace2efcde9"
    );
}

#[test]
fn sha512_digest_of_known_input() {
    let data = b"hello world".to_vec();
    let hash = digest::hex_digest("sha512", &data).unwrap();
    assert_eq!(
        hash,
        "309ecc489c12d6eb4cc40f50c902f2b4d0ed77ee511a7c7a9bcd3ca86d4cd86f989dd35bc5ff499670da34255b45b0cfd830e81f605dcf7dc5542e93ae9cd76f"
    );
}

#[test]
fn unknown_method_has_no_digest() {
    let data = b"abc".to_vec();
    assert!(digest::hex_digest("md5", &data).is_none());
}

#[test]
fn checksum_match_accepts() {
    let data = b"hello world".to_vec();
    let r = digest::verify_checksum(
        "sha1",
        &data,
        "2aae6c35c94fcfb415dbe95f408b9ce91ee846ed",
    );
    assert!(r.is_ok());
}

#[test]
fn checksum_mismatch_carries_both_digests() {
    let data = b"hello world".to_vec();
    let r = digest::verify_checksum("sha1", &data, "deadbeef");
    match r {
        Err(Error::ChecksumMismatch { expected, actual }) => {
            assert_eq!(expected, "deadbeef");
            assert_eq!(actual, "2aae6c35c94fcfb415dbe95f408b9ce91ee846ed");
        }
        _ => panic!("expected a checksum mismatch"),
    }
}
