use creeper::checksum::{blake3, sha1, sha256, Checksum, ChecksumError, HashFunc};

const SHA1_EMPTY: &str = "da39a3ee5e6b4b0d3255bfef95601890afd80709";
const SHA1_ABC: &str = "a9993e364706816aba3e25717850c26c9cd0d89d";
const SHA256_EMPTY: &str = "e3b0c44298fc1c149afbf4c8996fb92427ae41e4649b934ca495991b7852b855";
const SHA256_ABC: &str = "ba7816bf8f01cfea414140de5dae2223b00361a396177a9cb410ff61f20015ad";
const BLAKE3_EMPTY: &str = "af1349b9f5f9a1a6a0404dea36dcc9499bcb25c9adc112b7cc9a93cae41f3262";

#[test]
fn sha1_of_known_inputs() {
    assert_eq!(sha1(b""), SHA1_EMPTY);
    assert_eq!(sha1(b"abc"), SHA1_ABC);
}

#[test]
fn sha256_of_known_inputs() {
    assert_eq!(sha256(b""), SHA256_EMPTY);
    assert_eq!(sha256(b"abc"), SHA256_ABC);
}

#[test]
fn blake3_of_known_inputs() {
    assert_eq!(blake3(b""), BLAKE3_EMPTY);
    assert_eq!(blake3(b"abc"), blake3::hash(b"abc").to_hex().to_string());
    assert_eq!(blake3(b"abc").len(), 64);
    assert_ne!(blake3(b"abc"), blake3(b"abd"));
}

#[test]
fn digests_are_lowercase_hex() {
    for digest in [blake3(b"creeper"), sha1(b"creeper"), sha256(b"creeper")] {
        assert!(digest.chars().all(|c| c.is_ascii_digit() || ('a'..='f').contains(&c)));
    }
    assert_eq!(sha1(b"creeper").len(), 40);
    assert_eq!(sha256(b"creeper").len(), 64);
}

#[test]
fn calc_dispatches_on_the_function() {
    assert_eq!(HashFunc::Blake3.calc(b""), BLAKE3_EMPTY);
    assert_eq!(HashFunc::Sha1.calc(b"abc"), SHA1_ABC);
    assert_eq!(HashFunc::Sha256.calc(b"abc"), SHA256_ABC);
}

#[test]
fn function_names() {
    assert_eq!(HashFunc::Blake3.to_string(), "blake3");
    assert_eq!(HashFunc::Sha1.to_string(), "sha1");
    assert_eq!(HashFunc::Sha256.to_string(), "sha256");
}

#[test]
fn function_from_str() {
    assert_eq!(HashFunc::from_str("blake3"), Ok(HashFunc::Blake3));
    assert_eq!(HashFunc::from_str("sha1"), Ok(HashFunc::Sha1));
    assert_eq!(HashFunc::from_str("sha256"), Ok(HashFunc::Sha256));
    assert_eq!(HashFunc::from_str("md5"), Err(ChecksumError::UnknownFunction));
    assert_eq!(HashFunc::from_str("SHA1"), Err(ChecksumError::UnknownFunction));
    assert_eq!(HashFunc::from_str(""), Err(ChecksumError::UnknownFunction));
}

#[test]
fn function_name_round_trip() {
    for f in [HashFunc::Blake3, HashFunc::Sha1, HashFunc::Sha256] {
        assert_eq!(HashFunc::from_str(&f.to_string()), Ok(f));
    }
}

#[test]
fn checksum_constructors() {
    let c = Checksum::blake3("aa".to_string());
    assert_eq!(c.function, HashFunc::Blake3);
    assert_eq!(c.hex_hash, "aa");
    let c = Checksum::sha1("bb".to_string());
    assert_eq!(c.function, HashFunc::Sha1);
    assert_eq!(c.hex_hash, "bb");
    let c = Checksum::sha256("cc".to_string());
    assert_eq!(c.function, HashFunc::Sha256);
    assert_eq!(c.hex_hash, "cc");
}

#[test]
fn checksum_to_string() {
    assert_eq!(Checksum::sha1(SHA1_ABC.to_string()).to_string(), format!("sha1={SHA1_ABC}"));
    assert_eq!(Checksum::blake3(String::new()).to_string(), "blake3=");
}

#[test]
fn checksum_from_str() {
    let c = Checksum::from_str("sha256=00ff").unwrap();
    assert_eq!(c, Checksum::sha256("00ff".to_string()));
    let c = Checksum::from_str("sha1=a=b").unwrap();
    assert_eq!(c, Checksum::sha1("a=b".to_string()));
    let c = Checksum::from_str("blake3=").unwrap();
    assert_eq!(c, Checksum::blake3(String::new()));
}

#[test]
fn checksum_from_str_errors() {
    assert_eq!(Checksum::from_str("sha1"), Err(ChecksumError::MissingSeparator));
    assert_eq!(Checksum::from_str(""), Err(ChecksumError::MissingSeparator));
    assert_eq!(Checksum::from_str("md5=00"), Err(ChecksumError::UnknownFunction));
    assert_eq!(Checksum::from_str("=00"), Err(ChecksumError::UnknownFunction));
}

#[test]
fn checksum_round_trip() {
    let all = [
        Checksum::blake3(BLAKE3_EMPTY.to_string()),
        Checksum::sha1(SHA1_ABC.to_string()),
        Checksum::sha256(SHA256_ABC.to_string()),
        Checksum::sha1("not hex at all = really".to_string()),
        Checksum::sha256(String::new()),
    ];
    for c in all {
        assert_eq!(Checksum::from_str(&c.to_string()), Ok(c.clone()));
    }
}

#[test]
fn check_compares_in_full() {
    assert!(Checksum::sha1(SHA1_ABC.to_string()).check(b"abc"));
    assert!(!Checksum::sha1(SHA1_ABC.to_string()).check(b"abd"));
    assert!(!Checksum::sha1(SHA1_ABC[..39].to_string()).check(b"abc"));
    assert!(!Checksum::sha1(SHA1_ABC.to_uppercase()).check(b"abc"));
    assert!(Checksum::sha256(SHA256_EMPTY.to_string()).check(b""));
    assert!(Checksum::blake3(BLAKE3_EMPTY.to_string()).check(b""));
    assert!(!Checksum::blake3(SHA256_EMPTY.to_string()).check(b""));
}
