use outpack::hash::{
    hash_data, hash_from_digest, parse_algorithm, parse_hash, validate_hash, validate_hash_data, validate_hash_file,
    HashAlgorithm, HashValidateErr, ParseHashAlgorithmErr, ParseHashErr,
};

#[test]
fn can_deparse_hash_algorithm() {
    assert_eq!(HashAlgorithm::Md5.to_string(), "md5");
    assert_eq!(HashAlgorithm::Sha1.to_string(), "sha1");
    assert_eq!(HashAlgorithm::Sha256.to_string(), "sha256");
    assert_eq!(HashAlgorithm::Sha384.to_string(), "sha384");
    assert_eq!(HashAlgorithm::Sha512.to_string(), "sha512");
}

#[test]
fn can_parse_hash_algorithm() {
    assert_eq!("md5".parse(), Ok(HashAlgorithm::Md5));
    assert_eq!("sha1".parse(), Ok(HashAlgorithm::Sha1));
    assert_eq!("sha256".parse(), Ok(HashAlgorithm::Sha256));
    assert_eq!("sha384".parse(), Ok(HashAlgorithm::Sha384));
    assert_eq!("sha512".parse(), Ok(HashAlgorithm::Sha512));
    assert_eq!("sha3-256".parse::<HashAlgorithm>(), Err(ParseHashAlgorithmErr));
}

#[test]
fn can_deparse_hash() {
    let h = outpack::hash::Hash { algorithm: HashAlgorithm::Md5, value: String::from("123") };
    assert_eq!(h.to_string(), "md5:123");
}

#[test]
fn can_parse_hash() {
    assert_eq!(
        "md5:1234".parse(),
        Ok(outpack::hash::Hash { algorithm: HashAlgorithm::Md5, value: String::from("1234") })
    );
    assert_eq!(
        " sha256:abcde".parse(),
        Ok(outpack::hash::Hash { algorithm: HashAlgorithm::Sha256, value: String::from("abcde") })
    );
    assert_eq!("md51234".parse::<outpack::hash::Hash>(), Err(ParseHashErr::InvalidFormat));
    assert_eq!("sha666:1234".parse::<outpack::hash::Hash>(), Err(ParseHashErr::InvalidAlgorithm));
}

#[test]
fn can_hash_simple_data() {
    let data = b"1234";
    let expect_md5 = "md5:81dc9bdb52d04dc20036dbd8313ed055";
    let expect_sha1 = "sha1:7110eda4d09e062aa5e4a390b0a572ac0d2c0220";
    let expect_sha256 =
        "sha256:03ac674216f3e15c761ee1a5e255f067953623c8b388b4459e13f978d7c846f4";
    let expect_sha384 = "sha384:504f008c8fcf8b2ed5dfcde752fc5464ab8ba064215d9c5b5fc486af3d9ab8c81b14785180d2ad7cee1ab792ad44798c";
    let expect_sha512 = "sha512:d404559f602eab6fd602ac7680dacbfaadd13630335e951f097af3900e9de176b6db28512f2e000b9d04fba5133e8b1c6e8df59db3a8ab9d60be4b97cc9e81db";
    assert_eq!(hash_data(data, HashAlgorithm::Md5), expect_md5.parse::<outpack::hash::Hash>().unwrap());
    assert_eq!(hash_data(data, HashAlgorithm::Sha1), expect_sha1.parse::<outpack::hash::Hash>().unwrap());
    assert_eq!(hash_data(data, HashAlgorithm::Sha256), expect_sha256.parse::<outpack::hash::Hash>().unwrap());
    assert_eq!(hash_data(data, HashAlgorithm::Sha384), expect_sha384.parse::<outpack::hash::Hash>().unwrap());
    assert_eq!(hash_data(data, HashAlgorithm::Sha512), expect_sha512.parse::<outpack::hash::Hash>().unwrap());
}

#[test]
fn md5_of_1234_has_known_text() {
    assert_eq!(
        hash_data(b"1234", HashAlgorithm::Md5).to_string(),
        "md5:81dc9bdb52d04dc20036dbd8313ed055"
    );
}

#[test]
fn sha256_of_1234_has_known_text() {
    assert_eq!(
        hash_data(b"1234", HashAlgorithm::Sha256).to_string(),
        "sha256:03ac674216f3e15c761ee1a5e255f067953623c8b388b4459e13f978d7c846f4"
    );
}

#[test]
fn hash_text_reads_back_as_the_same_hash() {
    for alg in [
        HashAlgorithm::Md5,
        HashAlgorithm::Sha1,
        HashAlgorithm::Sha256,
        HashAlgorithm::Sha384,
        HashAlgorithm::Sha512,
    ] {
        let h = hash_data(b"some bytes", alg);
        assert_eq!(parse_hash(&h.to_string()), Ok(h.clone()));
    }
    let empty = hash_data(b"", HashAlgorithm::Sha1);
    assert_eq!(empty.to_string(), "sha1:da39a3ee5e6b4b0d3255bfef95601890afd80709");
    assert_eq!(parse_hash(&empty.to_string()), Ok(empty));
}

#[test]
fn parse_hash_rejects_malformed_text() {
    assert_eq!(parse_hash(""), Err(ParseHashErr::InvalidFormat));
    assert_eq!(parse_hash("md5:"), Err(ParseHashErr::InvalidFormat));
    assert_eq!(parse_hash(":1234"), Err(ParseHashErr::InvalidFormat));
    assert_eq!(parse_hash("md5:12g4"), Err(ParseHashErr::InvalidFormat));
    assert_eq!(parse_hash("md5 :1234"), Err(ParseHashErr::InvalidFormat));
    assert_eq!(
        parse_hash("\tmd5:ABCD \n"),
        Ok(outpack::hash::Hash { algorithm: HashAlgorithm::Md5, value: String::from("ABCD") })
    );
    assert_eq!(parse_algorithm("MD5"), Err(ParseHashAlgorithmErr));
}

#[test]
fn can_validate_hash() {
    let expect_md5 = "md5:81dc9bdb52d04dc20036dbd8313ed055";
    assert_eq!(validate_hash_data(b"1234", &expect_md5), Ok(()));
    assert_eq!(validate_hash_data(b"12345", expect_md5), Err(HashValidateErr::HashesDontMatch));
}

#[test]
fn validate_reports_each_error() {
    assert_eq!(validate_hash_data(b"1234", "nonsense"), Err(HashValidateErr::InvalidExpectedHash));
    let a = outpack::hash::Hash { algorithm: HashAlgorithm::Md5, value: String::from("ab") };
    let b = outpack::hash::Hash { algorithm: HashAlgorithm::Sha1, value: String::from("ab") };
    assert_eq!(validate_hash(&a, &a.clone()), Ok(()));
    assert_eq!(validate_hash(&a, &b), Err(HashValidateErr::HashesDontMatch));
}

#[test]
fn can_validate_file() {
    let contents = b"Hello World!";
    let expected = "sha1:2ef7bde608ce5404e97d5f042f95f89f1c232871";
    let unexpected = "sha1:2ef7bde608ce5404e97d5f042f95f89f1c232872";
    assert_eq!(validate_hash_file(Some(&contents[..]), expected), Ok(()));
    assert_eq!(
        validate_hash_file(Some(&contents[..]), unexpected),
        Err(HashValidateErr::HashesDontMatch)
    );
    assert_eq!(validate_hash_file(None, expected), Err(HashValidateErr::FileReadFailed));
    assert_eq!(validate_hash_file(None, "bad"), Err(HashValidateErr::InvalidExpectedHash));
}

#[test]
fn digest_bytes_become_lowercase_hex() {
    let h = hash_from_digest(HashAlgorithm::Md5, &vec![0x81, 0xdc, 0x0f, 0xa0]);
    assert_eq!(h.to_string(), "md5:81dc0fa0");
    assert_eq!(hash_from_digest(HashAlgorithm::Sha1, &vec![]).value, "");
}

#[test]
fn unicode_white_space_around_hash_is_ignored() {
    assert_eq!(
        parse_hash("\u{a0}md5:12\u{3000}"),
        Ok(outpack::hash::Hash { algorithm: HashAlgorithm::Md5, value: String::from("12") })
    );
    assert_eq!(
        parse_hash("\u{2003}sha1:ab\u{85}"),
        Ok(outpack::hash::Hash { algorithm: HashAlgorithm::Sha1, value: String::from("ab") })
    );
    assert_eq!(parse_hash("md5:\u{a0}12"), Err(ParseHashErr::InvalidFormat));
}
