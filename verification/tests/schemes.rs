use htpasswd_verify::error::HtpasswdError;
use htpasswd_verify::{
    parse_hash_entry, salt_in_range, sha1_matches, verdict_of_bcrypt, MD5Hash, BCRYPT_ID,
    SHA1_ID,
};

const BCRYPT_HASH: &str = "$2y$05$nC6nErr9XZJuMJ57WyCob.EuZEjylDt2KaHfbfOtyb.EgL1I2jCVa";

const SHA1_OF_PASSWORD: [u8; 20] = [
    0x5b, 0xaa, 0x61, 0xe4, 0xc9, 0xb9, 0x3f, 0x3f, 0x06, 0x82, 0x25, 0x0b, 0x6c, 0xf8, 0x33, 0x1b,
    0x7e, 0xe6, 0x8f, 0xd8,
];

#[test]
fn markers() {
    assert_eq!(BCRYPT_ID, "$2y$");
    assert_eq!(SHA1_ID, "{SHA}");
}

#[test]
fn parse_md5() {
    let hash = htpasswd_verify::Hash::parse("$apr1$lZL6V/ci$eIMz/iKDkbtys/uU7LEK00").unwrap();
    assert!(matches!(
        hash,
        htpasswd_verify::Hash::MD5(MD5Hash {
            salt: "lZL6V/ci",
            hash: "eIMz/iKDkbtys/uU7LEK00"
        })
    ));
}

#[test]
fn parse_md5_counts_characters() {
    let hash = htpasswd_verify::Hash::parse("$apr1$äöüäöüäö$ß").unwrap();
    assert!(matches!(
        hash,
        htpasswd_verify::Hash::MD5(MD5Hash {
            salt: "äöüäöüäö",
            hash: "ß"
        })
    ));
}

#[test]
fn parse_md5_too_short() {
    for text in ["$apr1$", "$apr1$salt", "$apr1$12345678"] {
        assert!(matches!(
            htpasswd_verify::Hash::parse(text),
            Err(HtpasswdError::MalformedHash)
        ));
    }
    assert!(matches!(
        htpasswd_verify::Hash::parse("$apr1$12345678$"),
        Ok(htpasswd_verify::Hash::MD5(MD5Hash {
            salt: "12345678",
            hash: ""
        }))
    ));
}

#[test]
fn parse_bcrypt_keeps_whole_string() {
    assert!(matches!(
        htpasswd_verify::Hash::parse(BCRYPT_HASH),
        Ok(htpasswd_verify::Hash::BCrypt(BCRYPT_HASH))
    ));
    assert!(matches!(
        htpasswd_verify::Hash::parse("$2y$"),
        Ok(htpasswd_verify::Hash::BCrypt("$2y$"))
    ));
}

#[test]
fn parse_sha1_drops_marker() {
    assert!(matches!(
        htpasswd_verify::Hash::parse("{SHA}W6ph5Mm5Pz8GgiULbPgzG37mj9g="),
        Ok(htpasswd_verify::Hash::SHA1("W6ph5Mm5Pz8GgiULbPgzG37mj9g="))
    ));
    assert!(matches!(
        htpasswd_verify::Hash::parse("{SHA}"),
        Ok(htpasswd_verify::Hash::SHA1(""))
    ));
}

#[test]
fn parse_falls_back_to_crypt() {
    for text in [
        "bGVh02xkuGli2",
        "",
        "plaintext",
        "$apr",
        "$2a$05$abc",
        "{sha}abc",
        " $apr1$12345678$x",
    ] {
        match htpasswd_verify::Hash::parse(text) {
            Ok(htpasswd_verify::Hash::Crypt(raw)) => assert_eq!(raw, text),
            other => panic!("{:?}", other),
        }
    }
}

#[test]
fn check_md5() {
    let hash = htpasswd_verify::Hash::parse("$apr1$lZL6V/ci$eIMz/iKDkbtys/uU7LEK00").unwrap();
    assert_eq!(hash.check("password"), Ok(true));
    assert_eq!(hash.check("passwort"), Ok(false));
    assert_eq!(hash.check(""), Ok(false));
}

#[test]
fn check_bcrypt() {
    let hash = htpasswd_verify::Hash::parse(BCRYPT_HASH).unwrap();
    assert_eq!(hash.check("password"), Ok(true));
    assert_eq!(hash.check("passwort"), Ok(false));
}

#[test]
fn check_bcrypt_malformed_is_a_fault() {
    for text in ["$2y$", "$2y$05$tooshort", "$2y$xx$nC6nErr9XZJuMJ57WyCob.EuZEjylDt2KaHfbfOtyb.EgL1I2jCVa"] {
        let hash = htpasswd_verify::Hash::parse(text).unwrap();
        assert_eq!(
            hash.check("password"),
            Err(HtpasswdError::VerificationError)
        );
    }
}

#[test]
fn check_sha1() {
    let hash = htpasswd_verify::Hash::parse("{SHA}W6ph5Mm5Pz8GgiULbPgzG37mj9g=").unwrap();
    assert_eq!(hash.check("password"), Ok(true));
    assert_eq!(hash.check("passwort"), Ok(false));
    let changed = htpasswd_verify::Hash::parse("{SHA}W6ph5Mm5Pz8GgiULbPgzG37mj9h=").unwrap();
    assert_eq!(changed.check("password"), Ok(false));
    let unpadded = htpasswd_verify::Hash::parse("{SHA}W6ph5Mm5Pz8GgiULbPgzG37mj9g").unwrap();
    assert_eq!(unpadded.check("password"), Ok(false));
}

#[test]
fn check_crypt() {
    let hash = htpasswd_verify::Hash::parse("bGVh02xkuGli2").unwrap();
    assert_eq!(hash.check("password"), Ok(true));
    assert_eq!(hash.check("passwort"), Ok(false));
    let changed = htpasswd_verify::Hash::parse("bGVh02xkuGli3").unwrap();
    assert_eq!(changed.check("password"), Ok(false));
}

#[test]
fn check_crypt_refuses_what_is_no_hash() {
    for text in [
        "",
        "b",
        "!!",
        "plaintext",
        "\u{1}Gxyz",
        "b\u{1f}xyz",
        "\t",
        "é\u{0}",
        "\u{80}Gxyz",
        "b\u{80}xyz",
        "\u{80}",
        "ébVh02xkuGli2",
    ] {
        let hash = htpasswd_verify::Hash::parse(text).unwrap();
        assert_eq!(hash.check("password"), Ok(false));
    }
}

#[test]
fn salt_characters() {
    assert!(salt_in_range(""));
    assert!(salt_in_range("b"));
    assert!(salt_in_range("bG"));
    assert!(salt_in_range("  "));
    assert!(salt_in_range("~\u{7f}"));
    assert!(salt_in_range("bG\u{1}"));
    assert!(salt_in_range("bGé"));
    assert!(!salt_in_range("\u{1}"));
    assert!(!salt_in_range("\u{1f}G"));
    assert!(!salt_in_range("b\n"));
    assert!(!salt_in_range("b\u{0}Vh02"));
    assert!(!salt_in_range("\u{80}G"));
    assert!(!salt_in_range("b\u{80}"));
    assert!(!salt_in_range("éé"));
}

#[test]
fn sha1_digest_against_stored_text() {
    assert!(sha1_matches(
        &SHA1_OF_PASSWORD,
        "W6ph5Mm5Pz8GgiULbPgzG37mj9g="
    ));
    assert!(!sha1_matches(
        &SHA1_OF_PASSWORD,
        "W6ph5Mm5Pz8GgiULbPgzG37mj9g"
    ));
    assert!(!sha1_matches(&SHA1_OF_PASSWORD, ""));
    let counting: Vec<u8> = (0..20).collect();
    let counting: [u8; 20] = counting.try_into().unwrap();
    assert!(sha1_matches(&counting, "AAECAwQFBgcICQoLDA0ODxAREhM="));
    let mut high = [0u8; 20];
    high[0] = 0xfb;
    high[1] = 0xff;
    high[2] = 0xfe;
    assert!(sha1_matches(&high, "+//+AAAAAAAAAAAAAAAAAAAAAAA="));
}

#[test]
fn bcrypt_outcomes() {
    assert_eq!(verdict_of_bcrypt(Ok(true)), Ok(true));
    assert_eq!(verdict_of_bcrypt(Ok(false)), Ok(false));
    assert_eq!(
        verdict_of_bcrypt(Err(bcrypt::BcryptError::InvalidHash("no hash"))),
        Err(HtpasswdError::VerificationError)
    );
    assert_eq!(
        verdict_of_bcrypt(Err(bcrypt::BcryptError::CostNotAllowed(99))),
        Err(HtpasswdError::VerificationError)
    );
}

#[test]
fn entry_is_cut_at_first_colon() {
    match parse_hash_entry("user:name:{SHA}abc") {
        Ok(Some((user, htpasswd_verify::Hash::Crypt(raw)))) => {
            assert_eq!(user, "user");
            assert_eq!(raw, "name:{SHA}abc");
        }
        other => panic!("{:?}", other),
    }
    match parse_hash_entry("üser:{SHA}abc") {
        Ok(Some((user, htpasswd_verify::Hash::SHA1(raw)))) => {
            assert_eq!(user, "üser");
            assert_eq!(raw, "abc");
        }
        other => panic!("{:?}", other),
    }
    match parse_hash_entry(":") {
        Ok(Some((user, htpasswd_verify::Hash::Crypt(raw)))) => {
            assert_eq!(user, "");
            assert_eq!(raw, "");
        }
        other => panic!("{:?}", other),
    }
}

#[test]
fn entry_without_colon_is_none() {
    assert!(matches!(parse_hash_entry(""), Ok(None)));
    assert!(matches!(parse_hash_entry("no separator"), Ok(None)));
    assert!(matches!(parse_hash_entry("$apr1$short"), Ok(None)));
}

#[test]
fn entry_with_malformed_hash_is_a_fault() {
    assert!(matches!(
        parse_hash_entry("user:$apr1$short"),
        Err(HtpasswdError::MalformedHash)
    ));
}

#[test]
fn error_messages() {
    assert_eq!(HtpasswdError::MalformedHash.message(), "malformed hash");
    assert_eq!(
        HtpasswdError::VerificationError.message(),
        "verification error"
    );
    assert_ne!(
        HtpasswdError::MalformedHash,
        HtpasswdError::VerificationError
    );
}
