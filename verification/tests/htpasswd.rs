use htpasswd_verify::error::HtpasswdError;
use htpasswd_verify::load;
use htpasswd_verify::md5::{format_hash, md5_apr1_encode, verify_apr1_hash};

static DATA: &str = "user2:$apr1$7/CTEZag$omWmIgXPJYoxB3joyuq4S/
user:$apr1$lZL6V/ci$eIMz/iKDkbtys/uU7LEK00
bcrypt_test:$2y$05$nC6nErr9XZJuMJ57WyCob.EuZEjylDt2KaHfbfOtyb.EgL1I2jCVa
sha1_test:{SHA}W6ph5Mm5Pz8GgiULbPgzG37mj9g=
crypt_test:bGVh02xkuGli2";

#[test]
fn unix_crypt_verify_htpasswd() {
    let htpasswd = load(DATA).unwrap();
    assert_eq!(htpasswd.check("crypt_test", "password").unwrap(), true);
}

#[test]
fn sha1_verify_htpasswd() {
    let htpasswd = load(DATA).unwrap();
    assert_eq!(htpasswd.check("sha1_test", "password").unwrap(), true);
}

#[test]
fn bcrypt_verify_htpasswd() {
    let htpasswd = load(DATA).unwrap();
    assert_eq!(htpasswd.check("bcrypt_test", "password").unwrap(), true);
}

#[test]
fn md5_verify_htpasswd() {
    let htpasswd = load(DATA).unwrap();
    assert_eq!(htpasswd.check("user", "password").unwrap(), true);
    assert_eq!(htpasswd.check("user", "passwort").unwrap(), false);
    assert_eq!(htpasswd.check("user2", "zaq1@WSX").unwrap(), true);
    assert_eq!(htpasswd.check("user2", "ZAQ1@WSX").unwrap(), false);
}

#[test]
fn md5_apr1() {
    assert_eq!(
        format_hash(md5_apr1_encode("password", "xxxxxxxx").as_str(), "xxxxxxxx",),
        "$apr1$xxxxxxxx$dxHfLAsjHkDRmG83UXe8K0".to_string()
    );
}

#[test]
fn apr1() {
    assert!(verify_apr1_hash("$apr1$xxxxxxxx$dxHfLAsjHkDRmG83UXe8K0", "password").unwrap());
}

#[test]
fn user_not_found() {
    let htpasswd = load(DATA).unwrap();
    assert_eq!(
        htpasswd.check("user_does_not_exist", "password").unwrap(),
        false
    );
}

#[test]
fn bcrypt_last_symbol_changed() {
    let text = "u:$2y$05$nC6nErr9XZJuMJ57WyCob.EuZEjylDt2KaHfbfOtyb.EgL1I2jCVb";
    let htpasswd = load(text).unwrap();
    assert_eq!(
        htpasswd.check("u", "password"),
        Err(HtpasswdError::VerificationError)
    );
}

#[test]
fn every_scheme_accepts_and_refuses() {
    let htpasswd = load(DATA).unwrap();
    for user in ["user", "bcrypt_test", "sha1_test", "crypt_test"] {
        assert_eq!(htpasswd.check(user, "password"), Ok(true));
        assert_eq!(htpasswd.check(user, "passwort"), Ok(false));
        assert_eq!(htpasswd.check(user, ""), Ok(false));
    }
}

#[test]
fn unknown_user_is_refused_not_faulted() {
    let htpasswd = load(DATA).unwrap();
    for user in ["", "User", "user ", "user3", "no_such_user"] {
        for password in ["", "password", "zaq1@WSX"] {
            assert_eq!(htpasswd.check(user, password), Ok(false));
        }
    }
    let empty = load("").unwrap();
    assert_eq!(empty.check("user", "password"), Ok(false));
}

#[test]
fn lines_without_colon_add_no_entry() {
    let text = "\n\nuser:$apr1$lZL6V/ci$eIMz/iKDkbtys/uU7LEK00\n\nnot an entry\n# comment\n\n";
    let htpasswd = load(text).unwrap();
    assert_eq!(htpasswd.0.len(), 1);
    assert_eq!(htpasswd.check("user", "password"), Ok(true));
    assert_eq!(htpasswd.check("", "password"), Ok(false));
    assert_eq!(htpasswd.check("not an entry", "password"), Ok(false));
    assert_eq!(load("").unwrap().0.len(), 0);
    assert_eq!(load("\n").unwrap().0.len(), 0);
    assert_eq!(load("no colon").unwrap().0.len(), 0);
}

#[test]
fn later_entry_replaces_earlier() {
    let first_wrong = "a:{SHA}AAAAAAAAAAAAAAAAAAAAAAAAAAA=\na:{SHA}W6ph5Mm5Pz8GgiULbPgzG37mj9g=";
    let store = load(first_wrong).unwrap();
    assert_eq!(store.0.len(), 1);
    assert_eq!(store.check("a", "password"), Ok(true));
    let last_wrong = "a:{SHA}W6ph5Mm5Pz8GgiULbPgzG37mj9g=\nb:x\na:{SHA}AAAAAAAAAAAAAAAAAAAAAAAAAAA=";
    let store = load(last_wrong).unwrap();
    assert_eq!(store.0.len(), 2);
    assert_eq!(store.check("a", "password"), Ok(false));
}

#[test]
fn malformed_md5_line_fails_the_load() {
    assert!(matches!(
        load("user:$apr1$short"),
        Err(HtpasswdError::MalformedHash)
    ));
    assert!(matches!(
        load("a:bGVh02xkuGli2\nuser:$apr1$12345678\nb:bGVh02xkuGli2"),
        Err(HtpasswdError::MalformedHash)
    ));
    assert!(load("user:$apr1$12345678$").is_ok());
}

#[test]
fn user_names_beyond_ascii() {
    let store = load("üser:{SHA}W6ph5Mm5Pz8GgiULbPgzG37mj9g=\nuser:x").unwrap();
    assert_eq!(store.check("üser", "password"), Ok(true));
    assert_eq!(store.check("user", "password"), Ok(false));
}

#[test]
fn carriage_return_stays_in_the_hash() {
    let store = load("user:{SHA}W6ph5Mm5Pz8GgiULbPgzG37mj9g=\r\nother:x").unwrap();
    assert_eq!(store.check("user", "password"), Ok(false));
}

#[test]
fn changed_digest_in_store_is_refused() {
    let stored = "user:$apr1$lZL6V/ci$eIMz/iKDkbtys/uU7LEK00";
    let digest_from = stored.len() - 22;
    for at in digest_from..stored.len() {
        let mut changed: Vec<char> = stored.chars().collect();
        changed[at] = if changed[at] == '0' { '1' } else { '0' };
        let changed: String = changed.into_iter().collect();
        assert_eq!(load(&changed).unwrap().check("user", "password"), Ok(false));
    }
    let sha = "user:{SHA}W6ph5Mm5Pz8GgiULbPgzG37mj9g=";
    for at in 10..sha.len() {
        let mut changed: Vec<char> = sha.chars().collect();
        changed[at] = if changed[at] == '0' { '1' } else { '0' };
        let changed: String = changed.into_iter().collect();
        assert_eq!(load(&changed).unwrap().check("user", "password"), Ok(false));
    }
}
