use akashi::ids::{
    drawn_id, edit_token, hmac32, id_from_bytes, random_id, verify_edit_token, work_identity,
};

#[test]
fn code_of_a_known_message() {
    let code = hmac32("Jefe", "what do ya want for nothing?");
    assert_eq!(
        hex::encode(code),
        "5bdcc146bf60754e6a042426089575c75a003f089d2739839dec58b964ec3843"
    );
}

#[test]
fn token_of_a_known_work() {
    assert_eq!(
        edit_token("secret", "work1"),
        "79df5f6e26d131a900efa39806c6c2ec5b65c992855a64bb122640fa29e1fae1"
    );
}

#[test]
fn token_accepts_itself_and_nothing_else() {
    let token = edit_token("secret", "work1");
    assert!(verify_edit_token("secret", "work1", &token));
    assert!(!verify_edit_token("secret", "work2", &token));
    assert!(!verify_edit_token("other", "work1", &token));
    assert!(!verify_edit_token("secret", "work1", ""));
    assert!(!verify_edit_token("secret", "work1", &token[..63]));
    assert!(!verify_edit_token("secret", "work1", &token.to_uppercase()));
    let longer = format!("{token}0");
    assert!(!verify_edit_token("secret", "work1", &longer));
    // one wrong digit, first and last
    let first = format!("8{}", &token[1..]);
    let last = format!("{}0", &token[..63]);
    assert!(!verify_edit_token("secret", "work1", &first));
    assert!(!verify_edit_token("secret", "work1", &last));
}

#[test]
fn identity_is_derived_from_secret_and_work() {
    let a = work_identity("master", "work1");
    assert_eq!(a.seed, hmac32("master", "work1"));
    assert_eq!(a.seed, work_identity("master", "work1").seed);
    assert_ne!(a.seed, work_identity("master", "work2").seed);
    assert_ne!(a.seed, work_identity("other", "work1").seed);
}

#[test]
fn ids_of_known_bytes() {
    let ascending: [u8; 16] = [0, 1, 2, 3, 4, 5, 6, 7, 8, 9, 10, 11, 12, 13, 14, 15];
    assert_eq!(id_from_bytes(&ascending), "12drXXUifSrRnXLGbXg8E");
    assert_eq!(id_from_bytes(&[255u8; 16]), "YcVfxkQb6JRzqk5kF2tNLv");
    assert_eq!(id_from_bytes(&[0u8; 16]), "1111111111111111");
}

#[test]
fn ids_have_16_to_22_characters_and_give_their_bytes_back() {
    let mut bytes = [0u8; 16];
    for step in 0..=16usize {
        let id = id_from_bytes(&bytes);
        assert!((16..=22).contains(&id.len()));
        assert_eq!(bs58::decode(&id).into_vec().unwrap(), bytes.to_vec());
        if step < 16 {
            bytes[15 - step] = 200 + step as u8;
        }
    }
}

#[test]
fn id_of_what_was_drawn() {
    assert_eq!(drawn_id(Some([255u8; 16])).as_deref(), Some("YcVfxkQb6JRzqk5kF2tNLv"));
    assert_eq!(drawn_id(None), None);
}

#[test]
fn random_ids_are_base58_of_sixteen_bytes() {
    let a = random_id().unwrap();
    let b = random_id().unwrap();
    assert_ne!(a, b);
    for id in [a, b] {
        assert_eq!(bs58::decode(&id).into_vec().unwrap().len(), 16);
        assert!(id.chars().all(|c| c.is_ascii_alphanumeric() && !"0OIl".contains(c)));
    }
}
