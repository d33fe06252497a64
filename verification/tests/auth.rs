//! Keys, tokens and the pairing of the first client.
use board_api::auth::{
    constant_time_equal, generate_pair_code, hash, hex, mint_stored_key, stored_key, AuthManager,
    AuthStore, StoredKey, PAIR_CODE_BYTES, TOKEN_BYTES,
};
use board_api::hostdoc::{
    clear_pair_block, pair_notice, pair_qr, render_pair_qr, replace_pair_block, write_pair_block,
};

const ID: u128 = 0x0102_0304_0506_4708_890a_0b0c_0d0e_0f10;

fn opened(now: i64) -> (AuthManager, String) {
    let (manager, code) =
        AuthManager::open(None, Ok([0, 1, 2, 3, 31, 32, 255, 24]), ID, now).unwrap();
    (manager, code.unwrap())
}

#[test]
fn stored_key_contains_hash_not_token() {
    let (stored, token) = mint_stored_key(&[7; 32]);
    let serialized = serde_json::Value::Object(serde_json::Map::from_iter([
        ("id".to_string(), serde_json::Value::from(stored.id.as_str())),
        ("sha256".to_string(), serde_json::Value::from(stored.sha256.as_str())),
        ("createdAt".to_string(), serde_json::Value::from(stored.created_at.as_str())),
    ]))
    .to_string();
    assert!(token.starts_with("board_"));
    assert!(!serialized.contains(&token));
    assert_eq!(stored.sha256.len(), 64);
}

#[test]
fn keys_are_made_of_random_bytes() {
    let mut random = [0; TOKEN_BYTES];
    random[29..].copy_from_slice(&[15, 16, 255]);
    let (stored, token) = stored_key(&random, ID, "now".to_string());
    assert_eq!(token, format!("board_{}0f10ff", "0".repeat(58)));
    assert_eq!(token.len(), 70);
    assert_eq!(stored.id, "01020304-0506-4708-890a-0b0c0d0e0f10");
    assert_eq!(stored.sha256, hash(&token));
    assert_eq!(stored.created_at, "now");
    let (first, _) = mint_stored_key(&[1; 32]);
    let (second, _) = mint_stored_key(&[1; 32]);
    assert_ne!(first.id, second.id);
    assert_eq!(first.sha256, second.sha256);
}

#[test]
fn hashes_are_sha_256_in_hexadecimal() {
    assert_eq!(hash("abc"), "ba7816bf8f01cfea414140de5dae2223b00361a396177a9cb410ff61f20015ad");
    assert_eq!(hash(""), "e3b0c44298fc1c149afbf4c8996fb92427ae41e4649b934ca495991b7852b855");
    assert_eq!(hex(&[0x00, 0xab, 0x9f]), "00ab9f");
}

#[test]
fn pair_codes_are_eight_safe_characters() {
    let code = generate_pair_code(&[200, 3, 77, 140, 9, 31, 32, 255]);
    assert_eq!(code.len(), 8);
    assert!(code
        .chars()
        .all(|character| character.is_ascii_alphanumeric()));
}

#[test]
fn pair_codes_take_one_character_for_each_byte() {
    assert_eq!(generate_pair_code(&[0, 1, 23, 24, 31, 32, 255, 2]), "ABZ29A9C");
}

#[test]
fn bytes_are_compared_whole() {
    assert!(constant_time_equal(b"abc", b"abc"));
    assert!(!constant_time_equal(b"abc", b"abd"));
    assert!(!constant_time_equal(b"abc", b"ab"));
    assert!(constant_time_equal(b"", b""));
    assert!(!constant_time_equal(&[0x81], &[0x01]));
}

#[test]
fn pairing_qr_is_terminal_sized_and_deterministic() {
    let first = render_pair_qr("ABCDEFGH").unwrap();
    let second = render_pair_qr("ABCDEFGH").unwrap();
    let lines = first.lines().collect::<Vec<_>>();

    assert_eq!(first, second);
    assert!(lines.len() >= 10);
    assert!(lines
        .iter()
        .all(|line| line.chars().count() == lines[0].chars().count()));
    assert!(first.contains('█'));
    assert!(first.contains(' '));
}

#[test]
fn codes_that_do_not_fit_are_an_error() {
    let error = render_pair_qr(&"x".repeat(10_000)).unwrap_err();
    assert!(error.starts_with("cannot encode pairing QR code: "));
    assert_eq!(
        pair_qr(Err("too long".to_string())),
        Err("cannot encode pairing QR code: too long".to_string())
    );
    assert_eq!(pair_qr(Ok("drawing".to_string())), Ok("drawing".to_string()));
}

#[test]
fn host_document_shows_code_and_qr() {
    let qr = render_pair_qr("ABCDEFGH").unwrap();
    let host = write_pair_block("", "ABCDEFGH", 1_800_000_000, &qr);

    assert!(host.starts_with("# board host\n\n<!-- board-api-pair:start -->\n"));
    assert!(host.contains("Pair code: `ABCDEFGH`"));
    assert!(host.contains("Scan this QR code"));
    assert!(host.contains(&qr));
    assert!(host.contains("Expires: `2027-01-15T08:00:00Z`"));
    assert!(host.ends_with("<!-- board-api-pair:end -->\n"));
}

#[test]
fn the_host_document_holds_one_block() {
    let document = "# Host\n\ntext  \n";
    let shown = write_pair_block(document, "ABCDEFGH", 1_800_000_000, "qr");
    assert!(shown.starts_with("# Host\n\ntext\n\n<!-- board-api-pair:start -->"));
    let cleared = clear_pair_block(&shown, "gone");
    assert_eq!(
        cleared,
        "# Host\n\ntext\n\n<!-- board-api-pair:start -->\n## Current pairing\n\ngone\n<!-- board-api-pair:end -->\n"
    );
    assert_eq!(cleared, clear_pair_block(document, "gone"));
    assert_eq!(
        replace_pair_block("a<!-- board-api-pair:start -->b<!-- board-api-pair:end -->c", "X"),
        "aXc"
    );
}

#[test]
fn a_new_store_has_a_code() {
    let (manager, code) = opened(1_000);
    assert_eq!(code, "ABCD9A92");
    assert_eq!(manager.server_id(), "01020304-0506-4708-890a-0b0c0d0e0f10");
    let challenge = manager.store.pair.as_ref().unwrap();
    assert_eq!(challenge.expires_at_epoch, 1_900);
    assert_eq!(challenge.sha256, hash("ABCD9A92"));
    let failed = AuthManager::open(None, Err("no bytes".to_string()), ID, 0);
    assert_eq!(failed.err(), Some("no bytes".to_string()));
    let (late, _) = AuthManager::open(None, Ok([1; PAIR_CODE_BYTES]), ID, i64::MAX).unwrap();
    assert_eq!(late.store.pair.unwrap().expires_at_epoch, i64::MAX);
}

#[test]
fn linked_stores_get_no_code() {
    let store = AuthStore {
        server_id: "server".to_string(),
        keys: vec![StoredKey {
            id: "key".to_string(),
            sha256: "hash".to_string(),
            created_at: "then".to_string(),
        }],
        pair: None,
    };
    let (manager, code) = AuthManager::load_or_create(Some(store), Err("unused".to_string())).unwrap();
    assert!(code.is_none());
    assert!(manager.store.pair.is_none());
    assert_eq!(manager.server_id(), "server");
}

#[test]
fn unused_codes_stay_until_they_expire() {
    let (manager, _) = opened(1_000);
    let (kept, code) =
        AuthManager::open(Some(manager.store), Ok([5; PAIR_CODE_BYTES]), ID + 1, 1_899).unwrap();
    assert!(code.is_none());
    let (_, code) = AuthManager::open(Some(kept.store), Ok([5; PAIR_CODE_BYTES]), ID + 1, 1_900).unwrap();
    assert_eq!(code, Some("FFFFFFFF".to_string()));
}

#[test]
fn a_code_links_one_client() {
    let (mut manager, code) = opened(1_000);
    let typed = format!("  {} ", code.to_lowercase());
    let answer = manager.pair_at(
        &typed,
        "http://host".to_string(),
        Ok([9; TOKEN_BYTES]),
        1_899,
        ID,
        "then".to_string(),
    );
    assert_eq!(
        pair_notice(&answer),
        Some("Pair code consumed; no active one-time code.")
    );
    let response = answer.ok().unwrap();
    assert_eq!(response.name, "board");
    assert_eq!(response.base_url, "http://host");
    assert_eq!(response.server_id, manager.server_id());
    assert!(manager.authorize(&response.token));
    assert!(!manager.authorize(&response.token.to_uppercase()));

    let again = manager.pair(&code, "http://host".to_string(), Ok([8; TOKEN_BYTES]));
    assert_eq!(pair_notice(&again), None);
    let error = again.err().unwrap();
    assert_eq!(error.status, 409);
    assert_eq!(error.code, "pairing_unavailable");
    assert_eq!(manager.store.keys.len(), 1);
}

#[test]
fn pairing_fails_without_the_code() {
    let (mut manager, code) = opened(1_000);
    let wrong = manager.pair_at("WRONG", String::new(), Ok([1; TOKEN_BYTES]), 1_000, ID, String::new());
    let error = wrong.err().unwrap();
    assert_eq!((error.status, error.code), (401, "unauthorized"));

    let late = manager.pair_at(&code, String::new(), Ok([1; TOKEN_BYTES]), 1_900, ID, String::new());
    assert_eq!(
        pair_notice(&late),
        Some("Pair code expired. Restart board-api to mint another.")
    );
    let error = late.err().unwrap();
    assert_eq!((error.status, error.code), (410, "pairing_expired"));

    let dry = manager.pair_at(&code, String::new(), Err("no bytes".to_string()), 1, ID, String::new());
    let error = dry.err().unwrap();
    assert_eq!((error.status, error.message.as_str()), (500, "no bytes"));
    assert!(manager.store.keys.is_empty());
    assert!(manager.store.pair.is_some());
}

#[test]
fn keys_can_be_minted_and_revoked() {
    let (mut manager, _) = opened(0);
    let first = manager.mint_key(Ok([1; TOKEN_BYTES])).ok().unwrap();
    let second = manager.mint_key_at(Ok([2; TOKEN_BYTES]), ID, "t".to_string()).ok().unwrap();
    assert!(manager.authorize(&first.token));
    assert!(manager.authorize(&second.token));
    assert!(manager.mint_key(Err("no bytes".to_string())).is_err());

    assert!(manager.revoke(&first.id).is_ok());
    assert!(!manager.authorize(&first.token));
    assert!(manager.authorize(&second.token));
    let error = manager.revoke(&first.id).err().unwrap();
    assert_eq!((error.status, error.message.as_str()), (404, "key not found"));
}

#[test]
fn headers_carry_tokens() {
    let (mut manager, _) = opened(0);
    let key = manager.mint_key(Ok([1; TOKEN_BYTES])).ok().unwrap();
    let header = format!("Bearer {}", key.token);
    assert!(manager.check_header(Some(&header)).is_ok());
    assert!(manager.check_header(Some(&key.token)).is_err());
    assert!(manager.check_header(Some("Bearer board_short")).is_err());
    assert!(manager.check_header(Some("bearer x")).is_err());
    let error = manager.check_header(None).err().unwrap();
    assert_eq!((error.status, error.code), (401, "unauthorized"));
}

#[test]
fn short_and_foreign_tokens_are_refused() {
    let enough = "board_".to_string() + &"1".repeat(14);
    let short = "board_".to_string() + &"1".repeat(13);
    let wide = "board_".to_string() + &"\u{e9}".repeat(7);
    let foreign = "plank_".to_string() + &"1".repeat(64);
    let key = |token: &str| StoredKey {
        id: token.to_string(),
        sha256: hash(token),
        created_at: "then".to_string(),
    };
    let store = AuthStore {
        server_id: "server".to_string(),
        keys: vec![key(&enough), key(&short), key(&wide), key(&foreign)],
        pair: None,
    };
    let (manager, _) = AuthManager::load_or_create(Some(store), Err("unused".to_string())).unwrap();
    assert!(manager.authorize(&enough));
    assert!(manager.authorize(&wide));
    assert!(!manager.authorize(&short));
    assert!(!manager.authorize(&foreign));
}

#[test]
fn a_token_works_until_its_key_is_revoked() {
    let (mut manager, _) = opened(0);
    let first = manager.mint_key(Ok([1; TOKEN_BYTES])).ok().unwrap();
    for byte in 2..6 {
        let other = manager.mint_key(Ok([byte; TOKEN_BYTES])).ok().unwrap();
        assert!(manager.revoke(&other.id).is_ok());
        assert!(!manager.authorize(&other.token));
        assert!(manager.authorize(&first.token));
    }
    let last = manager.mint_key(Ok([9; TOKEN_BYTES])).ok().unwrap();
    assert!(manager.revoke(&first.id).is_ok());
    assert!(!manager.authorize(&first.token));
    assert!(manager.authorize(&last.token));
    manager.mint_key(Ok([10; TOKEN_BYTES])).ok().unwrap();
    assert!(manager.revoke(&last.id).is_ok());
    assert!(!manager.authorize(&first.token));
}

#[test]
fn a_used_code_stays_used() {
    let (mut manager, code) = opened(1_000);
    let linked = manager.pair_at(
        &code,
        String::new(),
        Ok([1; TOKEN_BYTES]),
        1_001,
        ID,
        "then".to_string(),
    );
    assert!(linked.is_ok());
    let minted = manager.mint_key(Ok([2; TOKEN_BYTES])).ok().unwrap();
    assert!(manager.revoke(&minted.id).is_ok());
    let own = manager.store.keys[0].id.clone();
    assert!(manager.revoke(&own).is_ok());
    let again = manager.pair_at(
        &code,
        String::new(),
        Ok([3; TOKEN_BYTES]),
        1_002,
        ID,
        "then".to_string(),
    );
    let error = again.err().unwrap();
    assert_eq!((error.status, error.code), (409, "pairing_unavailable"));
}
