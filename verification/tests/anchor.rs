use akashi::anchor::{
    blockhash_request, can_send_memo, configured_key, head_hex, memo_message, memo_signature, memo_transaction, ots_check,
    ots_dir, ots_paths, ots_stamp, shortvec_len, solana_key, solana_pubkey_b58, solana_send_memo,
    stamp_plan, CheckRun, RpcReply, SigningKey, StampRun, MEMO_PROGRAM_ID,
};
use akashi::json::{put, Json, Member};
use base64::engine::general_purpose::STANDARD;
use base64::Engine;
use ed25519_dalek::{Signature, Verifier, VerifyingKey};

const SEED: &str = "9d61b19deffd5a60ba844af492ec2cc44449c5697b326919703bac031cae7f60";
const PUBLIC: &str = "d75a980182b10ab7d54bfed3c964073a0ee172f3daa62325af021a68f707511a";
const PROGRAM: &str = "054a535a992921064d24e87160da387c7c35b5ddbc92bb81e41fa8404105448d";

fn key() -> SigningKey {
    solana_key(SEED).unwrap()
}

fn answer(blockhash: Json) -> RpcReply {
    let mut inner: Vec<Member> = Vec::new();
    put(&mut inner, "blockhash", blockhash);
    let mut value: Vec<Member> = Vec::new();
    put(&mut value, "value", Json::object(inner));
    let mut result: Vec<Member> = Vec::new();
    put(&mut result, "result", Json::object(value));
    RpcReply::Answer { value: Json::object(result), text: "{answer}".to_string() }
}

#[test]
fn paths_of_a_stamp() {
    assert_eq!(ots_dir("data"), "data/ots");
    assert_eq!(head_hex("sha256:ab"), "ab");
    assert_eq!(head_hex("ab"), "ab");
    assert_eq!(
        ots_paths("data", "sha256:ab"),
        ("data/ots/ab.head".to_string(), "data/ots/ab.head.ots".to_string())
    );
    let plan = stamp_plan("data", "sha256:ab");
    assert_eq!(plan.dir, "data/ots");
    assert_eq!(plan.head_file, "data/ots/ab.head");
    assert_eq!(plan.proof_file, "data/ots/ab.head.ots");
    assert_eq!(plan.content, "sha256:ab");
}

#[test]
fn outcome_of_a_stamp() {
    let stamp = |run: StampRun| ots_stamp("data", "sha256:ab", run);
    assert_eq!(stamp(StampRun::NoDirectory("denied".to_string())), Err("denied".to_string()));
    assert_eq!(stamp(StampRun::NotWritten("full".to_string())), Err("full".to_string()));
    assert_eq!(
        stamp(StampRun::NotRun("no such file".to_string())),
        Err("ots not available: no such file".to_string())
    );
    assert_eq!(
        stamp(StampRun::Ran { proof_exists: false, stderr: b"no calendar".to_vec() }),
        Err("ots stamp produced no proof: no calendar".to_string())
    );
    assert_eq!(
        stamp(StampRun::Ran { proof_exists: false, stderr: vec![0x66, 0xff, 0x67] }),
        Err("ots stamp produced no proof: f\u{fffd}g".to_string())
    );
    assert_eq!(
        stamp(StampRun::Ran { proof_exists: true, stderr: b"noise".to_vec() }),
        Ok("data/ots/ab.head.ots".to_string())
    );
}

#[test]
fn outcome_of_a_check() {
    assert_eq!(ots_check(CheckRun::NoProof), Err("no ots proof".to_string()));
    assert_eq!(ots_check(CheckRun::NotRun("gone".to_string())), Err("gone".to_string()));
    let pending = b"PendingAttestation('https://calendar')".to_vec();
    assert_eq!(ots_check(CheckRun::Info(pending)), Ok(false));
    let done = b"verify BitcoinBlockHeaderAttestation(800000)".to_vec();
    assert_eq!(ots_check(CheckRun::Info(done)), Ok(true));
    assert_eq!(ots_check(CheckRun::Info(Vec::new())), Ok(false));
}

#[test]
fn lengths_have_one_byte() {
    assert_eq!(shortvec_len(0), vec![0]);
    assert_eq!(shortvec_len(127), vec![127]);
}

#[test]
fn key_from_a_secret() {
    let seed = hex::decode(SEED).unwrap();
    assert_eq!(key().seed.to_vec(), seed);
    let padded = format!("  {}\n", SEED.to_uppercase());
    assert_eq!(solana_key(&padded).unwrap().seed.to_vec(), seed);
}

#[test]
fn key_of_the_configuration() {
    assert!(matches!(configured_key(&None), Ok(None)));
    let found = configured_key(&Some(SEED.to_string())).unwrap().unwrap();
    assert_eq!(found.seed.to_vec(), hex::decode(SEED).unwrap());
    assert_eq!(
        configured_key(&Some("abcd".to_string())).unwrap_err(),
        "SOLANA_SECRET must be 32-byte hex seed, got 2 bytes"
    );
}

#[test]
fn secrets_that_are_no_key() {
    assert_eq!(
        solana_key("abc").unwrap_err(),
        "bad SOLANA_SECRET hex: Odd number of digits"
    );
    assert_eq!(
        solana_key("zz").unwrap_err(),
        "bad SOLANA_SECRET hex: Invalid character 'z' at position 0"
    );
    assert_eq!(
        solana_key("abcd").unwrap_err(),
        "SOLANA_SECRET must be 32-byte hex seed, got 2 bytes"
    );
    assert_eq!(
        solana_key(" ").unwrap_err(),
        "SOLANA_SECRET must be 32-byte hex seed, got 0 bytes"
    );
}

#[test]
fn address_of_a_key() {
    assert_eq!(solana_pubkey_b58(&key()), "FVen3X669xLzsi6N2V91DoiyzHzg1uAgqiT8jZ9nS96Z");
}

#[test]
fn message_with_one_memo() {
    let msg = memo_message(&[9, 9], &[8], &[7, 7, 7], b"hi");
    assert_eq!(msg, vec![1, 0, 1, 2, 9, 9, 8, 7, 7, 7, 1, 1, 0, 2, b'h', b'i']);
}

#[test]
fn transaction_is_signed_and_ends_in_the_memo() {
    let blockhash = [7u8; 32];
    let program = hex::decode(PROGRAM).unwrap();
    let tx = memo_transaction(&key(), &program, &blockhash, b"sha256:ab");
    let message = memo_message(&hex::decode(PUBLIC).unwrap(), &program, &blockhash, b"sha256:ab");
    assert_eq!(tx[0], 1);
    assert_eq!(&tx[65..], &message[..]);
    assert!(tx.ends_with(b"\x09sha256:ab"));
    let verifying = VerifyingKey::from_bytes(&hex::decode(PUBLIC).unwrap().try_into().unwrap());
    let signature = Signature::from_slice(&tx[1..65]).unwrap();
    assert!(verifying.unwrap().verify(&message, &signature).is_ok());
}

#[test]
fn request_for_a_blockhash() {
    let request = blockhash_request();
    assert_eq!(request.get("jsonrpc").and_then(|v| v.as_str()), Some("2.0"));
    assert!(matches!(request.get("id"), Some(Json::Integer(1))));
    assert_eq!(request.get("method").and_then(|v| v.as_str()), Some("getLatestBlockhash"));
    match request.get("params") {
        Some(Json::Array(params)) => {
            assert_eq!(params.len(), 1);
            assert_eq!(params[0].get("commitment").and_then(|v| v.as_str()), Some("confirmed"));
        }
        other => panic!("{other:?}"),
    }
}

#[test]
fn memo_is_sent_with_the_blockhash() {
    let reply = answer(Json::text("US517G5965aydkZ46HS38QLi7UQiSojurfbQfKCELFx"));
    let request = solana_send_memo(&key(), "sha256:ab", &reply).unwrap();
    assert_eq!(request.get("method").and_then(|v| v.as_str()), Some("sendTransaction"));
    let program = bs58::decode(MEMO_PROGRAM_ID).into_vec().unwrap();
    assert_eq!(hex::encode(&program), PROGRAM);
    let tx = memo_transaction(&key(), &program, &[7u8; 32], b"sha256:ab");
    match request.get("params") {
        Some(Json::Array(params)) => {
            assert_eq!(params[0].as_str(), Some(STANDARD.encode(&tx).as_str()));
            assert_eq!(params[1].get("encoding").and_then(|v| v.as_str()), Some("base64"));
            assert!(matches!(params[1].get("skipPreflight"), Some(Json::Bool(false))));
        }
        other => panic!("{other:?}"),
    }
}

#[test]
fn memo_without_a_blockhash_is_not_sent() {
    let send = |reply: RpcReply| solana_send_memo(&key(), "m", &reply).unwrap_err();
    assert_eq!(send(RpcReply::Failed("timeout".to_string())), "rpc blockhash: timeout");
    assert_eq!(
        send(RpcReply::Undecodable("eof".to_string())),
        "rpc blockhash decode: eof"
    );
    assert_eq!(send(answer(Json::Integer(4))), "no blockhash in response: {answer}");
    let empty = RpcReply::Answer { value: Json::Null, text: "null".to_string() };
    assert_eq!(send(empty), "no blockhash in response: null");
    let bad = send(answer(Json::text("0OIl")));
    assert_eq!(
        bad,
        format!("blockhash b58: {}", bs58::decode("0OIl").into_vec().unwrap_err())
    );
}

#[test]
fn length_of_the_memo_counts_only_with_a_blockhash() {
    let long = "m".repeat(130);
    for reply in [
        RpcReply::Failed("timeout".to_string()),
        RpcReply::Undecodable("eof".to_string()),
        RpcReply::Answer { value: Json::Null, text: "null".to_string() },
        answer(Json::text("0OIl")),
    ] {
        assert!(can_send_memo(&long, &reply));
        assert!(solana_send_memo(&key(), &long, &reply).is_err());
    }
    let good = answer(Json::text("US517G5965aydkZ46HS38QLi7UQiSojurfbQfKCELFx"));
    assert!(!can_send_memo(&long, &good));
    assert!(can_send_memo(&long[..127], &good));
    assert!(solana_send_memo(&key(), &long[..127], &good).is_ok());
}

#[test]
fn blockhash_of_any_length_is_taken() {
    for blockhash in ["", "2", "11111"] {
        let reply = answer(Json::text(blockhash));
        let bytes = bs58::decode(blockhash).into_vec().unwrap();
        let request = solana_send_memo(&key(), "m", &reply).unwrap();
        let tx = memo_transaction(&key(), &hex::decode(PROGRAM).unwrap(), &bytes, b"m");
        match request.get("params") {
            Some(Json::Array(params)) => {
                assert_eq!(params[0].as_str(), Some(STANDARD.encode(&tx).as_str()));
            }
            other => panic!("{other:?}"),
        }
    }
}

#[test]
fn signature_in_the_answer() {
    let mut members: Vec<Member> = Vec::new();
    put(&mut members, "result", Json::text("5sig"));
    let sent = RpcReply::Answer { value: Json::object(members), text: String::new() };
    assert_eq!(memo_signature(&sent), Ok("5sig".to_string()));
    assert_eq!(
        memo_signature(&RpcReply::Failed("timeout".to_string())),
        Err("rpc send: timeout".to_string())
    );
    assert_eq!(
        memo_signature(&RpcReply::Undecodable("eof".to_string())),
        Err("rpc send decode: eof".to_string())
    );
    let mut error: Vec<Member> = Vec::new();
    put(&mut error, "error", Json::text("no funds"));
    let refused = RpcReply::Answer { value: Json::object(error), text: "{error}".to_string() };
    assert_eq!(memo_signature(&refused), Err("send failed: {error}".to_string()));
    let mut odd: Vec<Member> = Vec::new();
    put(&mut odd, "result", Json::Integer(1));
    let no_text = RpcReply::Answer { value: Json::object(odd), text: "{odd}".to_string() };
    assert_eq!(memo_signature(&no_text), Err("send failed: {odd}".to_string()));
}
