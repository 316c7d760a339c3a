use akashi::ids::hmac32;
use akashi::json::{put, Json, Member};
use akashi::ledger::{
    append, human_actor, verify_chain, Appending, ChainReport, Envelope, Examined, ERA,
    PACT_VERSION,
};
use akashi::store::sha256_hex_raw;

fn digest(text: &str) -> String {
    format!("sha256:{}", sha256_hex_raw(text.as_bytes()))
}

fn payload_digest(env: &Envelope) -> String {
    digest(&format!("{:?}", env.payload))
}

fn core_digest(env: &Envelope) -> String {
    digest(&format!("{:?}{:?}{:?}{:?}", env.prev, env.cid, env.actor, env.ts))
}

fn signature(env: &Envelope) -> String {
    hex::encode(hmac32(&env.actor.key, &env.id))
}

fn seal(appending: Appending) -> Envelope {
    let mut stage = appending;
    loop {
        let answer = match &stage {
            Appending::Payload(env) => payload_digest(env),
            Appending::Core(env) => core_digest(env),
            Appending::Signature(env) => signature(env),
            Appending::Sealed(_) => break,
        };
        stage = stage.resume(answer);
    }
    match stage {
        Appending::Sealed(env) => env,
        _ => unreachable!(),
    }
}

fn examine(env: &Envelope) -> Examined {
    Examined {
        env: env.clone(),
        cid: payload_digest(env),
        id: core_digest(env),
        sig_ok: env.sig == signature(env),
    }
}

fn examine_all(envs: &[Envelope]) -> Vec<Examined> {
    envs.iter().map(examine).collect()
}

fn payload(text: &str) -> Json {
    let mut members: Vec<Member> = Vec::new();
    put(&mut members, "text", Json::text(text));
    Json::object(members)
}

fn chain(texts: &[&str]) -> Vec<Envelope> {
    let mut envs: Vec<Envelope> = Vec::new();
    for (i, text) in texts.iter().enumerate() {
        let prev = envs.last().map(|e: &Envelope| e.id.clone());
        let ts = format!("2026-01-0{}T00:00:00Z", i + 1);
        let actor = human_actor("w", "key");
        envs.push(seal(append("w", prev, "doc", payload(text), &ts, actor)));
    }
    envs
}

#[test]
fn three_answers_seal_an_envelope() {
    let begun = append("w", Some("p".to_string()), "doc", payload("t"), "now", human_actor("w", "k"));
    let core = begun.resume("C".to_string());
    assert!(matches!(&core, Appending::Core(env) if env.cid == "C" && env.id.is_empty()));
    let signing = core.resume("I".to_string());
    assert!(matches!(&signing, Appending::Signature(env) if env.id == "I" && env.sig.is_empty()));
    let sealed = signing.resume("S".to_string());
    let again = sealed.resume("ignored".to_string());
    match again {
        Appending::Sealed(env) => {
            assert_eq!(env.pact, PACT_VERSION);
            assert_eq!(env.pact, "0.1");
            assert_eq!(env.era, ERA);
            assert_eq!(env.era, "akashi/2026");
            assert_eq!(env.ledger, "w");
            assert_eq!(env.prev.as_deref(), Some("p"));
            assert_eq!(env.kind, "doc");
            assert_eq!(env.ts, "now");
            assert_eq!((env.cid.as_str(), env.id.as_str(), env.sig.as_str()), ("C", "I", "S"));
        }
        other => panic!("{other:?}"),
    }
}

#[test]
fn actor_of_a_work() {
    let actor = human_actor("abc", "00ff");
    assert_eq!(actor.kind, "human");
    assert_eq!(actor.id, "urn:akashi:work:abc");
    assert_eq!(actor.key, "00ff");
    assert_eq!(actor.model, None);
}

#[test]
fn empty_chain_is_intact() {
    let report = verify_chain(&[]);
    assert!(report.ok);
    assert_eq!(report.records, 0);
    assert!(report.errors.is_empty());
}

#[test]
fn default_report_is_empty_and_not_sound() {
    let report = ChainReport::default();
    assert_eq!(report.records, 0);
    assert!(!report.ok);
    assert!(report.errors.is_empty());
}

#[test]
fn appended_chain_is_intact() {
    let envs = chain(&["a", "b", "c"]);
    let report = verify_chain(&examine_all(&envs));
    assert!(report.ok);
    assert_eq!(report.records, 3);
    assert_eq!(report.errors.len(), 0);
}

#[test]
fn beginning_of_an_intact_chain_is_intact() {
    let examined = examine_all(&chain(&["a", "b", "c", "d"]));
    for n in 0..=examined.len() {
        assert!(verify_chain(&examined[..n]).ok);
    }
    assert!(!verify_chain(&examined[1..]).ok);
}

#[test]
fn altered_payload_is_reported() {
    let mut envs = chain(&["a", "b", "c"]);
    envs[1].payload = payload("forged");
    let report = verify_chain(&examine_all(&envs));
    assert!(!report.ok);
    assert_eq!(report.errors.len(), 1);
    assert_eq!(report.errors[0].index, 1);
    assert_eq!(report.errors[0].id, envs[1].id);
    assert_eq!(
        report.errors[0].message,
        format!("cid mismatch: payload was altered (got {})", payload_digest(&envs[1]))
    );
}

#[test]
fn removed_record_breaks_the_chain() {
    let mut envs = chain(&["a", "b", "c"]);
    let removed = envs.remove(1);
    let report = verify_chain(&examine_all(&envs));
    assert!(!report.ok);
    assert_eq!(report.errors.len(), 1);
    assert_eq!(report.errors[0].index, 1);
    assert_eq!(
        report.errors[0].message,
        format!("broken chain: prev=Some({:?}) expected=Some({:?})", removed.id, envs[0].id)
    );
}

#[test]
fn first_record_has_no_predecessor() {
    let envs = chain(&["a", "b"]);
    let report = verify_chain(&examine_all(&envs[1..]));
    assert_eq!(
        report.errors[0].message,
        format!("broken chain: prev=Some({:?}) expected=None", envs[0].id)
    );
}

#[test]
fn links_are_shown_in_quotes() {
    let mut envs = chain(&["a", "b"]);
    envs[0].id = "plain-id".to_string();
    envs[1].prev = None;
    let report = verify_chain(&examine_all(&envs));
    let said: Vec<&str> = report.errors.iter().map(|e| e.message.as_str()).collect();
    assert!(said.contains(&"broken chain: prev=None expected=Some(\"plain-id\")"));
    envs[1].prev = Some("two\n\"lines\"".to_string());
    let report = verify_chain(&examine_all(&envs));
    let said: Vec<&str> = report.errors.iter().map(|e| e.message.as_str()).collect();
    let odd = "broken chain: prev=Some(\"two\\n\\\"lines\\\"\") expected=Some(\"plain-id\")";
    assert!(said.contains(&odd));
}

#[test]
fn altered_core_is_reported() {
    let mut envs = chain(&["a", "b"]);
    envs[1].ts = "1999-01-01T00:00:00Z".to_string();
    let report = verify_chain(&examine_all(&envs));
    assert_eq!(report.errors.len(), 1);
    assert_eq!(
        report.errors[0].message,
        format!("id mismatch: core was altered (got {})", core_digest(&envs[1]))
    );
}

#[test]
fn forged_signature_is_reported() {
    let mut envs = chain(&["a", "b"]);
    envs[0].sig = "00".to_string();
    let report = verify_chain(&examine_all(&envs));
    assert_eq!(report.errors.len(), 1);
    assert_eq!(report.errors[0].index, 0);
    assert_eq!(report.errors[0].message, "signature does not verify");
}

#[test]
fn flaws_are_listed_in_the_order_of_the_checks() {
    let mut envs = chain(&["a", "b"]);
    envs[1].cid = "sha256:x".to_string();
    envs[1].prev = None;
    envs[1].sig = String::new();
    let report = verify_chain(&examine_all(&envs));
    let kinds: Vec<&str> =
        report.errors.iter().map(|e| e.message.split(':').next().unwrap()).collect();
    assert_eq!(
        kinds,
        vec!["cid mismatch", "broken chain", "id mismatch", "signature does not verify"]
    );
    assert!(report.errors.iter().all(|e| e.index == 1));
}

#[test]
fn head_commits_to_the_whole_history() {
    let a = chain(&["a", "b", "c"]);
    let same = chain(&["a", "b", "c"]);
    let other = chain(&["x", "b", "c"]);
    assert_eq!(a[2].id, same[2].id);
    assert_ne!(a[2].id, other[2].id);
    for (x, y) in a.iter().zip(&same) {
        assert_eq!(format!("{x:?}"), format!("{y:?}"));
    }
}
