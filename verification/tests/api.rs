use akashi::api::{
    cas_get, cas_verify, configured_secret, find_seal, get_ledger, get_proof, get_work,
    proof_reply, refuse, subject, upgrade_pending_ots, verify_doc, Reply, Subject,
};
use akashi::json::{put, Json, Member};
use akashi::ledger::{human_actor, Envelope, Examined};
use akashi::store::{append_record, Anchor, AnchorRow, RecordRow};

const HELLO: &str = "sha256:2cf24dba5fb0a30e26e83b2ac5b9e29e1b161e5c1fa7425e73043362938b9824";

fn doc(title: &str) -> Json {
    let mut inner: Vec<Member> = Vec::new();
    put(&mut inner, "title", Json::text(title));
    let mut outer: Vec<Member> = Vec::new();
    put(&mut outer, "doc", Json::object(inner));
    Json::object(outer)
}

fn env(id: &str, prev: Option<&str>, kind: &str) -> Envelope {
    Envelope {
        pact: "0.1".to_string(),
        cid: format!("cid-{id}"),
        id: id.to_string(),
        prev: prev.map(|p| p.to_string()),
        kind: kind.to_string(),
        ledger: "w".to_string(),
        ts: format!("ts-{id}"),
        era: "akashi/2026".to_string(),
        actor: human_actor("w", "the-key"),
        payload: if kind == "doc" { doc(id) } else { Json::Null },
        sig: "sig".to_string(),
    }
}

fn examined(env: Envelope) -> Examined {
    Examined { cid: env.cid.clone(), id: env.id.clone(), sig_ok: true, env }
}

fn chain() -> Vec<Examined> {
    vec![
        examined(env("g", None, "work")),
        examined(env("a", Some("g"), "doc")),
        examined(env("b", Some("a"), "doc")),
    ]
}

fn ots_anchor() -> Anchor {
    Anchor {
        kind: "ots".to_string(),
        reference: String::new(),
        status: "pending".to_string(),
        created_at: "t0".to_string(),
        confirmed_at: None,
    }
}

fn rows() -> Vec<RecordRow> {
    let row = |seq: i64, e: Envelope, doc: Option<&str>| {
        append_record("w", seq, &e, &doc.map(|d| d.to_string()), format!("{{{}}}", e.id))
    };
    vec![
        row(0, env("g", None, "work"), None),
        row(1, env("a", Some("g"), "doc"), Some(HELLO)),
        row(2, env("b", Some("a"), "doc"), Some("sha256:other")),
    ]
}

fn value(reply: Reply) -> Json {
    match reply {
        Reply::Value(value) => value,
        other => panic!("{other:?}"),
    }
}

fn refusal(reply: Reply) -> (u16, String) {
    match reply {
        Reply::Refusal { status, text } => (status, text),
        other => panic!("{other:?}"),
    }
}

fn content(reply: Reply) -> (Vec<(String, String)>, Vec<u8>) {
    match reply {
        Reply::Content { headers, bytes } => (headers, bytes),
        other => panic!("{other:?}"),
    }
}

fn text<'a>(value: &'a Json, name: &str) -> Option<&'a str> {
    value.get(name).and_then(|v| v.as_str())
}

fn flag(value: &Json, name: &str) -> bool {
    match value.get(name) {
        Some(Json::Bool(b)) => *b,
        other => panic!("{other:?}"),
    }
}

fn items<'a>(value: &'a Json, name: &str) -> &'a Vec<Json> {
    match value.get(name) {
        Some(Json::Array(items)) => items,
        other => panic!("{other:?}"),
    }
}

fn header(name: &str, value: &str) -> (String, String) {
    (name.to_string(), value.to_string())
}

#[test]
fn refusals_carry_status_and_text() {
    assert_eq!(refusal(refuse(418, "teapot")), (418, "teapot".to_string()));
}

#[test]
fn unknown_work_is_refused() {
    let missing = (404, "no such work".to_string());
    assert_eq!(refusal(get_work("w", false, &chain(), &[])), missing);
    assert_eq!(refusal(get_ledger("w", false, &rows())), missing);
}

#[test]
fn work_with_its_versions_and_anchors() {
    let shown = value(get_work("w", true, &chain(), &[ots_anchor()]));
    assert_eq!(text(&shown, "lid"), Some("w"));
    assert!(flag(&shown, "chain_ok"));
    assert!(items(&shown, "chain_errors").is_empty());
    assert_eq!(text(&shown, "signer_key"), Some("the-key"));
    let versions = items(&shown, "versions");
    assert_eq!(versions.len(), 2);
    assert!(matches!(versions[0].get("seq"), Some(Json::Integer(1))));
    assert_eq!(text(&versions[0], "env_id"), Some("a"));
    assert_eq!(text(&versions[0], "cid"), Some("cid-a"));
    assert_eq!(text(&versions[0], "ts"), Some("ts-a"));
    assert_eq!(versions[0].get("doc").and_then(|d| text(d, "title")), Some("a"));
    assert!(matches!(versions[1].get("seq"), Some(Json::Integer(2))));
    let anchors = items(&shown, "anchors");
    assert_eq!(anchors.len(), 1);
    assert_eq!(text(&anchors[0], "kind"), Some("ots"));
    assert_eq!(text(&anchors[0], "reference"), Some(""));
    assert_eq!(text(&anchors[0], "status"), Some("pending"));
    assert_eq!(text(&anchors[0], "created_at"), Some("t0"));
    assert!(matches!(anchors[0].get("confirmed_at"), Some(Json::Null)));
}

#[test]
fn flawed_work_shows_its_flaws() {
    let mut records = chain();
    records[2].sig_ok = false;
    let shown = value(get_work("w", true, &records, &[]));
    assert!(!flag(&shown, "chain_ok"));
    let errors = items(&shown, "chain_errors");
    assert_eq!(errors.len(), 1);
    assert!(matches!(errors[0].get("index"), Some(Json::Integer(2))));
    assert_eq!(text(&errors[0], "id"), Some("b"));
    assert_eq!(text(&errors[0], "message"), Some("signature does not verify"));
}

#[test]
fn work_without_records_has_no_key() {
    let shown = value(get_work("w", true, &[], &[]));
    assert!(flag(&shown, "chain_ok"));
    assert!(matches!(shown.get("signer_key"), Some(Json::Null)));
    assert!(items(&shown, "versions").is_empty());
}

#[test]
fn ledger_of_a_work() {
    let (headers, bytes) = content(get_ledger("w", true, &rows()));
    assert_eq!(headers, vec![header("content-type", "application/x-ndjson")]);
    assert_eq!(bytes, b"{g}\n{a}\n{b}");
}

#[test]
fn proof_on_the_newest_record() {
    let records: Vec<Envelope> = chain().into_iter().map(|e| e.env).collect();
    assert_eq!(
        refusal(get_proof("data", &[], &[ots_anchor()]).unwrap_err()),
        (404, "empty".to_string())
    );
    assert_eq!(
        refusal(get_proof("data", &records, &[]).unwrap_err()),
        (404, "no ots proof".to_string())
    );
    let mut solana = ots_anchor();
    solana.kind = "solana".to_string();
    assert_eq!(
        refusal(get_proof("data", &records, &[solana]).unwrap_err()),
        (404, "no ots proof".to_string())
    );
    assert_eq!(
        get_proof("data", &records, &[ots_anchor()]).unwrap(),
        "data/ots/b.head.ots"
    );
}

#[test]
fn answer_with_a_proof() {
    assert_eq!(refusal(proof_reply("w", None)), (404, "proof not ready".to_string()));
    let (headers, bytes) = content(proof_reply("w", Some(vec![1, 2])));
    assert_eq!(
        headers,
        vec![
            header("content-type", "application/octet-stream"),
            header("content-disposition", "attachment; filename=\"w.head.ots\""),
        ]
    );
    assert_eq!(bytes, vec![1, 2]);
}

#[test]
fn answer_with_a_document() {
    assert_eq!(refusal(cas_get(None)), (404, "not found".to_string()));
    let (headers, bytes) = content(cas_get(Some(vec![3])));
    assert_eq!(
        headers,
        vec![
            header("content-type", "application/octet-stream"),
            header("cache-control", "public, max-age=31536000, immutable"),
        ]
    );
    assert_eq!(bytes, vec![3]);
}

#[test]
fn stored_document_verifies_against_its_hash() {
    let good = value(cas_verify(HELLO, &Some(b"hello".to_vec())));
    assert_eq!(text(&good, "hash"), Some(HELLO));
    assert!(flag(&good, "present"));
    assert_eq!(text(&good, "recomputed"), Some(HELLO));
    assert!(flag(&good, "ok"));

    let bare = value(cas_verify(&HELLO[7..], &Some(b"hello".to_vec())));
    assert_eq!(text(&bare, "hash"), Some(HELLO));
    assert!(flag(&bare, "ok"));

    let altered = value(cas_verify(HELLO, &Some(b"hellO".to_vec())));
    assert!(flag(&altered, "present"));
    assert_ne!(text(&altered, "recomputed"), Some(HELLO));
    assert!(!flag(&altered, "ok"));

    let missing = value(cas_verify(HELLO, &None));
    assert!(!flag(&missing, "present"));
    assert!(!flag(&missing, "ok"));
    assert!(missing.get("hash").is_none());
}

#[test]
fn subject_of_a_request() {
    let some = |s: &str| Some(s.to_string());
    assert!(matches!(subject(b"hello", None, None), Ok(Subject::Document(h)) if h == HELLO));
    assert!(matches!(
        subject(b"hello", some("sha256:x"), some("a")), Ok(Subject::Document(h)) if h == HELLO
    ));
    assert!(matches!(
        subject(b"", some(&HELLO[7..]), some("a")), Ok(Subject::Document(h)) if h == HELLO
    ));
    assert!(matches!(subject(b"", some(HELLO), None), Ok(Subject::Document(h)) if h == HELLO));
    assert!(matches!(subject(b"", None, some("a")), Ok(Subject::Record(id)) if id == "a"));
    assert_eq!(
        refusal(subject(b"", None, None).unwrap_err()),
        (400, "no file".to_string())
    );
}

#[test]
fn sealed_documents_are_found() {
    let found = find_seal(&rows(), &Subject::Document(HELLO.to_string())).unwrap();
    assert_eq!((found.lid.as_str(), found.env_id.as_str()), ("w", "a"));
    assert_eq!(found.doc_hash, HELLO);
    let by_id = find_seal(&rows(), &Subject::Record("b".to_string())).unwrap();
    assert_eq!((by_id.lid.as_str(), by_id.env_id.as_str()), ("w", "b"));
    assert_eq!(by_id.doc_hash, "sha256:other");
    assert!(find_seal(&rows(), &Subject::Record("g".to_string())).is_none());
    assert!(find_seal(&rows(), &Subject::Document("sha256:no".to_string())).is_none());
}

#[test]
fn certificate_on_a_document() {
    let asked = Subject::Document(HELLO.to_string());
    let found = find_seal(&rows(), &asked);
    let certificate = value(verify_doc(&asked, &found, &chain(), &[ots_anchor()]));
    assert!(flag(&certificate, "found"));
    assert_eq!(text(&certificate, "sha256"), Some(HELLO));
    assert_eq!(text(&certificate, "lid"), Some("w"));
    assert_eq!(text(&certificate, "env_id"), Some("a"));
    assert_eq!(text(&certificate, "sealed_at"), Some("ts-a"));
    assert_eq!(text(&certificate, "signer_key"), Some("the-key"));
    assert_eq!(certificate.get("doc").and_then(|d| text(d, "title")), Some("a"));
    assert!(flag(&certificate, "chain_ok"));
    assert_eq!(items(&certificate, "anchors").len(), 1);
    assert_eq!(
        text(&certificate, "note"),
        Some("Verify trustlessly offline: download ledger.jsonl + proof.ots, then run `ots verify` and re-derive the chain.")
    );
}

#[test]
fn certificate_on_a_record_that_cannot_be_read() {
    let asked = Subject::Document(HELLO.to_string());
    let found = find_seal(&rows(), &asked);
    let certificate = value(verify_doc(&asked, &found, &chain()[..1], &[]));
    assert!(flag(&certificate, "found"));
    for name in ["sealed_at", "signer_key", "doc"] {
        assert!(matches!(certificate.get(name), Some(Json::Null)));
    }
}

#[test]
fn certificate_on_nothing_known() {
    let document = value(verify_doc(&Subject::Document("sha256:no".to_string()), &None, &[], &[]));
    assert!(!flag(&document, "found"));
    assert_eq!(text(&document, "sha256"), Some("sha256:no"));
    let record = value(verify_doc(&Subject::Record("no".to_string()), &None, &[], &[]));
    assert!(!flag(&record, "found"));
    assert_eq!(text(&record, "env_id"), Some("no"));
}

fn anchor_row(id: i64, kind: &str, status: &str) -> AnchorRow {
    AnchorRow {
        id,
        lid: "w".to_string(),
        head_id: format!("h{id}"),
        kind: kind.to_string(),
        reference: String::new(),
        status: status.to_string(),
        created_at: "t0".to_string(),
        confirmed_at: None,
    }
}

#[test]
fn walk_confirms_exactly_the_attested() {
    let table = vec![
        anchor_row(1, "solana", "pending"),
        anchor_row(2, "ots", "pending"),
        anchor_row(3, "ots", "confirmed"),
        anchor_row(4, "ots", "pending"),
        anchor_row(5, "ots", "pending"),
        anchor_row(6, "ots", "failed"),
    ];
    let before: Vec<String> = table.iter().map(|r| format!("{r:?}")).collect();
    let mut walk = upgrade_pending_ots(table);
    assert_eq!(walk.head(), Some("h2"));
    assert!(walk.checked(&Err("no client".to_string()), "t1").is_none());
    assert_eq!(walk.head(), Some("h4"));
    let row = walk.checked(&Ok(true), "t2").unwrap();
    assert_eq!((row.id, row.status.as_str()), (4, "confirmed"));
    assert_eq!((row.reference.as_str(), row.confirmed_at.as_deref()), ("bitcoin", Some("t2")));
    assert_eq!(walk.head(), Some("h5"));
    assert!(walk.checked(&Ok(false), "t3").is_none());
    assert_eq!(walk.head(), None);
    assert!(walk.checked(&Ok(true), "t4").is_none());
    for (i, row) in walk.rows.iter().enumerate() {
        if i == 3 {
            assert_eq!(row.status, "confirmed");
        } else {
            assert_eq!(format!("{row:?}"), before[i]);
        }
    }
}

#[test]
fn walk_through_a_table_where_none_waits() {
    assert_eq!(upgrade_pending_ots(vec![]).head(), None);
    let mut walk = upgrade_pending_ots(vec![anchor_row(1, "solana", "pending")]);
    assert_eq!(walk.head(), None);
    assert!(walk.checked(&Ok(true), "t").is_none());
    assert_eq!(walk.rows[0].status, "pending");
}

#[test]
fn blank_secret_counts_as_none() {
    assert_eq!(configured_secret(None), None);
    assert_eq!(configured_secret(Some(String::new())), None);
    assert_eq!(configured_secret(Some(" \t\u{3000}".to_string())), None);
    assert_eq!(configured_secret(Some(" ab ".to_string())), Some(" ab ".to_string()));
}
