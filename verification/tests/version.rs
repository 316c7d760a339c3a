use akashi::api::{find_seal, get_work, Reply, Subject};
use akashi::ids::edit_token;
use akashi::json::Json;
use akashi::ledger::{verify_chain, Appending, Envelope, Examined};
use akashi::offline::ledger_lines;
use akashi::store::{head, ledger_jsonl, ordered_rows, RecordRow};
use akashi::version::{
    add_version, anchoring, create_work, first_record, form_part, version_record, work_created,
    Field, FormPart, Upload,
};

const HELLO: &str = "sha256:2cf24dba5fb0a30e26e83b2ac5b9e29e1b161e5c1fa7425e73043362938b9824";

fn seal(appending: Appending, id: &str) -> Envelope {
    let stage = appending.resume(format!("cid-{id}")).resume(id.to_string());
    match stage.resume(format!("sig-{id}")) {
        Appending::Sealed(env) => env,
        other => panic!("{other:?}"),
    }
}

fn examined(env: &Envelope) -> Examined {
    Examined { env: env.clone(), cid: env.cid.clone(), id: env.id.clone(), sig_ok: true }
}

fn refusal(reply: Reply) -> (u16, String) {
    match reply {
        Reply::Refusal { status, text } => (status, text),
        other => panic!("{other:?}"),
    }
}

fn value(reply: Reply) -> Json {
    match reply {
        Reply::Value(value) => value,
        other => panic!("{other:?}"),
    }
}

fn text<'a>(value: &'a Json, name: &str) -> Option<&'a str> {
    value.get(name).and_then(|v| v.as_str())
}

fn upload(token: &str, bytes: &[u8]) -> Upload {
    let mut upload = add_version("w", true).unwrap();
    upload.take_text(FormPart::Token, token.to_string());
    upload.take_file(Some("a.txt".to_string()), Some("text/plain".to_string()), bytes.to_vec());
    upload
}

#[test]
fn new_work_begins_its_chain() {
    let new = create_work("w", "My work", "me@example.org", "key", "now");
    assert_eq!(new.row.lid, "w");
    assert_eq!(new.row.title, "My work");
    assert_eq!(new.row.owner_email, "me@example.org");
    assert_eq!(new.row.signer_pubkey, "key");
    assert_eq!(new.row.created_at, "now");
    let env = seal(new.appending, "g");
    assert_eq!(env.kind, "work");
    assert_eq!(env.prev, None);
    assert_eq!(env.ts, "now");
    assert_eq!(env.actor.key, "key");
    let work = env.payload.get("work").unwrap();
    assert_eq!(text(work, "title"), Some("My work"));
    assert_eq!(text(work, "created"), Some("now"));
    let report = verify_chain(&[examined(&env)]);
    assert!(report.ok);
}

#[test]
fn answer_on_a_new_work_holds_the_token() {
    let token = edit_token("secret", "w");
    let created = value(work_created("w", "key", "secret", "http://h"));
    assert_eq!(text(&created, "lid"), Some("w"));
    assert_eq!(text(&created, "signer_pubkey"), Some("key"));
    assert_eq!(text(&created, "edit_token"), Some(token.as_str()));
    let owner = format!("http://h/app?lid=w&token={token}");
    assert_eq!(text(&created, "owner_link"), Some(owner.as_str()));
    assert_eq!(text(&created, "public_link"), Some("http://h/app?lid=w"));
}

#[test]
fn fields_of_the_form() {
    assert_eq!(form_part(Some("token")), FormPart::Token);
    assert_eq!(form_part(Some("title")), FormPart::Title);
    assert_eq!(form_part(Some("note")), FormPart::Note);
    assert_eq!(form_part(Some("doc_type")), FormPart::DocType);
    assert_eq!(form_part(Some("file")), FormPart::File);
    assert_eq!(form_part(Some("Token")), FormPart::Other);
    assert_eq!(form_part(None), FormPart::Other);
}

#[test]
fn form_starts_blank_and_later_fields_count() {
    let mut upload = add_version("w", true).unwrap();
    assert_eq!(upload.form.doc_type, "file");
    assert_eq!(upload.form.mime, "application/octet-stream");
    assert!(upload.form.filename.is_empty() && upload.form.bytes.is_empty());
    upload.take_text(FormPart::Title, "one".to_string());
    upload.take_text(FormPart::Title, "two".to_string());
    upload.take_text(FormPart::Note, "n".to_string());
    upload.take_text(FormPart::DocType, "patent".to_string());
    upload.take_text(FormPart::Other, "x".to_string());
    upload.take_text(FormPart::File, "x".to_string());
    assert_eq!(upload.form.title, "two");
    assert_eq!(upload.form.note, "n");
    assert_eq!(upload.form.doc_type, "patent");
    upload.take_file(None, None, vec![1]);
    assert_eq!(upload.form.filename, "upload");
    assert_eq!(upload.form.mime, "application/octet-stream");
    upload.take_file(Some("f".to_string()), Some("image/png".to_string()), vec![2]);
    assert_eq!(upload.form.filename, "f");
    assert_eq!(upload.form.mime, "image/png");
    assert_eq!(upload.form.bytes, vec![2]);
}

#[test]
fn order_of_fields_does_not_matter() {
    let part = |part: FormPart, text: &str| Field::Text { part, text: text.to_string() };
    let file = || Field::File { file_name: None, content_type: None, bytes: vec![7] };
    let mut one = add_version("w", true).unwrap();
    one.fill(vec![part(FormPart::Token, "t"), part(FormPart::Title, "T"), file()]);
    let mut other = add_version("w", true).unwrap();
    other.fill(vec![
        file(),
        part(FormPart::Other, "x"),
        part(FormPart::Title, "T"),
        part(FormPart::Token, "t"),
    ]);
    assert_eq!(format!("{one:?}"), format!("{other:?}"));
    assert_eq!(one.form.filename, "upload");
    assert_eq!(one.form.mime, "application/octet-stream");
    assert_eq!(one.form.doc_type, "file");
    assert_eq!(one.form.bytes, vec![7]);
}

#[test]
fn version_of_an_unknown_work_is_refused() {
    assert_eq!(
        refusal(add_version("w", false).unwrap_err()),
        (404, "no such work".to_string())
    );
}

#[test]
fn version_without_the_token_is_refused() {
    assert_eq!(
        refusal(upload("wrong", b"hello").check("secret").unwrap_err()),
        (403, "invalid edit token".to_string())
    );
    // the token is checked before the file
    assert_eq!(
        refusal(upload("wrong", b"").check("secret").unwrap_err()),
        (403, "invalid edit token".to_string())
    );
}

#[test]
fn empty_version_is_refused() {
    let token = edit_token("secret", "w");
    assert_eq!(
        refusal(upload(&token, b"").check("secret").unwrap_err()),
        (400, "empty file".to_string())
    );
}

#[test]
fn version_that_cannot_be_stored_is_refused() {
    let token = edit_token("secret", "w");
    let admitted = upload(&token, b"hello").check("secret").unwrap();
    assert_eq!(admitted.doc_hash, HELLO);
    assert_eq!(
        refusal(admitted.stored(Err("disk full".to_string())).unwrap_err()),
        (500, "cas: disk full".to_string())
    );
}

#[test]
fn version_supersedes_the_head() {
    let token = edit_token("secret", "w");
    let mut begun = upload(&token, b"hello");
    begun.take_text(FormPart::Title, "t".to_string());
    begun.take_text(FormPart::Note, "n".to_string());
    let stored = begun.check("secret").unwrap().stored(Ok(())).unwrap();
    let version = stored.draft(Some("g".to_string()), 1, "now".to_string(), "key");
    assert_eq!((version.lid.as_str(), version.seq), ("w", 1));
    assert_eq!((version.doc_hash.as_str(), version.now.as_str()), (HELLO, "now"));
    let env = seal(version.appending, "a");
    assert_eq!(env.kind, "doc");
    assert_eq!(env.prev.as_deref(), Some("g"));
    assert_eq!(env.actor.id, "urn:akashi:work:w");
    let doc = env.payload.get("doc").unwrap();
    assert_eq!(text(doc, "title"), Some("t"));
    assert_eq!(text(doc, "doc_type"), Some("file"));
    assert_eq!(text(doc, "sha256"), Some(HELLO));
    assert!(matches!(doc.get("size"), Some(Json::Integer(5))));
    assert_eq!(text(doc, "mime"), Some("text/plain"));
    assert_eq!(text(doc, "filename"), Some("a.txt"));
    assert_eq!(text(doc, "note"), Some("n"));
    assert_eq!(text(doc, "supersedes"), Some("g"));
}

#[test]
fn first_version_without_a_head_supersedes_nothing() {
    let token = edit_token("secret", "w");
    let stored = upload(&token, b"hello").check("secret").unwrap().stored(Ok(())).unwrap();
    let env = seal(stored.draft(None, 0, "now".to_string(), "key").appending, "a");
    let doc = env.payload.get("doc").unwrap();
    assert!(matches!(doc.get("supersedes"), Some(Json::Null)));
    assert_eq!(env.prev, None);
}

#[test]
fn anchors_of_a_new_version() {
    let token = edit_token("secret", "w");
    let stored = upload(&token, b"hello").check("secret").unwrap().stored(Ok(())).unwrap();
    let env = seal(stored.draft(None, 4, "now".to_string(), "key").appending, "a");
    let mut both = anchoring("w", 4, &env, HELLO, "now");
    let stamp = both.stamped(&Ok("proof".to_string())).unwrap();
    assert_eq!((stamp.lid.as_str(), stamp.head_id.as_str()), ("w", "a"));
    assert_eq!((stamp.kind.as_str(), stamp.status.as_str()), ("ots", "pending"));
    assert_eq!((stamp.reference.as_str(), stamp.created_at.as_str()), ("", "now"));
    let memo = both.memo_sent(&Ok("5sig".to_string()));
    assert_eq!((memo.kind.as_str(), memo.status.as_str()), ("solana", "confirmed"));
    assert_eq!(memo.reference, "5sig");
    let added = value(both.reply());
    assert!(matches!(added.get("ok"), Some(Json::Bool(true))));
    assert_eq!(text(&added, "lid"), Some("w"));
    assert!(matches!(added.get("seq"), Some(Json::Integer(4))));
    assert_eq!(text(&added, "env_id"), Some("a"));
    assert_eq!(text(&added, "doc_sha256"), Some(HELLO));
    match added.get("anchors") {
        Some(Json::Array(anchors)) => {
            assert_eq!(anchors.len(), 2);
            assert_eq!(text(&anchors[0], "kind"), Some("ots"));
            assert_eq!(text(&anchors[0], "status"), Some("pending"));
            assert!(anchors[0].get("ref").is_none());
            assert_eq!(text(&anchors[1], "kind"), Some("solana"));
            assert_eq!(text(&anchors[1], "ref"), Some("5sig"));
        }
        other => panic!("{other:?}"),
    }

    let mut failed = anchoring("w", 4, &env, HELLO, "now");
    assert!(failed.stamped(&Err("no client".to_string())).is_none());
    let memo = failed.memo_sent(&Err("rpc send: timeout".to_string()));
    assert_eq!((memo.status.as_str(), memo.reference.as_str()), ("failed", "rpc send: timeout"));
    match value(failed.reply()).get("anchors") {
        Some(Json::Array(anchors)) => {
            assert_eq!(anchors.len(), 1);
            assert_eq!(text(&anchors[0], "status"), Some("failed"));
            assert!(anchors[0].get("ref").is_none());
        }
        other => panic!("{other:?}"),
    }
}

#[test]
fn added_version_stands() {
    let token = edit_token("secret", "w");
    let genesis = seal(create_work("w", "t", "", "key", "t0").appending, "g");
    let line = |e: &Envelope| format!("{{{}}}", e.id);
    let mut rows: Vec<RecordRow> = vec![first_record("w", &genesis, line(&genesis))];
    assert_eq!((rows[0].seq, rows[0].doc_sha256.as_deref()), (0, None));
    let mut envs = vec![genesis];
    for (id, bytes) in [("a", b"hello".as_slice()), ("b", b"world".as_slice())] {
        let stored = upload(&token, bytes).check("secret").unwrap().stored(Ok(())).unwrap();
        let (prev, seq) = head(&rows, "w");
        let version = stored.draft(prev, seq, "t1".to_string(), "key");
        let env = seal(version.appending, id);
        let row = version_record("w", seq, &env, &version.doc_hash, line(&env));
        let named = env.payload.get("doc").and_then(|d| text(d, "sha256"));
        assert_eq!(row.doc_sha256.as_deref(), named);
        rows.push(row);
        envs.push(env);
    }
    let chain: Vec<Examined> = envs.iter().map(examined).collect();
    assert!(verify_chain(&chain).ok);
    assert_eq!(head(&rows, "w"), (Some("b".to_string()), 3));
    let ids: Vec<String> = ordered_rows(&rows, "w").iter().map(|r| r.env_id.clone()).collect();
    assert_eq!(ids, vec!["g", "a", "b"]);
    let found = find_seal(&rows, &Subject::Document(HELLO.to_string())).unwrap();
    assert_eq!(found.env_id, "a");
    match value(get_work("w", true, &chain, &[])).get("versions") {
        Some(Json::Array(versions)) => {
            assert_eq!(versions.len(), 2);
            assert!(matches!(versions[0].get("seq"), Some(Json::Integer(1))));
            assert!(matches!(versions[1].get("seq"), Some(Json::Integer(2))));
            assert_eq!(text(&versions[1], "env_id"), Some("b"));
        }
        other => panic!("{other:?}"),
    }
    let file = ledger_jsonl(&rows, "w");
    let read: Vec<(usize, String)> =
        vec![(1, "{g}".to_string()), (2, "{a}".to_string()), (3, "{b}".to_string())];
    assert_eq!(ledger_lines(&file), read);
}
