use akashi::json::Json;
use akashi::ledger::{human_actor, Envelope};
use akashi::store::{
    anchors_for, append_record, cas_dir, cas_get, cas_must_write, cas_put, confirm_anchor, find_by_doc_hash,
    find_by_env_id, head, insert_work, ledger_jsonl, ordered_rows, pending_anchors, record_anchor,
    records, sha256_hex_raw, work_exists, AnchorRow, RecordRow,
};

fn env(id: &str) -> Envelope {
    Envelope {
        pact: "0.1".to_string(),
        cid: format!("cid-{id}"),
        id: id.to_string(),
        prev: Some("before".to_string()),
        kind: "doc".to_string(),
        ledger: "w".to_string(),
        ts: "2026-01-01T00:00:00Z".to_string(),
        era: "akashi/2026".to_string(),
        actor: human_actor("w", "key"),
        payload: Json::Null,
        sig: "sig".to_string(),
    }
}

fn row(lid: &str, seq: i64, id: &str, doc: Option<&str>) -> RecordRow {
    append_record(lid, seq, &env(id), &doc.map(|d| d.to_string()), format!("{{\"{id}\"}}"))
}

fn anchor(id: i64, lid: &str, kind: &str, status: &str) -> AnchorRow {
    AnchorRow {
        id,
        lid: lid.to_string(),
        head_id: format!("head-{id}"),
        kind: kind.to_string(),
        reference: format!("ref-{id}"),
        status: status.to_string(),
        created_at: "t0".to_string(),
        confirmed_at: None,
    }
}

#[test]
fn works_are_found_by_id() {
    let works = vec![
        insert_work("a", "title", "mail", "key", "now"),
        insert_work("b", "", "", "", ""),
    ];
    assert_eq!(works[0].title, "title");
    assert_eq!(works[0].owner_email, "mail");
    assert_eq!(works[0].signer_pubkey, "key");
    assert_eq!(works[0].created_at, "now");
    assert!(work_exists(&works, "a"));
    assert!(work_exists(&works, "b"));
    assert!(!work_exists(&works, "c"));
    assert!(!work_exists(&[], "a"));
}

#[test]
fn row_of_a_record() {
    let r = row("w", 3, "id", Some("sha256:d"));
    assert_eq!((r.lid.as_str(), r.seq, r.env_id.as_str()), ("w", 3, "id"));
    assert_eq!(r.prev.as_deref(), Some("before"));
    assert_eq!((r.cid.as_str(), r.kind.as_str()), ("cid-id", "doc"));
    assert_eq!(r.doc_sha256.as_deref(), Some("sha256:d"));
    assert_eq!(r.ts, "2026-01-01T00:00:00Z");
    assert_eq!(r.env_json, "{\"id\"}");
}

#[test]
fn head_of_a_work_without_records() {
    assert_eq!(head(&[], "w"), (None, 0));
    assert_eq!(head(&[row("other", 5, "x", None)], "w"), (None, 0));
}

#[test]
fn appended_record_is_the_head() {
    let mut rows = vec![row("w", 1, "b", None), row("w", 0, "a", None), row("v", 9, "z", None)];
    let (prev, next) = head(&rows, "w");
    assert_eq!((prev.as_deref(), next), (Some("b"), 2));
    rows.push(row("w", next, "c", None));
    let (prev, next) = head(&rows, "w");
    assert_eq!((prev.as_deref(), next), (Some("c"), 3));
    let (other, other_next) = head(&rows, "v");
    assert_eq!((other.as_deref(), other_next), (Some("z"), 10));
}

#[test]
fn chain_order_is_by_number_and_only_grows() {
    let mut rows = vec![
        row("w", 2, "c", None),
        row("v", 0, "x", None),
        row("w", 0, "a", None),
        row("w", 1, "b", None),
    ];
    let ids = |rows: &[RecordRow]| -> Vec<String> {
        ordered_rows(rows, "w").iter().map(|r| r.env_id.clone()).collect()
    };
    assert_eq!(ids(&rows), vec!["a", "b", "c"]);
    rows.push(row("w", 3, "d", None));
    assert_eq!(ids(&rows), vec!["a", "b", "c", "d"]);
    rows.push(row("v", 1, "y", None));
    assert_eq!(ids(&rows), vec!["a", "b", "c", "d"]);
}

#[test]
fn ledger_has_one_envelope_to_a_line() {
    assert_eq!(ledger_jsonl(&[], "w"), "");
    let one = vec![row("w", 0, "a", None)];
    assert_eq!(ledger_jsonl(&one, "w"), "{\"a\"}");
    let rows = vec![row("w", 1, "b", None), row("v", 0, "x", None), row("w", 0, "a", None)];
    assert_eq!(ledger_jsonl(&rows, "w"), "{\"a\"}\n{\"b\"}");
}

#[test]
fn unreadable_rows_are_passed_over() {
    let parsed = vec![Some(env("a")), None, Some(env("b"))];
    let ids: Vec<String> = records(&parsed).iter().map(|e| e.id.clone()).collect();
    assert_eq!(ids, vec!["a", "b"]);
    assert!(records(&[None]).is_empty());
}

#[test]
fn earliest_record_of_a_document_is_found() {
    let rows = vec![
        row("w", 4, "late", Some("sha256:d")),
        row("w", 1, "early", Some("sha256:d")),
        row("v", 0, "else", Some("sha256:e")),
        row("v", 7, "none", None),
    ];
    assert_eq!(
        find_by_doc_hash(&rows, "sha256:d"),
        Some(("w".to_string(), "early".to_string()))
    );
    assert_eq!(
        find_by_doc_hash(&rows, "sha256:e"),
        Some(("v".to_string(), "else".to_string()))
    );
    assert_eq!(find_by_doc_hash(&rows, "sha256:f"), None);
}

#[test]
fn record_that_sealed_a_document_is_found_by_id() {
    let rows = vec![row("w", 0, "genesis", None), row("w", 1, "doc", Some("sha256:d"))];
    assert_eq!(
        find_by_env_id(&rows, "doc"),
        Some(("w".to_string(), "sha256:d".to_string()))
    );
    assert_eq!(find_by_env_id(&rows, "genesis"), None);
    assert_eq!(find_by_env_id(&rows, "unknown"), None);
}

#[test]
fn row_of_an_anchor() {
    let r = record_anchor("w", "head", "solana", "sig", "confirmed", "now");
    assert_eq!((r.lid.as_str(), r.head_id.as_str()), ("w", "head"));
    assert_eq!((r.kind.as_str(), r.reference.as_str()), ("solana", "sig"));
    assert_eq!((r.status.as_str(), r.created_at.as_str()), ("confirmed", "now"));
}

#[test]
fn anchors_of_a_work_in_order_of_their_numbers() {
    let rows = vec![
        anchor(3, "w", "solana", "failed"),
        anchor(1, "w", "ots", "pending"),
        anchor(2, "v", "ots", "pending"),
    ];
    let shown = anchors_for(&rows, "w");
    let refs: Vec<&str> = shown.iter().map(|a| a.reference.as_str()).collect();
    assert_eq!(refs, vec!["ref-1", "ref-3"]);
    assert_eq!(shown[0].kind, "ots");
    assert_eq!(shown[0].status, "pending");
    assert_eq!(shown[0].created_at, "t0");
    assert_eq!(shown[0].confirmed_at, None);
    assert!(anchors_for(&rows, "u").is_empty());
}

#[test]
fn confirmed_anchor_waits_no_more() {
    let mut rows = vec![
        anchor(1, "w", "ots", "pending"),
        anchor(2, "w", "solana", "pending"),
        anchor(3, "v", "ots", "confirmed"),
        anchor(4, "v", "ots", "pending"),
    ];
    let numbers = |rows: &[AnchorRow]| -> Vec<i64> {
        pending_anchors(rows, "ots").iter().map(|p| p.0).collect()
    };
    assert_eq!(numbers(&rows), vec![1, 4]);
    assert_eq!(
        pending_anchors(&rows, "ots")[0],
        (1, "w".to_string(), "head-1".to_string(), "ref-1".to_string())
    );
    let confirmed = confirm_anchor(rows.remove(0), "bitcoin", "t1");
    assert_eq!((confirmed.id, confirmed.lid.as_str()), (1, "w"));
    assert_eq!((confirmed.head_id.as_str(), confirmed.kind.as_str()), ("head-1", "ots"));
    assert_eq!((confirmed.reference.as_str(), confirmed.status.as_str()), ("bitcoin", "confirmed"));
    assert_eq!(confirmed.created_at, "t0");
    assert_eq!(confirmed.confirmed_at.as_deref(), Some("t1"));
    rows.insert(0, confirmed);
    assert_eq!(numbers(&rows), vec![4]);
}

#[test]
fn digests_of_known_bytes() {
    assert_eq!(
        sha256_hex_raw(b"abc"),
        "ba7816bf8f01cfea414140de5dae2223b00361a396177a9cb410ff61f20015ad"
    );
    assert_eq!(
        sha256_hex_raw(b""),
        "e3b0c44298fc1c149afbf4c8996fb92427ae41e4649b934ca495991b7852b855"
    );
}

#[test]
fn what_is_put_is_found_under_its_hash() {
    assert_eq!(cas_dir("data"), "data/cas");
    let entry = cas_put("data", b"hello");
    let hex = "2cf24dba5fb0a30e26e83b2ac5b9e29e1b161e5c1fa7425e73043362938b9824";
    assert_eq!(entry.hash, format!("sha256:{hex}"));
    assert_eq!(entry.dir, "data/cas");
    assert_eq!(entry.path, format!("data/cas/{hex}"));
    assert_eq!(cas_get("data", &entry.hash), Some(entry.path.clone()));
    assert_eq!(cas_get("data", hex), Some(entry.path));
}

#[test]
fn bytes_are_written_unless_they_are_there() {
    assert!(cas_must_write(&None, b"hello"));
    assert!(cas_must_write(&Some(b"hellO".to_vec()), b"hello"));
    assert!(cas_must_write(&Some(b"hell".to_vec()), b"hello"));
    assert!(cas_must_write(&Some(Vec::new()), b"hello"));
    assert!(!cas_must_write(&Some(b"hello".to_vec()), b"hello"));
    assert!(!cas_must_write(&Some(Vec::new()), b""));
}

#[test]
fn documents_have_their_own_files() {
    let a = cas_put("data", b"hello");
    let b = cas_put("data", b"hellO");
    assert_ne!(a.path, b.path);
    assert_eq!(cas_get("data", &a.hash), Some(a.path));
    assert_eq!(cas_get("data", &b.hash), Some(b.path));
}

#[test]
fn confirming_any_anchor_keeps_the_other_entries() {
    let table = || {
        vec![
            anchor(1, "w", "ots", "pending"),
            anchor(2, "w", "solana", "pending"),
            anchor(3, "v", "ots", "failed"),
            anchor(4, "v", "ots", "pending"),
        ]
    };
    let numbers = |rows: &[AnchorRow]| -> Vec<i64> {
        pending_anchors(rows, "ots").iter().map(|p| p.0).collect()
    };
    for (k, left) in [(0, vec![4]), (1, vec![1, 4]), (2, vec![1, 4]), (3, vec![1])] {
        let mut rows = table();
        let row = rows.remove(k);
        rows.insert(k, confirm_anchor(row, "bitcoin", "t1"));
        assert_eq!(numbers(&rows), left);
    }
}

#[test]
fn recorded_anchor_comes_last() {
    let mut rows = vec![anchor(1, "w", "ots", "pending"), anchor(2, "v", "ots", "pending")];
    let refs = |rows: &[AnchorRow], lid: &str| -> Vec<String> {
        anchors_for(rows, lid).iter().map(|a| a.reference.clone()).collect()
    };
    rows.push(anchor(3, "w", "solana", "failed"));
    assert_eq!(refs(&rows, "w"), vec!["ref-1", "ref-3"]);
    assert_eq!(refs(&rows, "v"), vec!["ref-2"]);
}

#[test]
fn text_that_is_no_hash_has_no_file() {
    let hex = "2cf24dba5fb0a30e26e83b2ac5b9e29e1b161e5c1fa7425e73043362938b9824";
    assert_eq!(cas_get("data", ""), None);
    assert_eq!(cas_get("data", &hex[..63]), None);
    assert_eq!(cas_get("data", &format!("{hex}0")), None);
    assert_eq!(cas_get("data", &format!("g{}", &hex[1..])), None);
    assert_eq!(cas_get("data", "../../../../../../../../../../../../../../../../../../../etc/passwd"), None);
    assert_eq!(cas_get("data", &format!("sha256:sha256:{}", &hex[7..])), None);
    assert_eq!(cas_get("data", &"é".repeat(32)), None);
    // upper case names a file too
    let upper = hex.to_uppercase();
    assert_eq!(cas_get("data", &upper), Some(format!("data/cas/{upper}")));
}
