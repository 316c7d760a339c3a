//! What the answers say: every member of an answer, and what it has to do with the
//! records, anchors and documents that the answer is about.

use crate::anchor::proof_file_path;
use crate::api::{
    anchor_json, anchors_json, answers, cas_verdict, certificate_json, error_json, errors_json,
    full_hash, has_ots, proof_source, record_with_id, subject_of, unknown_json, version_json,
    versions_json, work_json, ReplyModel, SubjectModel,
};
use crate::json::{lemma_find_member_at, optional_model, optional_text_model, JsonModel};
use crate::ledger::{
    chain_errors, chain_intact, law_no_error_iff_intact, record_intact, ChainErrorModel,
    EnvelopeModel, ExaminedModel,
};
use crate::outside::{hex_text, law_hex_round_trip, sha256_digest};
use crate::store::{content_hash, AnchorModel, RecordModel};
use crate::version::{
    added_json, anchor_note, created_json, doc_payload, referenced_note, work_payload, Anchoring,
    FormModel,
};
use vstd::prelude::*;

verus! {

/// A text, or null for none.
pub proof fn law_absent_is_null(text: Option<Seq<char>>, value: Option<JsonModel>)
    ensures
        text matches Some(s) ==> optional_text_model(text) == JsonModel::Text(s),
        text is None ==> optional_text_model(text) == JsonModel::Null,
        value matches Some(v) ==> optional_model(value) == v,
        value is None ==> optional_model(value) == JsonModel::Null,
{
}

// ── payloads ─────────────────────────────────────────

/// The payload of a version gives back everything that the uploader filled in, the size
/// and the hash of the document, and the record that it supersedes.
pub proof fn law_payload_gives_the_form_back(
    form: FormModel,
    doc_hash: Seq<char>,
    prev: Option<Seq<char>>,
)
    ensures
        doc_payload(form, doc_hash, prev).get("doc"@) matches Some(doc) && {
            &&& doc.get("title"@) == Some(JsonModel::Text(form.title))
            &&& doc.get("doc_type"@) == Some(JsonModel::Text(form.doc_type))
            &&& doc.get("sha256"@) == Some(JsonModel::Text(doc_hash))
            &&& doc.get("size"@) == Some(JsonModel::Integer(form.bytes.len() as int))
            &&& doc.get("mime"@) == Some(JsonModel::Text(form.mime))
            &&& doc.get("filename"@) == Some(JsonModel::Text(form.filename))
            &&& doc.get("note"@) == Some(JsonModel::Text(form.note))
            &&& doc.get("supersedes"@) == Some(
                match prev {
                    Some(id) => JsonModel::Text(id),
                    None => JsonModel::Null,
                },
            )
        },
{
    reveal_strlit("title");
    reveal_strlit("doc_type");
    reveal_strlit("sha256");
    reveal_strlit("size");
    reveal_strlit("mime");
    reveal_strlit("filename");
    reveal_strlit("note");
    reveal_strlit("supersedes");
    assert("title"@.len() == 5);
    assert("doc_type"@.len() == 8);
    assert("sha256"@.len() == 6);
    assert("size"@.len() == 4);
    assert("mime"@.len() == 4);
    assert("filename"@.len() == 8);
    assert("note"@.len() == 4);
    assert("supersedes"@.len() == 10);
    assert("mime"@[0] != "size"@[0]);
    assert("filename"@[0] != "doc_type"@[0]);
    assert("note"@[0] != "size"@[0]);
    assert("note"@[0] != "mime"@[0]);
    let outer = doc_payload(form, doc_hash, prev)->Object_0;
    lemma_find_member_at(outer, "doc"@, 0);
    let members = outer[0].value->Object_0;
    lemma_find_member_at(members, "title"@, 0);
    lemma_find_member_at(members, "doc_type"@, 1);
    lemma_find_member_at(members, "sha256"@, 2);
    lemma_find_member_at(members, "size"@, 3);
    lemma_find_member_at(members, "mime"@, 4);
    lemma_find_member_at(members, "filename"@, 5);
    lemma_find_member_at(members, "note"@, 6);
    lemma_find_member_at(members, "supersedes"@, 7);
}

/// The payload of a first record gives back the title of the work and when it was made.
pub proof fn law_first_payload_names_the_work(title: Seq<char>, now: Seq<char>)
    ensures
        work_payload(title, now).get("work"@) matches Some(work) && work.get("title"@) == Some(
            JsonModel::Text(title),
        ) && work.get("created"@) == Some(JsonModel::Text(now)),
{
    reveal_strlit("title");
    reveal_strlit("created");
    assert("title"@.len() == 5);
    assert("created"@.len() == 7);
    let outer = work_payload(title, now)->Object_0;
    lemma_find_member_at(outer, "work"@, 0);
    let members = outer[0].value->Object_0;
    lemma_find_member_at(members, "title"@, 0);
    lemma_find_member_at(members, "created"@, 1);
}

// ── creating and adding ──────────────────────────────

/// The answer on a new work names the work, its key and its token. The public link leads
/// to the work, and the owner's link is the public one with the token behind it.
pub proof fn law_created_answer(
    lid: Seq<char>,
    pubkey: Seq<char>,
    token: Seq<char>,
    base_url: Seq<char>,
)
    ensures
        ({
            let answer = created_json(lid, pubkey, token, base_url);
            let public_link = base_url + "/app?lid="@ + lid;
            &&& answer.get("lid"@) == Some(JsonModel::Text(lid))
            &&& answer.get("signer_pubkey"@) == Some(JsonModel::Text(pubkey))
            &&& answer.get("edit_token"@) == Some(JsonModel::Text(token))
            &&& answer.get("public_link"@) == Some(JsonModel::Text(public_link))
            &&& answer.get("owner_link"@) == Some(
                JsonModel::Text(public_link + "&token="@ + token),
            )
        }),
{
    reveal_strlit("lid");
    reveal_strlit("signer_pubkey");
    reveal_strlit("edit_token");
    reveal_strlit("owner_link");
    reveal_strlit("public_link");
    assert("lid"@.len() == 3);
    assert("signer_pubkey"@.len() == 13);
    assert("edit_token"@.len() == 10);
    assert("owner_link"@.len() == 10);
    assert("public_link"@.len() == 11);
    assert("owner_link"@[0] != "edit_token"@[0]);
    let members = created_json(lid, pubkey, token, base_url)->Object_0;
    lemma_find_member_at(members, "lid"@, 0);
    lemma_find_member_at(members, "signer_pubkey"@, 1);
    lemma_find_member_at(members, "edit_token"@, 2);
    lemma_find_member_at(members, "owner_link"@, 3);
    lemma_find_member_at(members, "public_link"@, 4);
}

/// The answer on a version names the work, the number, the record and the document, and
/// lists what became of the anchors.
pub proof fn law_added_answer(
    lid: Seq<char>,
    seq: int,
    head_id: Seq<char>,
    doc_hash: Seq<char>,
    anchors: Seq<JsonModel>,
)
    ensures
        ({
            let answer = added_json(lid, seq, head_id, doc_hash, anchors);
            &&& answer.get("ok"@) == Some(JsonModel::Bool(true))
            &&& answer.get("lid"@) == Some(JsonModel::Text(lid))
            &&& answer.get("seq"@) == Some(JsonModel::Integer(seq))
            &&& answer.get("env_id"@) == Some(JsonModel::Text(head_id))
            &&& answer.get("doc_sha256"@) == Some(JsonModel::Text(doc_hash))
            &&& answer.get("anchors"@) == Some(JsonModel::Array(anchors))
        }),
{
    reveal_strlit("ok");
    reveal_strlit("lid");
    reveal_strlit("seq");
    reveal_strlit("env_id");
    reveal_strlit("doc_sha256");
    reveal_strlit("anchors");
    assert("ok"@.len() == 2);
    assert("lid"@.len() == 3);
    assert("seq"@.len() == 3);
    assert("env_id"@.len() == 6);
    assert("doc_sha256"@.len() == 10);
    assert("anchors"@.len() == 7);
    assert("seq"@[0] != "lid"@[0]);
    let members = added_json(lid, seq, head_id, doc_hash, anchors)->Object_0;
    lemma_find_member_at(members, "ok"@, 0);
    lemma_find_member_at(members, "lid"@, 1);
    lemma_find_member_at(members, "seq"@, 2);
    lemma_find_member_at(members, "env_id"@, 3);
    lemma_find_member_at(members, "doc_sha256"@, 4);
    lemma_find_member_at(members, "anchors"@, 5);
}

/// What an answer says of an anchor: its kind and status, and its reference where it has
/// one.
pub proof fn law_anchor_notes(kind: Seq<char>, status: Seq<char>, reference: Seq<char>)
    ensures
        anchor_note(kind, status).get("kind"@) == Some(JsonModel::Text(kind)),
        anchor_note(kind, status).get("status"@) == Some(JsonModel::Text(status)),
        anchor_note(kind, status).get("ref"@) is None,
        referenced_note(kind, status, reference).get("kind"@) == Some(JsonModel::Text(kind)),
        referenced_note(kind, status, reference).get("status"@) == Some(JsonModel::Text(status)),
        referenced_note(kind, status, reference).get("ref"@) == Some(JsonModel::Text(reference)),
{
    reveal_strlit("kind");
    reveal_strlit("status");
    reveal_strlit("ref");
    assert("kind"@.len() == 4);
    assert("status"@.len() == 6);
    assert("ref"@.len() == 3);
    let plain = anchor_note(kind, status)->Object_0;
    lemma_find_member_at(plain, "kind"@, 0);
    lemma_find_member_at(plain, "status"@, 1);
    crate::json::lemma_find_member_none(plain, "ref"@);
    let members = referenced_note(kind, status, reference)->Object_0;
    lemma_find_member_at(members, "kind"@, 0);
    lemma_find_member_at(members, "status"@, 1);
    lemma_find_member_at(members, "ref"@, 2);
}

// ── a work ───────────────────────────────────────────

/// Whether every record has the content id and the id that are derived from it, a link
/// to the record before it, and a signature that verifies.
pub open spec fn all_sound(records: Seq<ExaminedModel>) -> bool {
    forall|i: int|
        0 <= i < records.len() ==> {
            &&& (#[trigger] records[i]).env.cid == records[i].cid
            &&& records[i].env.id == records[i].id
            &&& records[i].sig_ok
            &&& i == 0 ==> records[i].env.prev is None
            &&& i > 0 ==> records[i].env.prev == Some(records[i - 1].env.id)
        }
}

/// A chain is intact exactly when every record of it is sound.
pub proof fn law_intact_means_all_sound(records: Seq<ExaminedModel>)
    ensures
        chain_intact(records) <==> all_sound(records),
{
    if chain_intact(records) {
        assert forall|i: int| 0 <= i < records.len() implies {
            &&& (#[trigger] records[i]).env.cid == records[i].cid
            &&& records[i].env.id == records[i].id
            &&& records[i].sig_ok
            &&& i == 0 ==> records[i].env.prev is None
            &&& i > 0 ==> records[i].env.prev == Some(records[i - 1].env.id)
        } by {
            assert(record_intact(records, i));
        }
    }
    if all_sound(records) {
        assert forall|i: int| 0 <= i < records.len() implies #[trigger] record_intact(
            records,
            i,
        ) by {
            assert(records[i].env.cid == records[i].cid);
        }
    }
}

/// The answer on a work: it calls the chain sound exactly when every record is, which is
/// exactly when it lists no flaw; it lists every flaw with its position, record and
/// message; and it names the work and the key of its first record.
pub proof fn law_work_answer(lid: Seq<char>, records: Seq<ExaminedModel>, anchors: Seq<AnchorModel>)
    ensures
        ({
            let answer = work_json(lid, records, anchors);
            &&& answer.get("lid"@) == Some(JsonModel::Text(lid))
            &&& answer.get("chain_ok"@) == Some(JsonModel::Bool(all_sound(records)))
            &&& answer.get("chain_errors"@) == Some(errors_json(chain_errors(records)))
            &&& errors_json(chain_errors(records)) == JsonModel::Array(Seq::empty()) <==> all_sound(
                records,
            )
            &&& records.len() == 0 ==> answer.get("signer_key"@) == Some(JsonModel::Null)
            &&& records.len() > 0 ==> answer.get("signer_key"@) == Some(
                JsonModel::Text(records[0].env.actor.key),
            )
            &&& answer.get("versions"@) == Some(JsonModel::Array(versions_json(records)))
            &&& answer.get("anchors"@) == Some(anchors_json(anchors))
        }),
{
    reveal_strlit("lid");
    reveal_strlit("chain_ok");
    reveal_strlit("chain_errors");
    reveal_strlit("signer_key");
    reveal_strlit("versions");
    reveal_strlit("anchors");
    assert("lid"@.len() == 3);
    assert("chain_ok"@.len() == 8);
    assert("chain_errors"@.len() == 12);
    assert("signer_key"@.len() == 10);
    assert("versions"@.len() == 8);
    assert("anchors"@.len() == 7);
    assert("versions"@[0] != "chain_ok"@[0]);
    let members = work_json(lid, records, anchors)->Object_0;
    lemma_find_member_at(members, "lid"@, 0);
    lemma_find_member_at(members, "chain_ok"@, 1);
    lemma_find_member_at(members, "chain_errors"@, 2);
    lemma_find_member_at(members, "signer_key"@, 3);
    lemma_find_member_at(members, "versions"@, 4);
    lemma_find_member_at(members, "anchors"@, 5);
    law_intact_means_all_sound(records);
    law_no_error_iff_intact(records);
    let shown = errors_json(chain_errors(records))->Array_0;
    assert(shown.len() == chain_errors(records).len());
    if shown.len() == 0 {
        assert(shown =~= Seq::<JsonModel>::empty());
    }
}

/// A list of flaws is shown entry by entry, each with its position, the id of its record
/// and its message.
pub proof fn law_flaws_are_shown(errors: Seq<ChainErrorModel>)
    ensures
        errors_json(errors) matches JsonModel::Array(shown) && shown.len() == errors.len() && forall|
            k: int,
        |
            0 <= k < errors.len() ==> {
                &&& (#[trigger] shown[k]).get("index"@) == Some(JsonModel::Integer(errors[k].index))
                &&& shown[k].get("id"@) == Some(JsonModel::Text(errors[k].id))
                &&& shown[k].get("message"@) == Some(JsonModel::Text(errors[k].message))
            },
{
    reveal_strlit("index");
    reveal_strlit("id");
    reveal_strlit("message");
    assert("index"@.len() == 5);
    assert("id"@.len() == 2);
    assert("message"@.len() == 7);
    let shown = errors_json(errors)->Array_0;
    assert forall|k: int| 0 <= k < errors.len() implies {
        &&& (#[trigger] shown[k]).get("index"@) == Some(JsonModel::Integer(errors[k].index))
        &&& shown[k].get("id"@) == Some(JsonModel::Text(errors[k].id))
        &&& shown[k].get("message"@) == Some(JsonModel::Text(errors[k].message))
    } by {
        assert(shown[k] == error_json(errors[k]));
        let members = shown[k]->Object_0;
        lemma_find_member_at(members, "index"@, 0);
        lemma_find_member_at(members, "id"@, 1);
        lemma_find_member_at(members, "message"@, 2);
    }
}

/// A list of anchors is shown entry by entry, each with everything that is known of it.
pub proof fn law_anchors_are_shown(anchors: Seq<AnchorModel>)
    ensures
        anchors_json(anchors) matches JsonModel::Array(shown) && shown.len() == anchors.len()
            && forall|k: int|
            0 <= k < anchors.len() ==> {
                &&& (#[trigger] shown[k]).get("kind"@) == Some(JsonModel::Text(anchors[k].kind))
                &&& shown[k].get("reference"@) == Some(JsonModel::Text(anchors[k].reference))
                &&& shown[k].get("status"@) == Some(JsonModel::Text(anchors[k].status))
                &&& shown[k].get("created_at"@) == Some(JsonModel::Text(anchors[k].created_at))
                &&& shown[k].get("confirmed_at"@) == Some(
                    match anchors[k].confirmed_at {
                        Some(at) => JsonModel::Text(at),
                        None => JsonModel::Null,
                    },
                )
            },
{
    reveal_strlit("kind");
    reveal_strlit("reference");
    reveal_strlit("status");
    reveal_strlit("created_at");
    reveal_strlit("confirmed_at");
    assert("kind"@.len() == 4);
    assert("reference"@.len() == 9);
    assert("status"@.len() == 6);
    assert("created_at"@.len() == 10);
    assert("confirmed_at"@.len() == 12);
    let shown = anchors_json(anchors)->Array_0;
    assert forall|k: int| 0 <= k < anchors.len() implies {
        &&& (#[trigger] shown[k]).get("kind"@) == Some(JsonModel::Text(anchors[k].kind))
        &&& shown[k].get("reference"@) == Some(JsonModel::Text(anchors[k].reference))
        &&& shown[k].get("status"@) == Some(JsonModel::Text(anchors[k].status))
        &&& shown[k].get("created_at"@) == Some(JsonModel::Text(anchors[k].created_at))
        &&& shown[k].get("confirmed_at"@) == Some(
            match anchors[k].confirmed_at {
                Some(at) => JsonModel::Text(at),
                None => JsonModel::Null,
            },
        )
    } by {
        assert(shown[k] == anchor_json(anchors[k]));
        let members = shown[k]->Object_0;
        lemma_find_member_at(members, "kind"@, 0);
        lemma_find_member_at(members, "reference"@, 1);
        lemma_find_member_at(members, "status"@, 2);
        lemma_find_member_at(members, "created_at"@, 3);
        lemma_find_member_at(members, "confirmed_at"@, 4);
    }
}

/// What is shown of a version: its place in the chain, its record, and the document that
/// its payload names.
pub proof fn law_version_shown(seq: int, env: EnvelopeModel)
    ensures
        version_json(seq, env).get("seq"@) == Some(JsonModel::Integer(seq)),
        version_json(seq, env).get("env_id"@) == Some(JsonModel::Text(env.id)),
        version_json(seq, env).get("cid"@) == Some(JsonModel::Text(env.cid)),
        version_json(seq, env).get("ts"@) == Some(JsonModel::Text(env.ts)),
        version_json(seq, env).get("doc"@) == Some(
            match env.payload.get("doc"@) {
                Some(doc) => doc,
                None => JsonModel::Null,
            },
        ),
{
    reveal_strlit("seq");
    reveal_strlit("env_id");
    reveal_strlit("cid");
    reveal_strlit("ts");
    reveal_strlit("doc");
    assert("seq"@.len() == 3);
    assert("env_id"@.len() == 6);
    assert("cid"@.len() == 3);
    assert("ts"@.len() == 2);
    assert("doc"@.len() == 3);
    assert("cid"@[0] != "seq"@[0]);
    assert("doc"@[0] != "seq"@[0]);
    assert("doc"@[0] != "cid"@[0]);
    let members = version_json(seq, env)->Object_0;
    lemma_find_member_at(members, "seq"@, 0);
    lemma_find_member_at(members, "env_id"@, 1);
    lemma_find_member_at(members, "cid"@, 2);
    lemma_find_member_at(members, "ts"@, 3);
    lemma_find_member_at(members, "doc"@, 4);
}

/// How the list of versions grows: a document record adds one entry at the end, with its
/// place in the chain; any other record adds none; and an empty chain shows none.
pub proof fn law_versions_grow(records: Seq<ExaminedModel>, record: ExaminedModel)
    ensures
        versions_json(Seq::<ExaminedModel>::empty()).len() == 0,
        record.env.kind == "doc"@ ==> {
            let shown = versions_json(records.push(record));
            let doc = match record.env.payload.get("doc"@) {
                Some(doc) => doc,
                None => JsonModel::Null,
            };
            &&& shown.len() == versions_json(records).len() + 1
            &&& shown.drop_last() == versions_json(records)
            &&& shown.last().get("seq"@) == Some(JsonModel::Integer(records.len() as int))
            &&& shown.last().get("env_id"@) == Some(JsonModel::Text(record.env.id))
            &&& shown.last().get("cid"@) == Some(JsonModel::Text(record.env.cid))
            &&& shown.last().get("ts"@) == Some(JsonModel::Text(record.env.ts))
            &&& shown.last().get("doc"@) == Some(doc)
        },
        record.env.kind != "doc"@ ==> versions_json(records.push(record)) == versions_json(records),
{
    let all = records.push(record);
    assert(all.drop_last() =~= records);
    law_version_shown(records.len() as int, record.env);
    let shown = versions_json(all);
    if record.env.kind == "doc"@ {
        assert(shown.drop_last() =~= versions_json(records));
    }
}

// ── proofs ───────────────────────────────────────────

/// A proof is served exactly when there is a record and some anchor, at whatever place,
/// is an OpenTimestamps one, and it is the proof of the newest record. Why there is none
/// is said otherwise.
pub proof fn law_proof_answer(
    data_dir: Seq<char>,
    records: Seq<EnvelopeModel>,
    anchors: Seq<AnchorModel>,
)
    ensures
        records.len() == 0 ==> proof_source(data_dir, records, anchors) == Err::<
            Seq<char>,
            ReplyModel,
        >(ReplyModel::Refusal(404, "empty"@)),
        records.len() > 0 && (exists|i: int|
            0 <= i < anchors.len() && (#[trigger] anchors[i]).kind == "ots"@) ==> proof_source(
            data_dir,
            records,
            anchors,
        ) == Ok::<Seq<char>, ReplyModel>(
            proof_file_path(data_dir, records[records.len() - 1].id),
        ),
        records.len() > 0 && (forall|i: int|
            0 <= i < anchors.len() ==> (#[trigger] anchors[i]).kind != "ots"@) ==> proof_source(
            data_dir,
            records,
            anchors,
        ) == Err::<Seq<char>, ReplyModel>(ReplyModel::Refusal(404, "no ots proof"@)),
{
    if exists|i: int| 0 <= i < anchors.len() && (#[trigger] anchors[i]).kind == "ots"@ {
        assert(has_ots(anchors));
    }
}

/// A further anchor of whatever kind, at whatever place, never takes a proof away.
pub proof fn law_more_anchors_keep_the_proof(
    data_dir: Seq<char>,
    records: Seq<EnvelopeModel>,
    anchors: Seq<AnchorModel>,
    at: int,
    anchor: AnchorModel,
)
    requires
        0 <= at <= anchors.len(),
        proof_source(data_dir, records, anchors) is Ok,
    ensures
        proof_source(data_dir, records, anchors.insert(at, anchor)) == proof_source(
            data_dir,
            records,
            anchors,
        ),
{
    let more = anchors.insert(at, anchor);
    let i = choose|i: int| 0 <= i < anchors.len() && (#[trigger] anchors[i]).kind == "ots"@;
    if i < at {
        assert(more[i] == anchors[i]);
    } else {
        assert(more[i + 1] == anchors[i]);
    }
    assert(has_ots(more));
}

// ── documents by their hash ──────────────────────────

/// What is said of a stored document: the hash that was asked for, the hash of what is
/// there, and whether they are the same; of a document that is not there, that it is not.
pub proof fn law_document_answer(hash: Seq<char>, read: Seq<u8>)
    ensures
        ({
            let answer = cas_verdict(hash, Some(read));
            &&& answer.get("hash"@) == Some(JsonModel::Text(full_hash(hash)))
            &&& answer.get("present"@) == Some(JsonModel::Bool(true))
            &&& answer.get("recomputed"@) == Some(JsonModel::Text(content_hash(read)))
            &&& answer.get("ok"@) == Some(JsonModel::Bool(content_hash(read) == full_hash(hash)))
        }),
        cas_verdict(hash, None).get("present"@) == Some(JsonModel::Bool(false)),
        cas_verdict(hash, None).get("ok"@) == Some(JsonModel::Bool(false)),
{
    reveal_strlit("hash");
    reveal_strlit("present");
    reveal_strlit("recomputed");
    reveal_strlit("ok");
    assert("hash"@.len() == 4);
    assert("present"@.len() == 7);
    assert("recomputed"@.len() == 10);
    assert("ok"@.len() == 2);
    let members = cas_verdict(hash, Some(read))->Object_0;
    lemma_find_member_at(members, "hash"@, 0);
    lemma_find_member_at(members, "present"@, 1);
    lemma_find_member_at(members, "recomputed"@, 2);
    lemma_find_member_at(members, "ok"@, 3);
    let missing = cas_verdict(hash, None)->Object_0;
    lemma_find_member_at(missing, "present"@, 0);
    lemma_find_member_at(missing, "ok"@, 1);
}

/// The full form of a hash begins with `sha256:`; it is a hash that has it already, and
/// otherwise the hash behind it. Both forms of the hash of a document have the same one.
pub proof fn law_full_hash(hash: Seq<char>, bytes: Seq<u8>)
    ensures
        "sha256:"@.is_prefix_of(full_hash(hash)),
        full_hash(full_hash(hash)) == full_hash(hash),
        "sha256:"@.is_prefix_of(hash) ==> full_hash(hash) == hash,
        !"sha256:"@.is_prefix_of(hash) ==> full_hash(hash) == "sha256:"@ + hash,
        full_hash(content_hash(bytes)) == content_hash(bytes),
        full_hash(hex_text(sha256_digest(bytes))) == content_hash(bytes),
{
    assert("sha256:"@.is_prefix_of("sha256:"@ + hash));
    let hex = hex_text(sha256_digest(bytes));
    assert("sha256:"@.is_prefix_of("sha256:"@ + hex));
    law_hex_round_trip(sha256_digest(bytes));
    reveal_strlit("sha256:");
    assert("sha256:"@.len() == 7 && "sha256:"@[0] == 's');
    if "sha256:"@.is_prefix_of(hex) {
        assert(hex[0] == "sha256:"@[0]);
        assert(crate::outside::is_hex_digit(hex[0]));
    }
}

// ── certificates ─────────────────────────────────────

/// What a request asks about: a file before anything else, then a hash in either form,
/// then the id of a record. A file and its hash ask about the same document, and a
/// request with nothing asks about nothing.
pub proof fn law_subject_of_a_request(
    bytes: Seq<u8>,
    hash: Option<Seq<char>>,
    id: Option<Seq<char>>,
)
    ensures
        bytes.len() > 0 ==> subject_of(bytes, hash, id) == Some(
            SubjectModel::Document(content_hash(bytes)),
        ),
        subject_of(Seq::empty(), Some(content_hash(bytes)), id) == Some(
            SubjectModel::Document(content_hash(bytes)),
        ),
        subject_of(Seq::empty(), Some(hex_text(sha256_digest(bytes))), id) == Some(
            SubjectModel::Document(content_hash(bytes)),
        ),
        hash matches Some(h) ==> subject_of(Seq::empty(), hash, id) == Some(
            SubjectModel::Document(full_hash(h)),
        ),
        id matches Some(i) ==> subject_of(Seq::empty(), None, id) == Some(SubjectModel::Record(i)),
        subject_of(Seq::empty(), None, None) is None,
{
    law_full_hash(Seq::empty(), bytes);
}

/// Which rows answer: for a document a row that sealed it, none of which has a smaller
/// number; for a record the row of that id, if it sealed a document.
pub proof fn law_which_rows_answer(rows: Seq<RecordModel>, text: Seq<char>, i: int)
    ensures
        answers(rows, SubjectModel::Document(text), i) <==> 0 <= i < rows.len()
            && rows[i].doc_sha256 == Some(text) && (forall|j: int|
            0 <= j < rows.len() && (#[trigger] rows[j]).doc_sha256 == Some(text) ==> rows[i].seq
                <= rows[j].seq),
        answers(rows, SubjectModel::Record(text), i) <==> 0 <= i < rows.len() && rows[i].env_id
            == text && rows[i].doc_sha256 is Some,
{
}

/// The record with an id is the first that has it, and there is none exactly when none
/// has it.
pub proof fn law_record_with_id(records: Seq<ExaminedModel>, id: Seq<char>)
    ensures
        record_with_id(records, id) is None <==> forall|i: int|
            0 <= i < records.len() ==> (#[trigger] records[i]).env.id != id,
        forall|i: int|
            0 <= i < records.len() && (#[trigger] records[i]).env.id == id && (forall|j: int|
                0 <= j < i ==> (#[trigger] records[j]).env.id != id) ==> record_with_id(records, id)
                == Some(records[i].env),
    decreases records.len(),
{
    if records.len() > 0 {
        let rest = records.drop_first();
        law_record_with_id(rest, id);
        if records[0].env.id != id {
            assert forall|i: int|
                0 <= i < records.len() && (#[trigger] records[i]).env.id == id && (forall|j: int|
                    0 <= j < i ==> (#[trigger] records[j]).env.id != id) implies record_with_id(
                records,
                id,
            ) == Some(records[i].env) by {
                assert(rest[i - 1] == records[i]);
                assert forall|j: int| 0 <= j < i - 1 implies (#[trigger] rest[j]).env.id != id by {
                    assert(rest[j] == records[j + 1]);
                }
            }
            if record_with_id(rest, id) is None {
                assert forall|i: int| 0 <= i < records.len() implies (#[trigger] records[i]).env.id
                    != id by {
                    if i > 0 {
                        assert(rest[i - 1] == records[i]);
                    }
                }
            }
            if forall|i: int| 0 <= i < records.len() ==> (#[trigger] records[i]).env.id != id {
                assert forall|i: int| 0 <= i < rest.len() implies (#[trigger] rest[i]).env.id
                    != id by {
                    assert(rest[i] == records[i + 1]);
                }
            }
        }
    }
}

/// A certificate names the document, the work and the record that it was asked for, and
/// says whether the chain is sound and what anchors there are. Of the record itself it
/// gives the time, the key and the document; where the record cannot be read, null.
pub proof fn law_certificate_answer(
    doc_hash: Seq<char>,
    lid: Seq<char>,
    env_id: Seq<char>,
    records: Seq<ExaminedModel>,
    anchors: Seq<AnchorModel>,
)
    ensures
        ({
            let answer = certificate_json(doc_hash, lid, env_id, records, anchors);
            &&& answer.get("found"@) == Some(JsonModel::Bool(true))
            &&& answer.get("sha256"@) == Some(JsonModel::Text(doc_hash))
            &&& answer.get("lid"@) == Some(JsonModel::Text(lid))
            &&& answer.get("env_id"@) == Some(JsonModel::Text(env_id))
            &&& answer.get("chain_ok"@) == Some(JsonModel::Bool(all_sound(records)))
            &&& answer.get("anchors"@) == Some(anchors_json(anchors))
            &&& answer.get("note"@) == Some(
                JsonModel::Text(
                    "Verify trustlessly offline: download ledger.jsonl + proof.ots, then run `ots verify` and re-derive the chain."@,
                ),
            )
            &&& forall|i: int|
                0 <= i < records.len() && (#[trigger] records[i]).env.id == env_id && (forall|
                    j: int,
                |
                    0 <= j < i ==> (#[trigger] records[j]).env.id != env_id) ==> {
                    &&& answer.get("sealed_at"@) == Some(JsonModel::Text(records[i].env.ts))
                    &&& answer.get("signer_key"@) == Some(
                        JsonModel::Text(records[i].env.actor.key),
                    )
                    &&& answer.get("doc"@) == Some(
                        match records[i].env.payload.get("doc"@) {
                            Some(doc) => doc,
                            None => JsonModel::Null,
                        },
                    )
                }
            &&& (forall|i: int| 0 <= i < records.len() ==> (#[trigger] records[i]).env.id != env_id)
                ==> {
                &&& answer.get("sealed_at"@) == Some(JsonModel::Null)
                &&& answer.get("signer_key"@) == Some(JsonModel::Null)
                &&& answer.get("doc"@) == Some(JsonModel::Null)
            }
        }),
{
    reveal_strlit("found");
    reveal_strlit("sha256");
    reveal_strlit("lid");
    reveal_strlit("env_id");
    reveal_strlit("sealed_at");
    reveal_strlit("signer_key");
    reveal_strlit("doc");
    reveal_strlit("chain_ok");
    reveal_strlit("anchors");
    reveal_strlit("note");
    assert("found"@.len() == 5);
    assert("sha256"@.len() == 6);
    assert("lid"@.len() == 3);
    assert("env_id"@.len() == 6);
    assert("sealed_at"@.len() == 9);
    assert("signer_key"@.len() == 10);
    assert("doc"@.len() == 3);
    assert("chain_ok"@.len() == 8);
    assert("anchors"@.len() == 7);
    assert("note"@.len() == 4);
    assert("env_id"@[0] != "sha256"@[0]);
    assert("doc"@[0] != "lid"@[0]);
    let members = certificate_json(doc_hash, lid, env_id, records, anchors)->Object_0;
    lemma_find_member_at(members, "found"@, 0);
    lemma_find_member_at(members, "sha256"@, 1);
    lemma_find_member_at(members, "lid"@, 2);
    lemma_find_member_at(members, "env_id"@, 3);
    lemma_find_member_at(members, "sealed_at"@, 4);
    lemma_find_member_at(members, "signer_key"@, 5);
    lemma_find_member_at(members, "doc"@, 6);
    lemma_find_member_at(members, "chain_ok"@, 7);
    lemma_find_member_at(members, "anchors"@, 8);
    lemma_find_member_at(members, "note"@, 9);
    law_intact_means_all_sound(records);
    law_record_with_id(records, env_id);
}

/// The answer on what no record sealed repeats what was asked about.
pub proof fn law_unknown_answer(text: Seq<char>)
    ensures
        unknown_json(SubjectModel::Document(text)).get("found"@) == Some(JsonModel::Bool(false)),
        unknown_json(SubjectModel::Document(text)).get("sha256"@) == Some(JsonModel::Text(text)),
        unknown_json(SubjectModel::Record(text)).get("found"@) == Some(JsonModel::Bool(false)),
        unknown_json(SubjectModel::Record(text)).get("env_id"@) == Some(JsonModel::Text(text)),
{
    reveal_strlit("found");
    reveal_strlit("sha256");
    reveal_strlit("env_id");
    assert("found"@.len() == 5);
    assert("sha256"@.len() == 6);
    assert("env_id"@.len() == 6);
    assert("env_id"@[0] != "sha256"@[0]);
    let document = unknown_json(SubjectModel::Document(text))->Object_0;
    lemma_find_member_at(document, "found"@, 0);
    lemma_find_member_at(document, "sha256"@, 1);
    let record = unknown_json(SubjectModel::Record(text))->Object_0;
    lemma_find_member_at(record, "found"@, 0);
    lemma_find_member_at(record, "env_id"@, 1);
}

/// Two stages of anchoring are of the same version exactly when they agree in the work, the
/// number, the head, the document and the time.
pub proof fn law_same_version(a: Anchoring, b: Anchoring)
    ensures
        a.same_version(b) <==> a.lid@ == b.lid@ && a.seq == b.seq && a.head_id@ == b.head_id@
            && a.doc_hash@ == b.doc_hash@ && a.now@ == b.now@,
{
}

} // verus!
