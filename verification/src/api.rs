//! The answers of the public interface.
//!
//! Each function takes what was read for a request and gives the answer to it. Reading
//! the request, the tables and the files, and sending the answer, is done elsewhere.

use crate::anchor::{ots_paths, proof_file_path};
use crate::json::{member, optional_model, optional_text_model, put, Json, JsonModel, Member};
use crate::ledger::{
    chain_errors, chain_intact, error_models, examined_models, verify_chain, ChainError,
    ChainErrorModel, Envelope, EnvelopeModel, Examined, ExaminedModel,
};
use crate::store::{
    anchor_models, anchor_row_models, chain_rows, confirm_anchor, confirmed, content_hash, envelope_models,
    find_by_doc_hash, find_by_env_id, is_earliest, is_pending, joined_lines, json_lines,
    ledger_jsonl, record_models, seals_as, sha256_hex_raw, Anchor, AnchorModel, AnchorRow,
    AnchorRowModel, RecordModel, RecordRow,
};
use crate::text::{chars_of, join2, join3, same_text, strip_prefix, trim, trimmed};
use vstd::prelude::*;
use vstd::utf8::*;

verus! {

/// An answer.
#[derive(Debug)]
pub enum Reply {
    /// A plain text with a status other than success.
    Refusal { status: u16, text: String },
    /// A JSON value.
    Value(Json),
    /// Bytes, with the headers that describe them.
    Content { headers: Vec<(String, String)>, bytes: Vec<u8> },
}

/// What an answer stands for.
pub enum ReplyModel {
    Refusal(int, Seq<char>),
    Value(JsonModel),
    Content(Seq<(Seq<char>, Seq<char>)>, Seq<u8>),
}

/// What headers stand for.
pub open spec fn header_models(headers: Seq<(String, String)>) -> Seq<(Seq<char>, Seq<char>)> {
    Seq::new(headers.len(), |i: int| (headers[i].0@, headers[i].1@))
}

impl View for Reply {
    type V = ReplyModel;

    open spec fn view(&self) -> ReplyModel {
        match self {
            Reply::Refusal { status, text } => ReplyModel::Refusal(*status as int, text@),
            Reply::Value(value) => ReplyModel::Value(value@),
            Reply::Content { headers, bytes } => ReplyModel::Content(
                header_models(headers@),
                bytes@,
            ),
        }
    }
}

/// A refusal.
pub fn refuse(status: u16, text: &str) -> (r: Reply)
    ensures
        r@ == ReplyModel::Refusal(status as int, text@),
{
    Reply::Refusal { status, text: text.to_owned() }
}

/// Puts a header at the end.
fn put_header(headers: &mut Vec<(String, String)>, name: &str, value: String)
    ensures
        header_models(final(headers)@) == header_models(old(headers)@).push((name@, value@)),
{
    headers.push((name.to_owned(), value));
    assert(header_models(headers@) =~= header_models(old(headers)@).push((name@, value@)));
}

// ── parts of an answer ───────────────────────────────

/// A flaw of a chain as JSON.
pub open spec fn error_json(error: ChainErrorModel) -> JsonModel {
    JsonModel::Object(
        seq![
            member("index"@, JsonModel::Integer(error.index)),
            member("id"@, JsonModel::Text(error.id)),
            member("message"@, JsonModel::Text(error.message)),
        ],
    )
}

/// The flaws of a chain as JSON.
pub open spec fn errors_json(errors: Seq<ChainErrorModel>) -> JsonModel {
    JsonModel::Array(errors.map_values(|e: ChainErrorModel| error_json(e)))
}

fn error_value(error: &ChainError) -> (r: Json)
    ensures
        r@ == error_json(error@),
{
    let mut members: Vec<Member> = Vec::new();
    put(&mut members, "index", Json::Integer(error.index as i128));
    put(&mut members, "id", Json::text(error.id.as_str()));
    put(&mut members, "message", Json::text(error.message.as_str()));
    let r = Json::object(members);
    assert(r@->Object_0 =~= error_json(error@)->Object_0);
    r
}

fn errors_value(errors: &Vec<ChainError>) -> (r: Json)
    ensures
        r@ == errors_json(error_models(errors@)),
{
    let mut items: Vec<Json> = Vec::new();
    let mut i: usize = 0;
    while i < errors.len()
        invariant
            i <= errors.len(),
            items.len() == i,
            forall|j: int| 0 <= j < i ==> (#[trigger] items@[j])@ == error_json(errors@[j]@),
        decreases errors.len() - i,
    {
        items.push(error_value(&errors[i]));
        i = i + 1;
    }
    let r = Json::array(items);
    assert(r@->Array_0 =~= errors_json(error_models(errors@))->Array_0);
    r
}

/// An anchor as JSON.
pub open spec fn anchor_json(anchor: AnchorModel) -> JsonModel {
    JsonModel::Object(
        seq![
            member("kind"@, JsonModel::Text(anchor.kind)),
            member("reference"@, JsonModel::Text(anchor.reference)),
            member("status"@, JsonModel::Text(anchor.status)),
            member("created_at"@, JsonModel::Text(anchor.created_at)),
            member("confirmed_at"@, optional_text_model(anchor.confirmed_at)),
        ],
    )
}

/// Anchors as JSON.
pub open spec fn anchors_json(anchors: Seq<AnchorModel>) -> JsonModel {
    JsonModel::Array(anchors.map_values(|a: AnchorModel| anchor_json(a)))
}

fn anchor_value(anchor: &Anchor) -> (r: Json)
    ensures
        r@ == anchor_json(anchor@),
{
    let mut members: Vec<Member> = Vec::new();
    put(&mut members, "kind", Json::text(anchor.kind.as_str()));
    put(&mut members, "reference", Json::text(anchor.reference.as_str()));
    put(&mut members, "status", Json::text(anchor.status.as_str()));
    put(&mut members, "created_at", Json::text(anchor.created_at.as_str()));
    put(&mut members, "confirmed_at", Json::optional_text(&anchor.confirmed_at));
    let r = Json::object(members);
    assert(r@->Object_0 =~= anchor_json(anchor@)->Object_0);
    r
}

fn anchors_value(anchors: &[Anchor]) -> (r: Json)
    ensures
        r@ == anchors_json(anchor_models(anchors@)),
{
    let mut items: Vec<Json> = Vec::new();
    let mut i: usize = 0;
    while i < anchors.len()
        invariant
            i <= anchors.len(),
            items.len() == i,
            forall|j: int| 0 <= j < i ==> (#[trigger] items@[j])@ == anchor_json(anchors@[j]@),
        decreases anchors.len() - i,
    {
        items.push(anchor_value(&anchors[i]));
        i = i + 1;
    }
    let r = Json::array(items);
    assert(r@->Array_0 =~= anchors_json(anchor_models(anchors@))->Array_0);
    r
}

/// A document version as JSON: the record at position `seq`.
pub open spec fn version_json(seq: int, env: EnvelopeModel) -> JsonModel {
    JsonModel::Object(
        seq![
            member("seq"@, JsonModel::Integer(seq)),
            member("env_id"@, JsonModel::Text(env.id)),
            member("cid"@, JsonModel::Text(env.cid)),
            member("ts"@, JsonModel::Text(env.ts)),
            member("doc"@, optional_model(env.payload.get("doc"@))),
        ],
    )
}

/// The document versions among records, each with its position in the chain.
pub open spec fn versions_json(records: Seq<ExaminedModel>) -> Seq<JsonModel>
    decreases records.len(),
{
    if records.len() == 0 {
        seq![]
    } else {
        let before = versions_json(records.drop_last());
        if records.last().env.kind == "doc"@ {
            before.push(version_json(records.len() - 1, records.last().env))
        } else {
            before
        }
    }
}

fn version_value(seq: usize, env: &Envelope) -> (r: Json)
    ensures
        r@ == version_json(seq as int, env@),
{
    let mut members: Vec<Member> = Vec::new();
    put(&mut members, "seq", Json::Integer(seq as i128));
    put(&mut members, "env_id", Json::text(env.id.as_str()));
    put(&mut members, "cid", Json::text(env.cid.as_str()));
    put(&mut members, "ts", Json::text(env.ts.as_str()));
    put(&mut members, "doc", Json::optional(env.payload.get("doc")));
    let r = Json::object(members);
    assert(r@->Object_0 =~= version_json(seq as int, env@)->Object_0);
    r
}

fn versions_value(records: &[Examined]) -> (r: Json)
    ensures
        r@ == JsonModel::Array(versions_json(examined_models(records@))),
{
    let ghost models = examined_models(records@);
    let mut items: Vec<Json> = Vec::new();
    let mut i: usize = 0;
    assert(items@.map_values(|v: Json| v@) =~= versions_json(models.take(0)));
    while i < records.len()
        invariant
            i <= records.len(),
            models == examined_models(records@),
            items@.map_values(|v: Json| v@) == versions_json(models.take(i as int)),
        decreases records.len() - i,
    {
        let env = &records[i].env;
        assert(models.take(i + 1).drop_last() =~= models.take(i as int));
        assert(models.take(i + 1).last() == records@[i as int]@);
        if same_text(env.kind.as_str(), "doc") {
            let ghost before = items@;
            let version = version_value(i, env);
            items.push(version);
            assert(items@.map_values(|v: Json| v@) =~= before.map_values(|v: Json| v@).push(
                version@,
            ));
        }
        i = i + 1;
    }
    assert(models.take(i as int) =~= models);
    Json::array(items)
}

// ── reading a work ───────────────────────────────────

/// The key of the first record.
pub open spec fn first_key(records: Seq<ExaminedModel>) -> Option<Seq<char>> {
    if records.len() == 0 {
        None
    } else {
        Some(records[0].env.actor.key)
    }
}

/// What is shown of a work.
pub open spec fn work_json(
    lid: Seq<char>,
    records: Seq<ExaminedModel>,
    anchors: Seq<AnchorModel>,
) -> JsonModel {
    JsonModel::Object(
        seq![
            member("lid"@, JsonModel::Text(lid)),
            member("chain_ok"@, JsonModel::Bool(chain_intact(records))),
            member("chain_errors"@, errors_json(chain_errors(records))),
            member("signer_key"@, optional_text_model(first_key(records))),
            member("versions"@, JsonModel::Array(versions_json(records))),
            member("anchors"@, anchors_json(anchors)),
        ],
    )
}

/// A work: its versions, the state of its chain and its anchors. `exists` is whether
/// there is such a work.
pub fn get_work(lid: &str, exists: bool, records: &[Examined], anchors: &[Anchor]) -> (r: Reply)
    ensures
        r@ == (if exists {
            ReplyModel::Value(
                work_json(lid@, examined_models(records@), anchor_models(anchors@)),
            )
        } else {
            ReplyModel::Refusal(404, "no such work"@)
        }),
{
    if !exists {
        return refuse(404, "no such work");
    }
    let report = verify_chain(records);
    let key: Option<String> = if records.len() > 0 {
        Some(records[0].env.actor.key.clone())
    } else {
        None
    };
    let mut members: Vec<Member> = Vec::new();
    put(&mut members, "lid", Json::text(lid));
    put(&mut members, "chain_ok", Json::Bool(report.ok));
    put(&mut members, "chain_errors", errors_value(&report.errors));
    put(&mut members, "signer_key", Json::optional_text(&key));
    put(&mut members, "versions", versions_value(records));
    put(&mut members, "anchors", anchors_value(anchors));
    let value = Json::object(members);
    assert(value@->Object_0 =~= work_json(
        lid@,
        examined_models(records@),
        anchor_models(anchors@),
    )->Object_0);
    Reply::Value(value)
}

/// The ledger of a work, one envelope to a line.
pub fn get_ledger(lid: &str, exists: bool, rows: &[RecordRow]) -> (r: Reply)
    ensures
        r@ == (if exists {
            ReplyModel::Content(
                seq![("content-type"@, "application/x-ndjson"@)],
                encode_utf8(joined_lines(json_lines(chain_rows(record_models(rows@), lid@)))),
            )
        } else {
            ReplyModel::Refusal(404, "no such work"@)
        }),
{
    if !exists {
        return refuse(404, "no such work");
    }
    let jsonl = ledger_jsonl(rows, lid);
    let mut headers: Vec<(String, String)> = Vec::new();
    put_header(&mut headers, "content-type", "application/x-ndjson".to_owned());
    assert(header_models(headers@) =~= seq![("content-type"@, "application/x-ndjson"@)]);
    Reply::Content { headers, bytes: jsonl.as_str().as_bytes_vec() }
}

/// Whether one of the anchors is an OpenTimestamps proof.
pub open spec fn has_ots(anchors: Seq<AnchorModel>) -> bool {
    exists|i: int| 0 <= i < anchors.len() && (#[trigger] anchors[i]).kind == "ots"@
}

fn any_ots(anchors: &[Anchor]) -> (r: bool)
    ensures
        r == has_ots(anchor_models(anchors@)),
{
    let ghost models = anchor_models(anchors@);
    let mut i: usize = 0;
    while i < anchors.len()
        invariant
            i <= anchors.len(),
            models == anchor_models(anchors@),
            forall|j: int| 0 <= j < i ==> (#[trigger] models[j]).kind != "ots"@,
        decreases anchors.len() - i,
    {
        assert(models[i as int] == anchors@[i as int]@);
        if same_text(anchors[i].kind.as_str(), "ots") {
            return true;
        }
        i = i + 1;
    }
    false
}

/// The file of the proof on a work's newest record, or why there is none.
pub open spec fn proof_source(
    data_dir: Seq<char>,
    records: Seq<EnvelopeModel>,
    anchors: Seq<AnchorModel>,
) -> Result<Seq<char>, ReplyModel> {
    if records.len() == 0 {
        Err(ReplyModel::Refusal(404, "empty"@))
    } else if !has_ots(anchors) {
        Err(ReplyModel::Refusal(404, "no ots proof"@))
    } else {
        Ok(proof_file_path(data_dir, records.last().id))
    }
}

/// The file that holds the proof on a work's newest record, or the answer when there is
/// none to look for.
pub fn get_proof(data_dir: &str, records: &[Envelope], anchors: &[Anchor]) -> (r: Result<
    String,
    Reply,
>)
    ensures
        match r {
            Ok(path) => proof_source(data_dir@, envelope_models(records@), anchor_models(anchors@))
                == Ok::<Seq<char>, ReplyModel>(path@),
            Err(reply) => proof_source(
                data_dir@,
                envelope_models(records@),
                anchor_models(anchors@),
            ) == Err::<Seq<char>, ReplyModel>(reply@),
        },
{
    if records.len() == 0 {
        return Err(refuse(404, "empty"));
    }
    if !any_ots(anchors) {
        return Err(refuse(404, "no ots proof"));
    }
    let last = &records[records.len() - 1];
    Ok(ots_paths(data_dir, last.id.as_str()).1)
}

/// The answer with a proof that was read, or without one that could not be.
pub fn proof_reply(lid: &str, read: Option<Vec<u8>>) -> (r: Reply)
    ensures
        r@ == (match read {
            Some(bytes) => ReplyModel::Content(
                seq![
                    ("content-type"@, "application/octet-stream"@),
                    (
                        "content-disposition"@,
                        "attachment; filename=\""@ + lid@ + ".head.ots\""@,
                    ),
                ],
                bytes@,
            ),
            None => ReplyModel::Refusal(404, "proof not ready"@),
        }),
{
    match read {
        Some(bytes) => {
            let mut headers: Vec<(String, String)> = Vec::new();
            put_header(&mut headers, "content-type", "application/octet-stream".to_owned());
            put_header(
                &mut headers,
                "content-disposition",
                join3("attachment; filename=\"", lid, ".head.ots\""),
            );
            assert(header_models(headers@) =~= seq![
                ("content-type"@, "application/octet-stream"@),
                ("content-disposition"@, "attachment; filename=\""@ + lid@ + ".head.ots\""@),
            ]);
            Reply::Content { headers, bytes }
        },
        None => refuse(404, "proof not ready"),
    }
}

// ── documents by their hash ──────────────────────────

/// The answer with the document of a hash, or without one.
pub fn cas_get(read: Option<Vec<u8>>) -> (r: Reply)
    ensures
        r@ == (match read {
            Some(bytes) => ReplyModel::Content(
                seq![
                    ("content-type"@, "application/octet-stream"@),
                    ("cache-control"@, "public, max-age=31536000, immutable"@),
                ],
                bytes@,
            ),
            None => ReplyModel::Refusal(404, "not found"@),
        }),
{
    match read {
        Some(bytes) => {
            let mut headers: Vec<(String, String)> = Vec::new();
            put_header(&mut headers, "content-type", "application/octet-stream".to_owned());
            put_header(
                &mut headers,
                "cache-control",
                "public, max-age=31536000, immutable".to_owned(),
            );
            assert(header_models(headers@) =~= seq![
                ("content-type"@, "application/octet-stream"@),
                ("cache-control"@, "public, max-age=31536000, immutable"@),
            ]);
            Reply::Content { headers, bytes }
        },
        None => refuse(404, "not found"),
    }
}

/// A hash with the `sha256:` that it has to begin with.
pub open spec fn full_hash(hash: Seq<char>) -> Seq<char> {
    if "sha256:"@.is_prefix_of(hash) {
        hash
    } else {
        "sha256:"@ + hash
    }
}

/// The hash with the `sha256:` that it has to begin with.
fn with_prefix(hash: &str) -> (r: String)
    ensures
        r@ == full_hash(hash@),
{
    match strip_prefix(hash, "sha256:") {
        Some(rest) => {
            assert("sha256:"@.is_prefix_of("sha256:"@ + rest@));
            hash.to_owned()
        },
        None => join2("sha256:", hash),
    }
}

/// What is said of a stored document: the wanted hash, the hash of the bytes that are
/// there, and whether they are the same.
pub open spec fn cas_verdict(hash: Seq<char>, read: Option<Seq<u8>>) -> JsonModel {
    match read {
        Some(bytes) => JsonModel::Object(
            seq![
                member("hash"@, JsonModel::Text(full_hash(hash))),
                member("present"@, JsonModel::Bool(true)),
                member("recomputed"@, JsonModel::Text(content_hash(bytes))),
                member("ok"@, JsonModel::Bool(content_hash(bytes) == full_hash(hash))),
            ],
        ),
        None => JsonModel::Object(
            seq![
                member("present"@, JsonModel::Bool(false)),
                member("ok"@, JsonModel::Bool(false)),
            ],
        ),
    }
}

/// Checks a stored document against its hash.
pub fn cas_verify(hash: &str, read: &Option<Vec<u8>>) -> (r: Reply)
    ensures
        r@ == ReplyModel::Value(
            cas_verdict(
                hash@,
                match *read {
                    Some(bytes) => Some(bytes@),
                    None => None,
                },
            ),
        ),
{
    match read {
        Some(bytes) => {
            let hex = sha256_hex_raw(bytes.as_slice());
            let recomputed = join2("sha256:", hex.as_str());
            let want = with_prefix(hash);
            let ok = same_text(recomputed.as_str(), want.as_str());
            let mut members: Vec<Member> = Vec::new();
            put(&mut members, "hash", Json::Text(want));
            put(&mut members, "present", Json::Bool(true));
            put(&mut members, "recomputed", Json::Text(recomputed));
            put(&mut members, "ok", Json::Bool(ok));
            let value = Json::object(members);
            assert(value@->Object_0 =~= cas_verdict(hash@, Some(bytes@))->Object_0);
            Reply::Value(value)
        },
        None => {
            let mut members: Vec<Member> = Vec::new();
            put(&mut members, "present", Json::Bool(false));
            put(&mut members, "ok", Json::Bool(false));
            let value = Json::object(members);
            assert(value@->Object_0 =~= cas_verdict(hash@, None)->Object_0);
            Reply::Value(value)
        },
    }
}

// ── public verification ──────────────────────────────

/// What a request for a certificate asks about.
#[derive(Debug)]
pub enum Subject {
    /// The document with that hash.
    Document(String),
    /// The document that the record with that id sealed.
    Record(String),
}

/// What the subject of a request stands for.
pub enum SubjectModel {
    Document(Seq<char>),
    Record(Seq<char>),
}

impl View for Subject {
    type V = SubjectModel;

    open spec fn view(&self) -> SubjectModel {
        match self {
            Subject::Document(hash) => SubjectModel::Document(hash@),
            Subject::Record(id) => SubjectModel::Record(id@),
        }
    }
}

/// The subject of a request that may carry the bytes of a document, its hash and the id
/// of a record; the first of them that is there counts.
pub open spec fn subject_of(
    bytes: Seq<u8>,
    hash: Option<Seq<char>>,
    id: Option<Seq<char>>,
) -> Option<SubjectModel> {
    if bytes.len() > 0 {
        Some(SubjectModel::Document(content_hash(bytes)))
    } else {
        match (hash, id) {
            (Some(h), _) => Some(SubjectModel::Document(full_hash(h))),
            (None, Some(i)) => Some(SubjectModel::Record(i)),
            (None, None) => None,
        }
    }
}

/// The subject of a request. One that names none is refused.
pub fn subject(bytes: &[u8], hash: Option<String>, id: Option<String>) -> (r: Result<
    Subject,
    Reply,
>)
    ensures
        match r {
            Ok(subject) => subject_of(bytes@, chars_of(hash), chars_of(id)) == Some(subject@),
            Err(reply) => subject_of(bytes@, chars_of(hash), chars_of(id)) is None && reply@
                == ReplyModel::Refusal(400, "no file"@),
        },
{
    if bytes.len() > 0 {
        let hex = sha256_hex_raw(bytes);
        return Ok(Subject::Document(join2("sha256:", hex.as_str())));
    }
    match hash {
        Some(h) => Ok(Subject::Document(with_prefix(h.as_str()))),
        None => match id {
            Some(i) => Ok(Subject::Record(i)),
            None => Err(refuse(400, "no file")),
        },
    }
}

/// A document that a record sealed.
#[derive(Debug)]
pub struct Seal {
    pub doc_hash: String,
    pub lid: String,
    pub env_id: String,
}

/// Whether the row at position `i` answers a request: it is the earliest record of the
/// document, or the record with the id, that was asked about.
pub open spec fn answers(rows: Seq<RecordModel>, subject: SubjectModel, i: int) -> bool {
    match subject {
        SubjectModel::Document(hash) => is_earliest(rows, hash, i),
        SubjectModel::Record(id) => seals_as(rows, id, i),
    }
}

/// Finds the record that a request asks about.
pub fn find_seal(rows: &[RecordRow], subject: &Subject) -> (r: Option<Seal>)
    ensures
        match r {
            Some(seal) => exists|i: int| #[trigger]
                answers(record_models(rows@), subject@, i) && record_models(rows@)[i].lid
                    == seal.lid@ && record_models(rows@)[i].env_id == seal.env_id@
                    && record_models(rows@)[i].doc_sha256 == Some(seal.doc_hash@),
            None => forall|i: int| !#[trigger] answers(record_models(rows@), subject@, i),
        },
{
    let ghost models = record_models(rows@);
    match subject {
        Subject::Document(hash) => match find_by_doc_hash(rows, hash.as_str()) {
            Some((lid, env_id)) => {
                proof {
                    let i = choose|i: int| #[trigger]
                        is_earliest(models, hash@, i) && models[i].lid == lid@ && models[i].env_id
                            == env_id@;
                    assert(answers(models, subject@, i));
                }
                Some(Seal { doc_hash: hash.clone(), lid, env_id })
            },
            None => None,
        },
        Subject::Record(id) => match find_by_env_id(rows, id.as_str()) {
            Some((lid, doc_hash)) => {
                proof {
                    let i = choose|i: int| #[trigger]
                        seals_as(models, id@, i) && models[i].lid == lid@ && models[i].doc_sha256
                            == Some(doc_hash@);
                    assert(answers(models, subject@, i));
                }
                Some(Seal { doc_hash, lid, env_id: id.clone() })
            },
            None => {
                assert forall|i: int| !#[trigger] answers(models, subject@, i) by {
                    assert(!seals_as(models, id@, i));
                }
                None
            },
        },
    }
}

/// The first record with that id.
pub open spec fn record_with_id(records: Seq<ExaminedModel>, id: Seq<char>) -> Option<EnvelopeModel>
    decreases records.len(),
{
    if records.len() == 0 {
        None
    } else if records[0].env.id == id {
        Some(records[0].env)
    } else {
        record_with_id(records.drop_first(), id)
    }
}

proof fn lemma_record_skip(records: Seq<ExaminedModel>, id: Seq<char>, i: int)
    requires
        0 <= i <= records.len(),
        forall|j: int| 0 <= j < i ==> (#[trigger] records[j]).env.id != id,
    ensures
        record_with_id(records, id) == record_with_id(records.skip(i), id),
    decreases i,
{
    if i == 0 {
        assert(records.skip(0) =~= records);
    } else {
        lemma_record_skip(records, id, i - 1);
        assert(records[i - 1].env.id != id);
        assert(records.skip(i - 1).drop_first() =~= records.skip(i));
    }
}

fn find_record<'a>(records: &'a [Examined], id: &str) -> (r: Option<&'a Envelope>)
    ensures
        match r {
            Some(env) => record_with_id(examined_models(records@), id@) == Some(env@),
            None => record_with_id(examined_models(records@), id@) is None,
        },
{
    let ghost models = examined_models(records@);
    let mut i: usize = 0;
    while i < records.len()
        invariant
            i <= records.len(),
            models == examined_models(records@),
            forall|j: int| 0 <= j < i ==> (#[trigger] models[j]).env.id != id@,
        decreases records.len() - i,
    {
        assert(models[i as int] == records@[i as int]@);
        if same_text(records[i].env.id.as_str(), id) {
            proof {
                lemma_record_skip(models, id@, i as int);
            }
            return Some(&records[i].env);
        }
        i = i + 1;
    }
    proof {
        lemma_record_skip(models, id@, i as int);
    }
    None
}

pub open spec fn certificate_note() -> Seq<char> {
    "Verify trustlessly offline: download ledger.jsonl + proof.ots, then run `ots verify` and re-derive the chain."@
}

/// The certificate on what no record sealed.
pub open spec fn unknown_json(subject: SubjectModel) -> JsonModel {
    JsonModel::Object(
        seq![
            member("found"@, JsonModel::Bool(false)),
            match subject {
                SubjectModel::Document(hash) => member("sha256"@, JsonModel::Text(hash)),
                SubjectModel::Record(id) => member("env_id"@, JsonModel::Text(id)),
            },
        ],
    )
}

/// The certificate on a document that the record `env_id` of the work `lid` sealed:
/// when, by which key, the state of the chain, and the anchors.
pub open spec fn certificate_json(
    doc_hash: Seq<char>,
    lid: Seq<char>,
    env_id: Seq<char>,
    records: Seq<ExaminedModel>,
    anchors: Seq<AnchorModel>,
) -> JsonModel {
    let env = record_with_id(records, env_id);
    JsonModel::Object(
        seq![
            member("found"@, JsonModel::Bool(true)),
            member("sha256"@, JsonModel::Text(doc_hash)),
            member("lid"@, JsonModel::Text(lid)),
            member("env_id"@, JsonModel::Text(env_id)),
            member(
                "sealed_at"@,
                match env {
                    Some(e) => JsonModel::Text(e.ts),
                    None => JsonModel::Null,
                },
            ),
            member(
                "signer_key"@,
                match env {
                    Some(e) => JsonModel::Text(e.actor.key),
                    None => JsonModel::Null,
                },
            ),
            member(
                "doc"@,
                match env {
                    Some(e) => optional_model(e.payload.get("doc"@)),
                    None => JsonModel::Null,
                },
            ),
            member("chain_ok"@, JsonModel::Bool(chain_intact(records))),
            member("anchors"@, anchors_json(anchors)),
            member("note"@, JsonModel::Text(certificate_note())),
        ],
    )
}

/// The certificate that a request asks for. `found` is the document and the record that
/// sealed it, `records` and `anchors` are those of its work.
pub fn verify_doc(
    subject: &Subject,
    found: &Option<Seal>,
    records: &[Examined],
    anchors: &[Anchor],
) -> (r: Reply)
    ensures
        r@ == (match *found {
            None => ReplyModel::Value(unknown_json(subject@)),
            Some(seal) => ReplyModel::Value(
                certificate_json(
                    seal.doc_hash@,
                    seal.lid@,
                    seal.env_id@,
                    examined_models(records@),
                    anchor_models(anchors@),
                ),
            ),
        }),
{
    match found {
        None => {
            let mut members: Vec<Member> = Vec::new();
            put(&mut members, "found", Json::Bool(false));
            match subject {
                Subject::Document(hash) => put(&mut members, "sha256", Json::text(hash.as_str())),
                Subject::Record(id) => put(&mut members, "env_id", Json::text(id.as_str())),
            }
            let value = Json::object(members);
            assert(value@->Object_0 =~= unknown_json(subject@)->Object_0);
            Reply::Value(value)
        },
        Some(seal) => {
            let report = verify_chain(records);
            let env = find_record(records, seal.env_id.as_str());
            let sealed_at = match env {
                Some(e) => Json::text(e.ts.as_str()),
                None => Json::Null,
            };
            let signer_key = match env {
                Some(e) => Json::text(e.actor.key.as_str()),
                None => Json::Null,
            };
            let doc = match env {
                Some(e) => Json::optional(e.payload.get("doc")),
                None => Json::Null,
            };
            let mut members: Vec<Member> = Vec::new();
            put(&mut members, "found", Json::Bool(true));
            put(&mut members, "sha256", Json::text(seal.doc_hash.as_str()));
            put(&mut members, "lid", Json::text(seal.lid.as_str()));
            put(&mut members, "env_id", Json::text(seal.env_id.as_str()));
            put(&mut members, "sealed_at", sealed_at);
            put(&mut members, "signer_key", signer_key);
            put(&mut members, "doc", doc);
            put(&mut members, "chain_ok", Json::Bool(report.ok));
            put(&mut members, "anchors", anchors_value(anchors));
            put(
                &mut members,
                "note",
                Json::text(
                    "Verify trustlessly offline: download ledger.jsonl + proof.ots, then run `ots verify` and re-derive the chain.",
                ),
            );
            let value = Json::object(members);
            assert(value@->Object_0 =~= certificate_json(
                seal.doc_hash@,
                seal.lid@,
                seal.env_id@,
                examined_models(records@),
                anchor_models(anchors@),
            )->Object_0);
            Reply::Value(value)
        },
    }
}

// ── background and settings ──────────────────────────

/// Whether a check found a Bitcoin attestation.
pub open spec fn says_yes(check: Result<bool, String>) -> bool {
    check matches Ok(yes) && yes
}

/// What becomes of an anchor once its proof was looked at: a waiting OpenTimestamps
/// anchor with an attestation is confirmed, and every other row stays.
pub open spec fn upgraded_row(row: AnchorRowModel, yes: bool, now: Seq<char>) -> AnchorRowModel {
    if is_pending(row, "ots"@) && yes {
        confirmed(row, "bitcoin"@, now)
    } else {
        row
    }
}

/// The first position from `from` on of an OpenTimestamps anchor that waits, or the
/// length of the table.
pub open spec fn next_waiting(rows: Seq<AnchorRowModel>, from: int) -> int
    decreases rows.len() - from,
{
    if from >= rows.len() {
        rows.len() as int
    } else if is_pending(rows[from], "ots"@) {
        from
    } else {
        next_waiting(rows, from + 1)
    }
}

/// A walk through the table of anchors that confirms what Bitcoin has confirmed.
#[derive(Debug)]
pub struct Upgrading {
    /// The table as it stands.
    pub rows: Vec<AnchorRow>,
    /// The position of the anchor whose proof is to be looked at next.
    pub at: usize,
}

fn find_waiting(rows: &Vec<AnchorRow>, from: usize) -> (r: usize)
    requires
        from <= rows@.len(),
    ensures
        r == next_waiting(anchor_row_models(rows@), from as int),
{
    let ghost models = anchor_row_models(rows@);
    let mut i: usize = from;
    while i < rows.len()
        invariant
            from <= i <= rows.len(),
            models == anchor_row_models(rows@),
            next_waiting(models, from as int) == next_waiting(models, i as int),
        decreases rows.len() - i,
    {
        assert(models[i as int] == rows@[i as int]@);
        if waits(&rows[i]) {
            return i;
        }
        i = i + 1;
    }
    i
}

fn waits(row: &AnchorRow) -> (r: bool)
    ensures
        r == is_pending(row@, "ots"@),
{
    same_text(row.kind.as_str(), "ots") && same_text(row.status.as_str(), "pending")
}

/// Begins the walk at the first anchor that waits.
pub fn upgrade_pending_ots(rows: Vec<AnchorRow>) -> (r: Upgrading)
    ensures
        anchor_row_models(r.rows@) == anchor_row_models(rows@),
        r.at == next_waiting(anchor_row_models(rows@), 0),
{
    let at = find_waiting(&rows, 0);
    Upgrading { rows, at }
}

impl Upgrading {
    /// The head whose proof is to be looked at next, and `None` at the end of the walk.
    pub fn head(&self) -> (r: Option<&str>)
        ensures
            match r {
                Some(head_id) => self.at < self.rows@.len() && head_id@
                    == self.rows@[self.at as int].head_id@,
                None => self.at >= self.rows@.len(),
            },
    {
        if self.at < self.rows.len() {
            Some(self.rows[self.at].head_id.as_str())
        } else {
            None
        }
    }

    /// Takes the outcome of a check, and goes on to the next anchor that waits, whatever
    /// the outcome was. The result is the row that is to be written, if there is one.
    pub fn checked(&mut self, check: &Result<bool, String>, now: &str) -> (r: Option<AnchorRow>)
        ensures
            old(self).at >= old(self).rows@.len() ==> *final(self) == *old(self) && r is None,
            old(self).at < old(self).rows@.len() ==> {
                let rows = anchor_row_models(old(self).rows@);
                let at = old(self).at as int;
                let next = upgraded_row(rows[at], says_yes(*check), now@);
                &&& anchor_row_models(final(self).rows@) == rows.update(at, next)
                &&& final(self).at == next_waiting(rows, at + 1)
                &&& match r {
                    Some(row) => is_pending(rows[at], "ots"@) && says_yes(*check) && row@ == next,
                    None => !(is_pending(rows[at], "ots"@) && says_yes(*check)),
                }
            },
    {
        if self.at >= self.rows.len() {
            return None;
        }
        let at = self.at;
        let ghost models = anchor_row_models(self.rows@);
        let row = self.rows[at].clone();
        assert(models[at as int] == row@);
        self.at = find_waiting(&self.rows, at + 1);
        let yes = match check {
            Ok(yes) => *yes,
            Err(_) => false,
        };
        if yes && waits(&row) {
            let next = confirm_anchor(row, "bitcoin", now);
            self.rows.set(at, next.clone());
            assert(anchor_row_models(self.rows@) =~= models.update(at as int, next@));
            Some(next)
        } else {
            assert(models.update(at as int, models[at as int]) =~= models);
            None
        }
    }
}

/// A Solana secret counts as configured only when it is not blank.
pub fn configured_secret(secret: Option<String>) -> (r: Option<String>)
    ensures
        chars_of(r) == (match secret {
            Some(s) => if trimmed(s@).len() > 0 {
                Some(s@)
            } else {
                None
            },
            None => None,
        }),
{
    match secret {
        Some(s) => {
            let blank = trim(s.as_str()).is_empty();
            if blank {
                None
            } else {
                Some(s)
            }
        },
        None => None,
    }
}

/// A check says yes exactly when it found an attestation; a failure is no yes.
pub proof fn law_what_says_yes(check: Result<bool, String>)
    ensures
        says_yes(check) <==> check == Ok::<bool, String>(true),
{
}

/// Only a waiting OpenTimestamps anchor with an attestation is confirmed, by `bitcoin` and
/// at the time of the check; every other row is left as it is.
pub proof fn law_what_an_upgrade_does(row: AnchorRowModel, yes: bool, now: Seq<char>)
    ensures
        row.kind == "ots"@ && row.status == "pending"@ && yes ==> upgraded_row(row, yes, now) == (
        AnchorRowModel {
            status: "confirmed"@,
            reference: "bitcoin"@,
            confirmed_at: Some(now),
            ..row
        }),
        !(row.kind == "ots"@ && row.status == "pending"@ && yes) ==> upgraded_row(row, yes, now)
            == row,
{
}

} // verus!
