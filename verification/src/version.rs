//! Creating a work, and adding a version of a document to it.
//!
//! A version goes through stages, one type for each, and each stage takes what was
//! done outside in the meantime:
//!
//! 1. `add_version`: whether the work exists. `Upload` then collects the form.
//! 2. `Upload::check`: the edit token and the file are checked.
//! 3. `Admitted::stored`: the bytes were written to their file.
//! 4. `Stored::draft`: the head of the chain was read. `Version` holds the envelope on
//!    its way.
//! 5. `Anchoring`: the record was written; its id is anchored, and the answer made.

use crate::api::{refuse, Reply, ReplyModel};
use crate::ids::{edit_token, edit_token_text, verify_edit_token};
use crate::json::{member, optional_text_model, put, Json, JsonModel, Member};
use crate::ledger::{
    append, blank_envelope, human_actor, human_actor_model, Appending, AppendingModel, Envelope,
};
use crate::store::{
    append_record, content_hash, insert_work, record_anchor, record_row, sha256_hex_raw, NewAnchor,
    NewAnchorModel, RecordRow, WorkRow,
};
use crate::text::{chars_of, join2, join3, same_text};
use vstd::prelude::*;

verus! {

// ── creating a work ──────────────────────────────────

/// A new work: its row, and the first envelope of its chain on its way.
#[derive(Debug)]
pub struct NewWork {
    pub row: WorkRow,
    pub appending: Appending,
}

/// The payload of a first record, which binds the metadata of the work into the chain.
pub open spec fn work_payload(title: Seq<char>, now: Seq<char>) -> JsonModel {
    JsonModel::Object(
        seq![
            member(
                "work"@,
                JsonModel::Object(
                    seq![
                        member("title"@, JsonModel::Text(title)),
                        member("created"@, JsonModel::Text(now)),
                    ],
                ),
            ),
        ],
    )
}

/// Begins a work. Its first record has no record before it.
pub fn create_work(lid: &str, title: &str, email: &str, pubkey_hex: &str, now: &str) -> (r: NewWork)
    ensures
        r.row.lid@ == lid@,
        r.row.title@ == title@,
        r.row.owner_email@ == email@,
        r.row.signer_pubkey@ == pubkey_hex@,
        r.row.created_at@ == now@,
        r.appending@ == AppendingModel::Payload(
            blank_envelope(
                lid@,
                None,
                "work"@,
                work_payload(title@, now@),
                now@,
                human_actor_model(lid@, pubkey_hex@),
            ),
        ),
{
    let mut inner: Vec<Member> = Vec::new();
    put(&mut inner, "title", Json::text(title));
    put(&mut inner, "created", Json::text(now));
    let work = Json::object(inner);
    assert(work@->Object_0 =~= seq![
        member("title"@, JsonModel::Text(title@)),
        member("created"@, JsonModel::Text(now@)),
    ]);
    let mut outer: Vec<Member> = Vec::new();
    put(&mut outer, "work", work);
    let payload = Json::object(outer);
    assert(payload@->Object_0 =~= work_payload(title@, now@)->Object_0);
    NewWork {
        row: insert_work(lid, title, email, pubkey_hex, now),
        appending: append(lid, None, "work", payload, now, human_actor(lid, pubkey_hex)),
    }
}

/// The row of the first record of a work: number zero, and no document.
pub fn first_record(lid: &str, env: &Envelope, env_json: String) -> (r: RecordRow)
    ensures
        r@ == record_row(lid@, 0, env@, None, env_json@),
{
    append_record(lid, 0, env, &None, env_json)
}

/// The answer on a new work.
pub open spec fn created_json(
    lid: Seq<char>,
    pubkey: Seq<char>,
    token: Seq<char>,
    base_url: Seq<char>,
) -> JsonModel {
    JsonModel::Object(
        seq![
            member("lid"@, JsonModel::Text(lid)),
            member("signer_pubkey"@, JsonModel::Text(pubkey)),
            member("edit_token"@, JsonModel::Text(token)),
            member(
                "owner_link"@,
                JsonModel::Text(base_url + "/app?lid="@ + lid + "&token="@ + token),
            ),
            member("public_link"@, JsonModel::Text(base_url + "/app?lid="@ + lid)),
        ],
    )
}

/// The answer on a new work. It holds the edit token, which is shown nowhere else.
pub fn work_created(lid: &str, pubkey_hex: &str, edit_secret: &str, base_url: &str) -> (r: Reply)
    ensures
        r@ == ReplyModel::Value(
            created_json(lid@, pubkey_hex@, edit_token_text(edit_secret@, lid@), base_url@),
        ),
{
    let token = edit_token(edit_secret, lid);
    let public_link = join3(base_url, "/app?lid=", lid);
    let owner_link = join3(public_link.as_str(), "&token=", token.as_str());
    let mut members: Vec<Member> = Vec::new();
    put(&mut members, "lid", Json::text(lid));
    put(&mut members, "signer_pubkey", Json::text(pubkey_hex));
    put(&mut members, "edit_token", Json::Text(token));
    put(&mut members, "owner_link", Json::Text(owner_link));
    put(&mut members, "public_link", Json::Text(public_link));
    let value = Json::object(members);
    assert(value@->Object_0 =~= created_json(
        lid@,
        pubkey_hex@,
        edit_token_text(edit_secret@, lid@),
        base_url@,
    )->Object_0);
    Reply::Value(value)
}

// ── the form ─────────────────────────────────────────

/// The parts of the upload form.
#[derive(Clone, Copy, Debug, PartialEq, Eq)]
pub enum FormPart {
    Token,
    Title,
    Note,
    DocType,
    File,
    Other,
}

/// The part that a field of that name is.
pub open spec fn part_named(name: Seq<char>) -> FormPart {
    if name == "token"@ {
        FormPart::Token
    } else if name == "title"@ {
        FormPart::Title
    } else if name == "note"@ {
        FormPart::Note
    } else if name == "doc_type"@ {
        FormPart::DocType
    } else if name == "file"@ {
        FormPart::File
    } else {
        FormPart::Other
    }
}

/// The part that a field is, by its name. A field without a name is none.
pub fn form_part(name: Option<&str>) -> (r: FormPart)
    ensures
        r == (match name {
            Some(n) => part_named(n@),
            None => FormPart::Other,
        }),
{
    match name {
        Some(n) => {
            if same_text(n, "token") {
                FormPart::Token
            } else if same_text(n, "title") {
                FormPart::Title
            } else if same_text(n, "note") {
                FormPart::Note
            } else if same_text(n, "doc_type") {
                FormPart::DocType
            } else if same_text(n, "file") {
                FormPart::File
            } else {
                FormPart::Other
            }
        },
        None => FormPart::Other,
    }
}

/// What came with an upload.
#[derive(Debug)]
pub struct Form {
    pub token: String,
    pub title: String,
    pub note: String,
    pub doc_type: String,
    pub filename: String,
    pub mime: String,
    pub bytes: Vec<u8>,
}

/// What a form stands for.
pub struct FormModel {
    pub token: Seq<char>,
    pub title: Seq<char>,
    pub note: Seq<char>,
    pub doc_type: Seq<char>,
    pub filename: Seq<char>,
    pub mime: Seq<char>,
    pub bytes: Seq<u8>,
}

impl View for Form {
    type V = FormModel;

    open spec fn view(&self) -> FormModel {
        FormModel {
            token: self.token@,
            title: self.title@,
            note: self.note@,
            doc_type: self.doc_type@,
            filename: self.filename@,
            mime: self.mime@,
            bytes: self.bytes@,
        }
    }
}

/// A form with no field filled in.
pub open spec fn blank_form() -> FormModel {
    FormModel {
        token: Seq::empty(),
        title: Seq::empty(),
        note: Seq::empty(),
        doc_type: "file"@,
        filename: Seq::empty(),
        mime: "application/octet-stream"@,
        bytes: Seq::empty(),
    }
}

/// A field of the upload form.
#[derive(Debug)]
pub enum Field {
    /// A text field.
    Text { part: FormPart, text: String },
    /// The file.
    File { file_name: Option<String>, content_type: Option<String>, bytes: Vec<u8> },
}

/// What a field of the form stands for.
pub enum FieldModel {
    Text(FormPart, Seq<char>),
    File(Option<Seq<char>>, Option<Seq<char>>, Seq<u8>),
}

impl View for Field {
    type V = FieldModel;

    open spec fn view(&self) -> FieldModel {
        match self {
            Field::Text { part, text } => FieldModel::Text(*part, text@),
            Field::File { file_name, content_type, bytes } => FieldModel::File(
                chars_of(*file_name),
                chars_of(*content_type),
                bytes@,
            ),
        }
    }
}

/// What fields of the form stand for.
pub open spec fn field_models(fields: Seq<Field>) -> Seq<FieldModel> {
    Seq::new(fields.len(), |i: int| fields[i]@)
}

impl FormModel {
    /// The form with a field filled in.
    pub open spec fn with_field(self, field: FieldModel) -> FormModel {
        match field {
            FieldModel::Text(part, text) => self.with_text(part, text),
            FieldModel::File(file_name, content_type, bytes) => self.with_file(
                file_name,
                content_type,
                bytes,
            ),
        }
    }

    /// The form with fields filled in, one after the other.
    pub open spec fn filled(self, fields: Seq<FieldModel>) -> FormModel
        decreases fields.len(),
    {
        if fields.len() == 0 {
            self
        } else {
            self.filled(fields.drop_last()).with_field(fields.last())
        }
    }

    /// The form with a text field filled in. The file is no text field.
    pub open spec fn with_text(self, part: FormPart, text: Seq<char>) -> FormModel {
        match part {
            FormPart::Token => FormModel { token: text, ..self },
            FormPart::Title => FormModel { title: text, ..self },
            FormPart::Note => FormModel { note: text, ..self },
            FormPart::DocType => FormModel { doc_type: text, ..self },
            FormPart::File => self,
            FormPart::Other => self,
        }
    }

    /// The form with the file filled in. A file without a name is called `upload`, and
    /// one without a type leaves the type as it was.
    pub open spec fn with_file(
        self,
        file_name: Option<Seq<char>>,
        content_type: Option<Seq<char>>,
        bytes: Seq<u8>,
    ) -> FormModel {
        FormModel {
            filename: match file_name {
                Some(n) => n,
                None => "upload"@,
            },
            mime: match content_type {
                Some(t) => t,
                None => self.mime,
            },
            bytes,
            ..self
        }
    }
}

// ── adding a version ─────────────────────────────────

/// An upload to a work that exists, while its form is read.
#[derive(Debug)]
pub struct Upload {
    pub lid: String,
    pub form: Form,
}

/// Begins an upload. One to a work that does not exist is refused.
pub fn add_version(lid: &str, exists: bool) -> (r: Result<Upload, Reply>)
    ensures
        match r {
            Ok(upload) => exists && upload.lid@ == lid@ && upload.form@ == blank_form(),
            Err(reply) => !exists && reply@ == ReplyModel::Refusal(404, "no such work"@),
        },
{
    if !exists {
        return Err(refuse(404, "no such work"));
    }
    Ok(
        Upload {
            lid: lid.to_owned(),
            form: Form {
                token: String::new(),
                title: String::new(),
                note: String::new(),
                doc_type: "file".to_owned(),
                filename: String::new(),
                mime: "application/octet-stream".to_owned(),
                bytes: Vec::new(),
            },
        },
    )
}

/// An upload whose token is right and whose file is not empty.
#[derive(Debug)]
pub struct Admitted {
    pub lid: String,
    pub form: Form,
    pub doc_hash: String,
}

impl Upload {
    /// Fills in a text field. Of two fields of one name the later counts.
    pub fn take_text(&mut self, part: FormPart, text: String)
        ensures
            final(self).lid@ == old(self).lid@,
            final(self).form@ == old(self).form@.with_text(part, text@),
    {
        match part {
            FormPart::Token => {
                self.form.token = text;
            },
            FormPart::Title => {
                self.form.title = text;
            },
            FormPart::Note => {
                self.form.note = text;
            },
            FormPart::DocType => {
                self.form.doc_type = text;
            },
            FormPart::File => {},
            FormPart::Other => {},
        }
    }

    /// Fills in the file.
    pub fn take_file(
        &mut self,
        file_name: Option<String>,
        content_type: Option<String>,
        bytes: Vec<u8>,
    )
        ensures
            final(self).lid@ == old(self).lid@,
            final(self).form@ == old(self).form@.with_file(
                chars_of(file_name),
                chars_of(content_type),
                bytes@,
            ),
    {
        self.form.filename = match file_name {
            Some(n) => n,
            None => "upload".to_owned(),
        };
        match content_type {
            Some(t) => {
                self.form.mime = t;
            },
            None => {},
        }
        self.form.bytes = bytes;
    }

    /// Fills in the fields of a form as they came.
    pub fn fill(&mut self, fields: Vec<Field>)
        ensures
            final(self).lid@ == old(self).lid@,
            final(self).form@ == old(self).form@.filled(field_models(fields@)),
    {
        let ghost all = field_models(fields@);
        let ghost form = self.form@;
        let mut rest = fields;
        assert(all.take(0) =~= seq![]);
        assert(all.skip(0) =~= all);
        while rest.len() > 0
            invariant
                rest@.len() <= all.len(),
                all.skip(all.len() - rest@.len()) == field_models(rest@),
                self.lid@ == old(self).lid@,
                self.form@ == form.filled(all.take(all.len() - rest@.len())),
            decreases rest.len(),
        {
            let ghost n = all.len() - rest@.len();
            assert(all[n] == rest@[0]@) by {
                assert(all.skip(n)[0] == field_models(rest@)[0]);
            }
            assert(all.take(n + 1).drop_last() =~= all.take(n));
            assert(all.take(n + 1).last() == all[n]);
            let ghost before = rest@;
            let field = rest.remove(0);
            assert(all.skip(n + 1) =~= field_models(rest@)) by {
                assert forall|i: int| 0 <= i < rest@.len() implies #[trigger] all.skip(n + 1)[i]
                    == field_models(rest@)[i] by {
                    assert(all.skip(n)[i + 1] == field_models(before)[i + 1]);
                    assert(rest@[i] == before[i + 1]);
                }
            }
            match field {
                Field::Text { part, text } => self.take_text(part, text),
                Field::File { file_name, content_type, bytes } => self.take_file(
                    file_name,
                    content_type,
                    bytes,
                ),
            }
        }
        assert(all.take(all.len() as int) =~= all);
    }

    /// Checks the edit token first, and then that there is a file. Whoever does not
    /// hold the token learns nothing of the rest.
    pub fn check(self, edit_secret: &str) -> (r: Result<Admitted, Reply>)
        ensures
            match r {
                Ok(admitted) => {
                    &&& self.form.token@ == edit_token_text(edit_secret@, self.lid@)
                    &&& self.form.bytes@.len() > 0
                    &&& admitted.lid@ == self.lid@
                    &&& admitted.form@ == self.form@
                    &&& admitted.doc_hash@ == content_hash(self.form.bytes@)
                },
                Err(reply) => {
                    ||| self.form.token@ != edit_token_text(edit_secret@, self.lid@) && reply@
                        == ReplyModel::Refusal(403, "invalid edit token"@)
                    ||| self.form.token@ == edit_token_text(edit_secret@, self.lid@)
                        && self.form.bytes@.len() == 0 && reply@ == ReplyModel::Refusal(
                        400,
                        "empty file"@,
                    )
                },
            },
    {
        if !verify_edit_token(edit_secret, self.lid.as_str(), self.form.token.as_str()) {
            return Err(refuse(403, "invalid edit token"));
        }
        if self.form.bytes.len() == 0 {
            return Err(refuse(400, "empty file"));
        }
        let hex = sha256_hex_raw(self.form.bytes.as_slice());
        Ok(Admitted { lid: self.lid, form: self.form, doc_hash: join2("sha256:", hex.as_str()) })
    }
}

/// An upload whose bytes are in their file.
#[derive(Debug)]
pub struct Stored {
    pub lid: String,
    pub form: Form,
    pub doc_hash: String,
}

impl Admitted {
    /// Goes on once the bytes are written, or answers that they could not be.
    pub fn stored(self, outcome: Result<(), String>) -> (r: Result<Stored, Reply>)
        ensures
            match outcome {
                Ok(_) => r matches Ok(stored) && stored.lid@ == self.lid@ && stored.form@
                    == self.form@ && stored.doc_hash@ == self.doc_hash@,
                Err(e) => r matches Err(reply) && reply@ == ReplyModel::Refusal(
                    500,
                    "cas: "@ + e@,
                ),
            },
    {
        match outcome {
            Ok(_) => Ok(Stored { lid: self.lid, form: self.form, doc_hash: self.doc_hash }),
            Err(e) => Err(Reply::Refusal { status: 500, text: join2("cas: ", e.as_str()) }),
        }
    }
}

/// The payload of a document version.
pub open spec fn doc_payload(
    form: FormModel,
    doc_hash: Seq<char>,
    prev: Option<Seq<char>>,
) -> JsonModel {
    JsonModel::Object(
        seq![
            member(
                "doc"@,
                JsonModel::Object(
                    seq![
                        member("title"@, JsonModel::Text(form.title)),
                        member("doc_type"@, JsonModel::Text(form.doc_type)),
                        member("sha256"@, JsonModel::Text(doc_hash)),
                        member("size"@, JsonModel::Integer(form.bytes.len() as int)),
                        member("mime"@, JsonModel::Text(form.mime)),
                        member("filename"@, JsonModel::Text(form.filename)),
                        member("note"@, JsonModel::Text(form.note)),
                        member("supersedes"@, optional_text_model(prev)),
                    ],
                ),
            ),
        ],
    )
}

/// A version whose envelope is on its way to the end of the chain.
#[derive(Debug)]
pub struct Version {
    pub lid: String,
    pub seq: i64,
    pub doc_hash: String,
    pub now: String,
    pub appending: Appending,
}

impl Stored {
    /// Drafts the record that follows the head `prev`. It gets the number `seq`.
    pub fn draft(self, prev: Option<String>, seq: i64, now: String, pubkey_hex: &str) -> (r: Version)
        ensures
            r.lid@ == self.lid@,
            r.seq == seq,
            r.doc_hash@ == self.doc_hash@,
            r.now@ == now@,
            r.appending@ == AppendingModel::Payload(
                blank_envelope(
                    self.lid@,
                    chars_of(prev),
                    "doc"@,
                    doc_payload(self.form@, self.doc_hash@, chars_of(prev)),
                    now@,
                    human_actor_model(self.lid@, pubkey_hex@),
                ),
            ),
    {
        let mut inner: Vec<Member> = Vec::new();
        put(&mut inner, "title", Json::text(self.form.title.as_str()));
        put(&mut inner, "doc_type", Json::text(self.form.doc_type.as_str()));
        put(&mut inner, "sha256", Json::text(self.doc_hash.as_str()));
        put(&mut inner, "size", Json::Integer(self.form.bytes.len() as i128));
        put(&mut inner, "mime", Json::text(self.form.mime.as_str()));
        put(&mut inner, "filename", Json::text(self.form.filename.as_str()));
        put(&mut inner, "note", Json::text(self.form.note.as_str()));
        put(&mut inner, "supersedes", Json::optional_text(&prev));
        let doc = Json::object(inner);
        let ghost wanted = doc_payload(self.form@, self.doc_hash@, chars_of(prev));
        assert(doc@->Object_0 =~= (wanted->Object_0)[0].value->Object_0);
        let mut outer: Vec<Member> = Vec::new();
        put(&mut outer, "doc", doc);
        let payload = Json::object(outer);
        assert(payload@->Object_0 =~= wanted->Object_0);
        let actor = human_actor(self.lid.as_str(), pubkey_hex);
        let appending = append(self.lid.as_str(), prev, "doc", payload, now.as_str(), actor);
        Version { lid: self.lid, seq, doc_hash: self.doc_hash, now, appending }
    }
}

/// The row of a version's record, found again by the hash of its document.
pub fn version_record(
    lid: &str,
    seq: i64,
    env: &Envelope,
    doc_hash: &str,
    env_json: String,
) -> (r: RecordRow)
    ensures
        r@ == record_row(lid@, seq as int, env@, Some(doc_hash@), env_json@),
{
    let hash: Option<String> = Some(doc_hash.to_owned());
    append_record(lid, seq, env, &hash, env_json)
}

// ── anchoring the new head ───────────────────────────

/// A version whose record is written, while its id is anchored.
#[derive(Debug)]
pub struct Anchoring {
    pub lid: String,
    pub seq: i64,
    pub head_id: String,
    pub doc_hash: String,
    pub now: String,
    /// What the answer says of each anchor.
    pub anchors: Vec<Json>,
}

/// What the answer says of an anchor without a reference.
pub open spec fn anchor_note(kind: Seq<char>, status: Seq<char>) -> JsonModel {
    JsonModel::Object(
        seq![member("kind"@, JsonModel::Text(kind)), member("status"@, JsonModel::Text(status))],
    )
}

/// What the answer says of an anchor with a reference.
pub open spec fn referenced_note(kind: Seq<char>, status: Seq<char>, reference: Seq<char>) -> JsonModel {
    JsonModel::Object(
        seq![
            member("kind"@, JsonModel::Text(kind)),
            member("status"@, JsonModel::Text(status)),
            member("ref"@, JsonModel::Text(reference)),
        ],
    )
}

fn note_value(kind: &str, status: &str) -> (r: Json)
    ensures
        r@ == anchor_note(kind@, status@),
{
    let mut members: Vec<Member> = Vec::new();
    put(&mut members, "kind", Json::text(kind));
    put(&mut members, "status", Json::text(status));
    let r = Json::object(members);
    assert(r@->Object_0 =~= anchor_note(kind@, status@)->Object_0);
    r
}

fn referenced_value(kind: &str, status: &str, reference: &str) -> (r: Json)
    ensures
        r@ == referenced_note(kind@, status@, reference@),
{
    let mut members: Vec<Member> = Vec::new();
    put(&mut members, "kind", Json::text(kind));
    put(&mut members, "status", Json::text(status));
    put(&mut members, "ref", Json::text(reference));
    let r = Json::object(members);
    assert(r@->Object_0 =~= referenced_note(kind@, status@, reference@)->Object_0);
    r
}

/// What a list of JSON values stands for.
pub open spec fn json_models(values: Seq<Json>) -> Seq<JsonModel> {
    values.map_values(|v: Json| v@)
}

/// The answer on a version that was added.
pub open spec fn added_json(
    lid: Seq<char>,
    seq: int,
    head_id: Seq<char>,
    doc_hash: Seq<char>,
    anchors: Seq<JsonModel>,
) -> JsonModel {
    JsonModel::Object(
        seq![
            member("ok"@, JsonModel::Bool(true)),
            member("lid"@, JsonModel::Text(lid)),
            member("seq"@, JsonModel::Integer(seq)),
            member("env_id"@, JsonModel::Text(head_id)),
            member("doc_sha256"@, JsonModel::Text(doc_hash)),
            member("anchors"@, JsonModel::Array(anchors)),
        ],
    )
}

/// Begins to anchor the version that the record `env` holds.
pub fn anchoring(lid: &str, seq: i64, env: &Envelope, doc_hash: &str, now: &str) -> (r: Anchoring)
    ensures
        r.lid@ == lid@,
        r.seq == seq,
        r.head_id@ == env.id@,
        r.doc_hash@ == doc_hash@,
        r.now@ == now@,
        r.anchors@.len() == 0,
{
    Anchoring {
        lid: lid.to_owned(),
        seq,
        head_id: env.id.clone(),
        doc_hash: doc_hash.to_owned(),
        now: now.to_owned(),
        anchors: Vec::new(),
    }
}

impl Anchoring {
    /// Whether everything but the list of anchors is the same.
    pub open spec fn same_version(self, other: Anchoring) -> bool {
        &&& self.lid@ == other.lid@
        &&& self.seq == other.seq
        &&& self.head_id@ == other.head_id@
        &&& self.doc_hash@ == other.doc_hash@
        &&& self.now@ == other.now@
    }

    /// Takes the outcome of the OpenTimestamps stamp. A proof that was made waits for
    /// its Bitcoin block; one that was not is passed over, and the version stands.
    pub fn stamped(&mut self, outcome: &Result<String, String>) -> (r: Option<NewAnchor>)
        ensures
            final(self).same_version(*old(self)),
            match *outcome {
                Ok(_) => {
                    &&& r matches Some(row) && row@ == (NewAnchorModel {
                        lid: old(self).lid@,
                        head_id: old(self).head_id@,
                        kind: "ots"@,
                        reference: Seq::empty(),
                        status: "pending"@,
                        created_at: old(self).now@,
                    })
                    &&& json_models(final(self).anchors@) == json_models(old(self).anchors@).push(
                        anchor_note("ots"@, "pending"@),
                    )
                },
                Err(_) => r is None && json_models(final(self).anchors@) == json_models(
                    old(self).anchors@,
                ),
            },
    {
        match outcome {
            Ok(_) => {
                let note = note_value("ots", "pending");
                self.anchors.push(note);
                assert(json_models(self.anchors@) =~= json_models(old(self).anchors@).push(note@));
                proof {
                    reveal_strlit("");
                }
                assert(""@ =~= Seq::<char>::empty());
                Some(
                    record_anchor(
                        self.lid.as_str(),
                        self.head_id.as_str(),
                        "ots",
                        "",
                        "pending",
                        self.now.as_str(),
                    ),
                )
            },
            Err(_) => None,
        }
    }

    /// Takes the outcome of the Solana memo. Both outcomes are recorded: a memo that was
    /// sent with its signature, a failed one with the reason.
    pub fn memo_sent(&mut self, outcome: &Result<String, String>) -> (r: NewAnchor)
        ensures
            final(self).same_version(*old(self)),
            r@ == (NewAnchorModel {
                lid: old(self).lid@,
                head_id: old(self).head_id@,
                kind: "solana"@,
                reference: match *outcome {
                    Ok(sig) => sig@,
                    Err(e) => e@,
                },
                status: match *outcome {
                    Ok(_) => "confirmed"@,
                    Err(_) => "failed"@,
                },
                created_at: old(self).now@,
            }),
            json_models(final(self).anchors@) == json_models(old(self).anchors@).push(
                match *outcome {
                    Ok(sig) => referenced_note("solana"@, "confirmed"@, sig@),
                    Err(_) => anchor_note("solana"@, "failed"@),
                },
            ),
    {
        match outcome {
            Ok(sig) => {
                let note = referenced_value("solana", "confirmed", sig.as_str());
                self.anchors.push(note);
                assert(json_models(self.anchors@) =~= json_models(old(self).anchors@).push(note@));
                record_anchor(
                    self.lid.as_str(),
                    self.head_id.as_str(),
                    "solana",
                    sig.as_str(),
                    "confirmed",
                    self.now.as_str(),
                )
            },
            Err(e) => {
                let note = note_value("solana", "failed");
                self.anchors.push(note);
                assert(json_models(self.anchors@) =~= json_models(old(self).anchors@).push(note@));
                record_anchor(
                    self.lid.as_str(),
                    self.head_id.as_str(),
                    "solana",
                    e.as_str(),
                    "failed",
                    self.now.as_str(),
                )
            },
        }
    }

    /// The answer on the version.
    pub fn reply(self) -> (r: Reply)
        ensures
            r@ == ReplyModel::Value(
                added_json(
                    self.lid@,
                    self.seq as int,
                    self.head_id@,
                    self.doc_hash@,
                    json_models(self.anchors@),
                ),
            ),
    {
        let ghost wanted = added_json(
            self.lid@,
            self.seq as int,
            self.head_id@,
            self.doc_hash@,
            json_models(self.anchors@),
        );
        let mut members: Vec<Member> = Vec::new();
        put(&mut members, "ok", Json::Bool(true));
        put(&mut members, "lid", Json::Text(self.lid));
        put(&mut members, "seq", Json::Integer(self.seq as i128));
        put(&mut members, "env_id", Json::Text(self.head_id));
        put(&mut members, "doc_sha256", Json::Text(self.doc_hash));
        put(&mut members, "anchors", Json::array(self.anchors));
        let value = Json::object(members);
        assert(value@->Object_0 =~= wanted->Object_0);
        Reply::Value(value)
    }
}

} // verus!
