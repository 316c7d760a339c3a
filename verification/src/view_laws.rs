//! What the types of the library stand for: every field, as it is.

use crate::anchor::result_chars;
use crate::api::{header_models, Reply, ReplyModel, Subject, SubjectModel};
use crate::json::{members_model, Json, JsonModel, Member};
use crate::ledger::{
    error_models, examined_models, Actor, Appending, AppendingModel, ChainError, Envelope, Examined,
};
use crate::offline::{line_models, text_models};
use crate::order::{numbers, positions};
use crate::store::{
    anchor_models, anchor_row_models, envelope_models, parsed_models, pending_models, record_models,
    Anchor, AnchorRow, NewAnchor, RecordRow,
};
use crate::text::chars_of;
use crate::version::{field_models, json_models, Field, FieldModel, Form};
use vstd::prelude::*;

verus! {

/// An optional text stands for its characters, and none for none.
pub proof fn law_optional_text(value: Option<String>, r: Result<String, String>)
    ensures
        value matches Some(s) ==> chars_of(value) == Some(s@),
        value is None ==> chars_of(value) is None,
        r matches Ok(s) ==> result_chars(r) == Ok::<Seq<char>, Seq<char>>(s@),
        r matches Err(e) ==> result_chars(r) == Err::<Seq<char>, Seq<char>>(e@),
{
}

/// An actor and an envelope stand for all their fields.
pub proof fn law_envelope_view(actor: Actor, env: Envelope)
    ensures
        actor@.kind == actor.kind@,
        actor@.id == actor.id@,
        actor@.key == actor.key@,
        actor@.model == chars_of(actor.model),
        env@.pact == env.pact@,
        env@.cid == env.cid@,
        env@.id == env.id@,
        env@.prev == chars_of(env.prev),
        env@.kind == env.kind@,
        env@.ledger == env.ledger@,
        env@.ts == env.ts@,
        env@.era == env.era@,
        env@.actor == env.actor@,
        env@.payload == env.payload@,
        env@.sig == env.sig@,
{
}

/// An envelope on its way stands for its stage and the envelope.
pub proof fn law_appending_view(appending: Appending)
    ensures
        appending matches Appending::Payload(env) ==> appending@ == AppendingModel::Payload(env@),
        appending matches Appending::Core(env) ==> appending@ == AppendingModel::Core(env@),
        appending matches Appending::Signature(env) ==> appending@ == AppendingModel::Signature(
            env@,
        ),
        appending matches Appending::Sealed(env) ==> appending@ == AppendingModel::Sealed(env@),
{
}

/// An examined record and a flaw stand for all their fields.
pub proof fn law_examined_view(record: Examined, error: ChainError)
    ensures
        record@.env == record.env@,
        record@.cid == record.cid@,
        record@.id == record.id@,
        record@.sig_ok == record.sig_ok,
        error@.index == error.index,
        error@.id == error.id@,
        error@.message == error.message@,
{
}

/// The rows of the tables and what is shown of an anchor stand for all their fields.
pub proof fn law_row_views(record: RecordRow, new: NewAnchor, row: AnchorRow, anchor: Anchor)
    ensures
        record@.lid == record.lid@,
        record@.seq == record.seq,
        record@.env_id == record.env_id@,
        record@.prev == chars_of(record.prev),
        record@.cid == record.cid@,
        record@.kind == record.kind@,
        record@.doc_sha256 == chars_of(record.doc_sha256),
        record@.ts == record.ts@,
        record@.env_json == record.env_json@,
        new@.lid == new.lid@,
        new@.head_id == new.head_id@,
        new@.kind == new.kind@,
        new@.reference == new.reference@,
        new@.status == new.status@,
        new@.created_at == new.created_at@,
        row@.id == row.id,
        row@.lid == row.lid@,
        row@.head_id == row.head_id@,
        row@.kind == row.kind@,
        row@.reference == row.reference@,
        row@.status == row.status@,
        row@.created_at == row.created_at@,
        row@.confirmed_at == chars_of(row.confirmed_at),
        anchor@.kind == anchor.kind@,
        anchor@.reference == anchor.reference@,
        anchor@.status == anchor.status@,
        anchor@.created_at == anchor.created_at@,
        anchor@.confirmed_at == chars_of(anchor.confirmed_at),
{
}

/// A form and its fields stand for all that they hold.
pub proof fn law_form_views(form: Form, field: Field)
    ensures
        form@.token == form.token@,
        form@.title == form.title@,
        form@.note == form.note@,
        form@.doc_type == form.doc_type@,
        form@.filename == form.filename@,
        form@.mime == form.mime@,
        form@.bytes == form.bytes@,
        field matches Field::Text { part, text } ==> field@ == FieldModel::Text(part, text@),
        field matches Field::File { file_name, content_type, bytes } ==> field@ == FieldModel::File(
            chars_of(file_name),
            chars_of(content_type),
            bytes@,
        ),
{
}

/// An answer stands for its status and text, its value, or its headers and bytes.
pub proof fn law_reply_view(reply: Reply, subject: Subject)
    ensures
        reply matches Reply::Refusal { status, text } ==> reply@ == ReplyModel::Refusal(
            status as int,
            text@,
        ),
        reply matches Reply::Value(value) ==> reply@ == ReplyModel::Value(value@),
        reply matches Reply::Content { headers, bytes } ==> reply@ == ReplyModel::Content(
            header_models(headers@),
            bytes@,
        ),
        subject matches Subject::Document(hash) ==> subject@ == SubjectModel::Document(hash@),
        subject matches Subject::Record(id) ==> subject@ == SubjectModel::Record(id@),
{
}

/// A JSON value stands for its number, its text, its items or its members, all of them and
/// in their order.
pub proof fn law_json_view(value: Json)
    ensures
        value is Null ==> value@ == JsonModel::Null,
        value matches Json::Bool(b) ==> value@ == JsonModel::Bool(b),
        value matches Json::Integer(n) ==> value@ == JsonModel::Integer(n as int),
        value matches Json::Decimal(s) ==> value@ == JsonModel::Decimal(s@),
        value matches Json::Text(s) ==> value@ == JsonModel::Text(s@),
        value matches Json::Array(items) ==> value@ matches JsonModel::Array(shown) && shown.len()
            == items@.len() && forall|i: int| 0 <= i < shown.len() ==> #[trigger] shown[i]
            == items@[i]@,
        value matches Json::Object(members) ==> value@ matches JsonModel::Object(shown)
            && shown.len() == members@.len() && forall|i: int|
            0 <= i < shown.len() ==> (#[trigger] shown[i]).name == members@[i].name@
                && shown[i].value == members@[i].value@,
{
}

/// Lists stand for what their items stand for, in the same order.
pub proof fn law_list_views(
    records: Seq<RecordRow>,
    anchor_rows: Seq<AnchorRow>,
    anchors: Seq<Anchor>,
    envs: Seq<Envelope>,
    examined: Seq<Examined>,
    errors: Seq<ChainError>,
    fields: Seq<Field>,
    values: Seq<Json>,
    i: int,
)
    ensures
        record_models(records).len() == records.len(),
        0 <= i < records.len() ==> record_models(records)[i] == records[i]@,
        anchor_row_models(anchor_rows).len() == anchor_rows.len(),
        0 <= i < anchor_rows.len() ==> anchor_row_models(anchor_rows)[i] == anchor_rows[i]@,
        anchor_models(anchors).len() == anchors.len(),
        0 <= i < anchors.len() ==> anchor_models(anchors)[i] == anchors[i]@,
        envelope_models(envs).len() == envs.len(),
        0 <= i < envs.len() ==> envelope_models(envs)[i] == envs[i]@,
        examined_models(examined).len() == examined.len(),
        0 <= i < examined.len() ==> examined_models(examined)[i] == examined[i]@,
        error_models(errors).len() == errors.len(),
        0 <= i < errors.len() ==> error_models(errors)[i] == errors[i]@,
        field_models(fields).len() == fields.len(),
        0 <= i < fields.len() ==> field_models(fields)[i] == fields[i]@,
        json_models(values).len() == values.len(),
        0 <= i < values.len() ==> json_models(values)[i] == values[i]@,
{
}

/// Lists of texts, pairs and numbers stand for the same, in the same order.
pub proof fn law_plain_list_views(
    headers: Seq<(String, String)>,
    parsed: Seq<Option<Envelope>>,
    pending: Seq<(i64, String, String, String)>,
    members: Seq<Member>,
    lines: Seq<(usize, String)>,
    texts: Seq<String>,
    keys: Seq<i64>,
    order: Seq<usize>,
    i: int,
)
    ensures
        header_models(headers).len() == headers.len(),
        0 <= i < headers.len() ==> header_models(headers)[i] == (headers[i].0@, headers[i].1@),
        parsed_models(parsed).len() == parsed.len(),
        0 <= i < parsed.len() ==> (parsed[i] matches Some(env) ==> parsed_models(parsed)[i] == Some(
            env@,
        )),
        0 <= i < parsed.len() ==> (parsed[i] is None ==> parsed_models(parsed)[i] is None),
        pending_models(pending).len() == pending.len(),
        0 <= i < pending.len() ==> pending_models(pending)[i] == (
            pending[i].0 as int,
            pending[i].1@,
            pending[i].2@,
            pending[i].3@,
        ),
        members_model(members).len() == members.len(),
        0 <= i < members.len() ==> members_model(members)[i].name == members[i].name@
            && members_model(members)[i].value == members[i].value@,
        line_models(lines).len() == lines.len(),
        0 <= i < lines.len() ==> line_models(lines)[i] == (lines[i].0 as nat, lines[i].1@),
        text_models(texts).len() == texts.len(),
        0 <= i < texts.len() ==> text_models(texts)[i] == texts[i]@,
        numbers(keys).len() == keys.len(),
        0 <= i < keys.len() ==> numbers(keys)[i] == keys[i],
        positions(order).len() == order.len(),
        0 <= i < order.len() ==> positions(order)[i] == order[i],
{
}

} // verus!
