//! What holds of a work over all its versions, and of what is read back from its rows.

use crate::api::{
    answers, first_key, subject_of, version_json, versions_json, SubjectModel,
};
use crate::chain_laws::{
    law_append_keeps_intact, law_sealed_record_verifies, Derivation, Signing,
};
use crate::json::{find_member, lemma_find_member_at, JsonModel};
use crate::laws::{
    is_line, keys_distinct, law_append_keeps_keys_distinct, law_chain_only_grows, law_chain_order,
    law_head_follows_the_append, law_ledger_file_reads_back, law_sealed_document_is_found,
    law_version_names_its_document, version_envelope,
};
use crate::ledger::{
    blank_envelope, chain_errors, chain_intact, head_id, human_actor_model, law_no_error_iff_intact,
    EnvelopeModel, ExaminedModel,
};
use crate::store::{
    chain_rows, content_hash, is_earliest, is_free_from, is_head, is_newest, joined_lines,
    json_lines, readable, record_row, rows_of, RecordModel,
};
use crate::text::{numbered_lines, split_lines};
use crate::version::{
    blank_form, doc_payload, part_named, work_payload, FieldModel, FormModel, FormPart,
};
use vstd::prelude::*;

verus! {

// ── the versions of a work ───────────────────────────

/// The first envelope of a work, sealed with its content id, id and signature.
pub open spec fn first_envelope(
    lid: Seq<char>,
    title: Seq<char>,
    now: Seq<char>,
    pubkey: Seq<char>,
    cid: Seq<char>,
    id: Seq<char>,
    sig: Seq<char>,
) -> EnvelopeModel {
    EnvelopeModel {
        cid,
        id,
        sig,
        ..blank_envelope(
            lid,
            None,
            "work"@,
            work_payload(title, now),
            now,
            human_actor_model(lid, pubkey),
        )
    }
}

/// A record whose digests and signature are found again.
pub open spec fn found_again(env: EnvelopeModel) -> ExaminedModel {
    ExaminedModel { env, cid: env.cid, id: env.id, sig_ok: true }
}

/// A version that was added: the form it came with, the time, and what sealed it.
pub struct AddedVersion {
    pub form: FormModel,
    pub now: Seq<char>,
    pub cid: Seq<char>,
    pub id: Seq<char>,
    pub sig: Seq<char>,
}

/// The chain of a work after versions were added, one after the other.
pub open spec fn work_chain(
    first: EnvelopeModel,
    lid: Seq<char>,
    pubkey: Seq<char>,
    added: Seq<AddedVersion>,
) -> Seq<ExaminedModel>
    decreases added.len(),
{
    if added.len() == 0 {
        seq![found_again(first)]
    } else {
        let before = work_chain(first, lid, pubkey, added.drop_last());
        let v = added.last();
        before.push(
            found_again(
                version_envelope(lid, v.form, head_id(before), v.now, pubkey, v.cid, v.id, v.sig),
            ),
        )
    }
}

/// A new work begins with an intact chain of one record, which shows no version yet and
/// names the key of the work.
pub proof fn law_created_work_stands(
    lid: Seq<char>,
    title: Seq<char>,
    now: Seq<char>,
    pubkey: Seq<char>,
    cid: Seq<char>,
    id: Seq<char>,
    sig: Seq<char>,
)
    ensures
        ({
            let chain = seq![found_again(first_envelope(lid, title, now, pubkey, cid, id, sig))];
            &&& chain_intact(chain)
            &&& head_id(chain) == Some(id)
            &&& first_key(chain) == Some(pubkey)
            &&& versions_json(chain) == Seq::<JsonModel>::empty()
        }),
{
    let none = Seq::<ExaminedModel>::empty();
    let record = found_again(first_envelope(lid, title, now, pubkey, cid, id, sig));
    law_append_keeps_intact(none, record);
    assert(none.push(record) =~= seq![record]);
    assert(seq![record].drop_last() =~= none);
    reveal_strlit("work");
    reveal_strlit("doc");
    assert("work"@.len() == 4 && "doc"@.len() == 3);
    assert(versions_json(none) =~= seq![]);
    assert(versions_json(seq![record]) == versions_json(none));
}

/// What is shown of a version names its number and its record.
proof fn lemma_version_shows(seq: int, env: EnvelopeModel)
    ensures
        version_json(seq, env).get("seq"@) == Some(JsonModel::Integer(seq)),
        version_json(seq, env).get("env_id"@) == Some(JsonModel::Text(env.id)),
{
    reveal_strlit("seq");
    reveal_strlit("env_id");
    assert("seq"@.len() == 3 && "env_id"@.len() == 6);
    let members = version_json(seq, env)->Object_0;
    lemma_find_member_at(members, "seq"@, 0);
    lemma_find_member_at(members, "env_id"@, 1);
}

/// After any number of versions the chain of a work is intact and without flaws, names
/// the key of the work, and shows exactly the added versions, numbered from one in the
/// order in which they were added, each under the id of its record.
pub proof fn law_versions_of_a_work(
    lid: Seq<char>,
    title: Seq<char>,
    created: Seq<char>,
    pubkey: Seq<char>,
    cid: Seq<char>,
    id: Seq<char>,
    sig: Seq<char>,
    added: Seq<AddedVersion>,
)
    ensures
        ({
            let first = first_envelope(lid, title, created, pubkey, cid, id, sig);
            let chain = work_chain(first, lid, pubkey, added);
            let shown = versions_json(chain);
            &&& chain.len() == added.len() + 1
            &&& chain_intact(chain)
            &&& chain_errors(chain).len() == 0
            &&& first_key(chain) == Some(pubkey)
            &&& shown.len() == added.len()
            &&& forall|k: int|
                0 <= k < added.len() ==> (#[trigger] shown[k]).get("seq"@) == Some(
                    JsonModel::Integer(k + 1),
                ) && shown[k].get("env_id"@) == Some(JsonModel::Text(added[k].id))
        }),
    decreases added.len(),
{
    let first = first_envelope(lid, title, created, pubkey, cid, id, sig);
    let chain = work_chain(first, lid, pubkey, added);
    let shown = versions_json(chain);
    law_created_work_stands(lid, title, created, pubkey, cid, id, sig);
    if added.len() > 0 {
        let front = added.drop_last();
        law_versions_of_a_work(lid, title, created, pubkey, cid, id, sig, front);
        let before = work_chain(first, lid, pubkey, front);
        let v = added.last();
        let env = version_envelope(lid, v.form, head_id(before), v.now, pubkey, v.cid, v.id, v.sig);
        law_append_keeps_intact(before, found_again(env));
        assert(chain.drop_last() =~= before);
        lemma_version_shows(before.len() as int, env);
        assert(shown == versions_json(before).push(version_json(before.len() as int, env)));
        assert forall|k: int| 0 <= k < added.len() implies (#[trigger] shown[k]).get("seq"@) == Some(
            JsonModel::Integer(k + 1),
        ) && shown[k].get("env_id"@) == Some(JsonModel::Text(added[k].id)) by {
            if k < front.len() {
                assert(shown[k] == versions_json(before)[k]);
                assert(front[k] == added[k]);
            }
        }
    }
    law_no_error_iff_intact(chain);
}

// ── documents and their records ──────────────────────

/// The document hash that a payload names.
pub open spec fn named_document(payload: JsonModel) -> Option<Seq<char>> {
    match payload.get("doc"@) {
        Some(doc) => match doc.get("sha256"@) {
            Some(hash) => hash.as_text(),
            None => None,
        },
        None => None,
    }
}

/// Whether every row has the id of its envelope, and the document hash that its envelope
/// names.
pub open spec fn documents_agree(rows: Seq<RecordModel>, envs: Seq<EnvelopeModel>) -> bool {
    &&& rows.len() == envs.len()
    &&& forall|i: int|
        0 <= i < rows.len() ==> (#[trigger] rows[i]).env_id == envs[i].id && rows[i].doc_sha256
            == named_document(envs[i].payload)
}

/// The first record of a work keeps rows and envelopes in agreement.
pub proof fn law_first_record_agrees(
    rows: Seq<RecordModel>,
    envs: Seq<EnvelopeModel>,
    lid: Seq<char>,
    title: Seq<char>,
    now: Seq<char>,
    pubkey: Seq<char>,
    cid: Seq<char>,
    id: Seq<char>,
    sig: Seq<char>,
    env_json: Seq<char>,
)
    requires
        documents_agree(rows, envs),
    ensures
        ({
            let env = first_envelope(lid, title, now, pubkey, cid, id, sig);
            documents_agree(rows.push(record_row(lid, 0, env, None, env_json)), envs.push(env))
        }),
{
    reveal_strlit("work");
    reveal_strlit("doc");
    assert("work"@.len() == 4 && "doc"@.len() == 3);
    let members = work_payload(title, now)->Object_0;
    assert(members.drop_first().len() == 0);
    assert(find_member(members.drop_first(), "doc"@) is None);
    assert(named_document(work_payload(title, now)) is None);
}

/// The record of a version keeps rows and envelopes in agreement.
pub proof fn law_version_record_agrees(
    rows: Seq<RecordModel>,
    envs: Seq<EnvelopeModel>,
    lid: Seq<char>,
    seq: int,
    form: FormModel,
    prev: Option<Seq<char>>,
    now: Seq<char>,
    pubkey: Seq<char>,
    cid: Seq<char>,
    id: Seq<char>,
    sig: Seq<char>,
    env_json: Seq<char>,
)
    requires
        documents_agree(rows, envs),
    ensures
        ({
            let env = version_envelope(lid, form, prev, now, pubkey, cid, id, sig);
            let hash = content_hash(form.bytes);
            documents_agree(
                rows.push(record_row(lid, seq, env, Some(hash), env_json)),
                envs.push(env),
            )
        }),
{
    law_version_names_its_document(form, content_hash(form.bytes), prev);
}

/// The record that is found for a document has an envelope that names that document.
pub proof fn law_found_record_names_the_document(
    rows: Seq<RecordModel>,
    envs: Seq<EnvelopeModel>,
    doc_hash: Seq<char>,
    i: int,
)
    requires
        documents_agree(rows, envs),
        answers(rows, SubjectModel::Document(doc_hash), i),
    ensures
        envs[i].id == rows[i].env_id,
        named_document(envs[i].payload) == Some(doc_hash),
{
}

/// One thing that happened: a work was created, or a version was added to one.
pub enum Event {
    Created {
        lid: Seq<char>,
        title: Seq<char>,
        now: Seq<char>,
        pubkey: Seq<char>,
        cid: Seq<char>,
        id: Seq<char>,
        sig: Seq<char>,
        env_json: Seq<char>,
    },
    Added {
        lid: Seq<char>,
        seq: int,
        form: FormModel,
        prev: Option<Seq<char>>,
        now: Seq<char>,
        pubkey: Seq<char>,
        cid: Seq<char>,
        id: Seq<char>,
        sig: Seq<char>,
        env_json: Seq<char>,
    },
}

impl Event {
    /// The envelope that was sealed.
    pub open spec fn envelope(self) -> EnvelopeModel {
        match self {
            Event::Created { lid, title, now, pubkey, cid, id, sig, env_json } => first_envelope(
                lid,
                title,
                now,
                pubkey,
                cid,
                id,
                sig,
            ),
            Event::Added { lid, seq, form, prev, now, pubkey, cid, id, sig, env_json } =>
            version_envelope(lid, form, prev, now, pubkey, cid, id, sig),
        }
    }

    /// The row that was written.
    pub open spec fn row(self) -> RecordModel {
        match self {
            Event::Created { lid, env_json, .. } => record_row(
                lid,
                0,
                self.envelope(),
                None,
                env_json,
            ),
            Event::Added { lid, seq, form, env_json, .. } => record_row(
                lid,
                seq,
                self.envelope(),
                Some(content_hash(form.bytes)),
                env_json,
            ),
        }
    }
}

/// The rows after a history of events.
pub open spec fn rows_after(events: Seq<Event>) -> Seq<RecordModel> {
    events.map_values(|e: Event| e.row())
}

/// The envelopes after a history of events.
pub open spec fn envelopes_after(events: Seq<Event>) -> Seq<EnvelopeModel> {
    events.map_values(|e: Event| e.envelope())
}

/// Rows and envelopes agree after every history.
pub proof fn law_history_agrees(events: Seq<Event>)
    ensures
        documents_agree(rows_after(events), envelopes_after(events)),
    decreases events.len(),
{
    let rows = rows_after(events);
    let envs = envelopes_after(events);
    if events.len() > 0 {
        let front = events.drop_last();
        law_history_agrees(front);
        assert(rows =~= rows_after(front).push(events.last().row()));
        assert(envs =~= envelopes_after(front).push(events.last().envelope()));
        match events.last() {
            Event::Created { lid, title, now, pubkey, cid, id, sig, env_json } => {
                law_first_record_agrees(
                    rows_after(front),
                    envelopes_after(front),
                    lid,
                    title,
                    now,
                    pubkey,
                    cid,
                    id,
                    sig,
                    env_json,
                );
            },
            Event::Added { lid, seq, form, prev, now, pubkey, cid, id, sig, env_json } => {
                law_version_record_agrees(
                    rows_after(front),
                    envelopes_after(front),
                    lid,
                    seq,
                    form,
                    prev,
                    now,
                    pubkey,
                    cid,
                    id,
                    sig,
                    env_json,
                );
            },
        }
    }
}

/// The bytes of a version that was once added are found for ever after, whatever works
/// and versions came before and behind it, and every record that answers for them has an
/// envelope that names their hash.
pub proof fn law_added_document_stays_found(events: Seq<Event>, k: int)
    requires
        0 <= k < events.len(),
        events[k] is Added,
    ensures
        ({
            let bytes = events[k]->form.bytes;
            let asked = SubjectModel::Document(content_hash(bytes));
            &&& bytes.len() > 0 ==> subject_of(bytes, None, None) == Some(asked)
            &&& exists|i: int| #[trigger] answers(rows_after(events), asked, i)
            &&& forall|i: int| #[trigger]
                answers(rows_after(events), asked, i) ==> rows_after(events)[i].doc_sha256 == Some(
                    content_hash(bytes),
                ) && envelopes_after(events)[i].id == rows_after(events)[i].env_id
                    && named_document(envelopes_after(events)[i].payload) == Some(
                    content_hash(bytes),
                )
        }),
{
    let rows = rows_after(events);
    let envs = envelopes_after(events);
    let hash = content_hash(events[k]->form.bytes);
    let asked = SubjectModel::Document(hash);
    law_history_agrees(events);
    assert(rows[k] == events[k].row());
    law_sealed_document_is_found(rows, k, hash);
    let i = choose|i: int| #[trigger] is_earliest(rows, hash, i);
    assert(answers(rows, asked, i));
    assert forall|i: int| #[trigger] answers(rows, asked, i) implies rows[i].doc_sha256 == Some(hash)
        && envs[i].id == rows[i].env_id && named_document(envs[i].payload) == Some(hash) by {
        law_found_record_names_the_document(rows, envs, hash, i);
    }
}

// ── what is read back ────────────────────────────────

/// The records of a work, where `parse` is how an envelope is read from its text.
pub open spec fn read_records(
    rows: Seq<RecordModel>,
    lid: Seq<char>,
    parse: spec_fn(Seq<char>) -> Option<EnvelopeModel>,
) -> Seq<EnvelopeModel> {
    readable(parsed_lines(json_lines(chain_rows(rows, lid)), parse))
}

/// Texts, each read as an envelope or not readable.
pub open spec fn parsed_lines(
    lines: Seq<Seq<char>>,
    parse: spec_fn(Seq<char>) -> Option<EnvelopeModel>,
) -> Seq<Option<EnvelopeModel>> {
    lines.map_values(parse)
}

/// A record whose text is read as the envelope that was written comes last among the
/// records of its work; those before it stay as they were, and other works' too.
pub proof fn law_records_only_grow(
    rows: Seq<RecordModel>,
    row: RecordModel,
    env: EnvelopeModel,
    parse: spec_fn(Seq<char>) -> Option<EnvelopeModel>,
)
    requires
        is_free_from(rows, row.lid, row.seq),
        parse(row.env_json) == Some(env),
    ensures
        read_records(rows.push(row), row.lid, parse) == read_records(rows, row.lid, parse).push(env),
        forall|lid: Seq<char>|
            lid != row.lid ==> #[trigger] read_records(rows.push(row), lid, parse) == read_records(
                rows,
                lid,
                parse,
            ),
{
    law_chain_only_grows(rows, row);
    let before = parsed_lines(json_lines(chain_rows(rows, row.lid)), parse);
    let after = parsed_lines(json_lines(chain_rows(rows.push(row), row.lid)), parse);
    assert(after =~= before.push(Some(env)));
    assert(after.drop_last() =~= before);
}

proof fn lemma_all_readable(parsed: Seq<Option<EnvelopeModel>>)
    requires
        forall|i: int| 0 <= i < parsed.len() ==> (#[trigger] parsed[i]) is Some,
    ensures
        readable(parsed).len() == parsed.len(),
        forall|i: int| 0 <= i < parsed.len() ==> #[trigger] parsed[i] == Some(readable(parsed)[i]),
    decreases parsed.len(),
{
    if parsed.len() > 0 {
        let front = parsed.drop_last();
        assert forall|i: int| 0 <= i < front.len() implies (#[trigger] front[i]) is Some by {
            assert(parsed[i] is Some);
        }
        lemma_all_readable(front);
        assert(parsed[parsed.len() - 1] is Some);
        assert forall|i: int| 0 <= i < parsed.len() implies #[trigger] parsed[i] == Some(
            readable(parsed)[i],
        ) by {
            if i < front.len() {
                assert(front[i] == parsed[i]);
            }
        }
    }
}

/// The ledger file of a work holds its records: one line for each, in their order, and
/// each line is read as that record, so that whoever reads the file judges the very same
/// chain. The file of a work without records is empty.
pub proof fn law_ledger_file_holds_the_records(
    rows: Seq<RecordModel>,
    lid: Seq<char>,
    parse: spec_fn(Seq<char>) -> Option<EnvelopeModel>,
)
    requires
        forall|i: int|
            0 <= i < chain_rows(rows, lid).len() ==> is_line(
                (#[trigger] chain_rows(rows, lid)[i]).env_json,
            ) && parse(chain_rows(rows, lid)[i].env_json) is Some,
    ensures
        ({
            let file = joined_lines(json_lines(chain_rows(rows, lid)));
            let lines = numbered_lines(split_lines(file));
            let records = read_records(rows, lid, parse);
            &&& lines.len() == records.len()
            &&& forall|i: int|
                0 <= i < lines.len() ==> (#[trigger] lines[i]).0 == i + 1 && parse(lines[i].1)
                    == Some(records[i])
            &&& records.len() == 0 ==> file == Seq::<char>::empty()
            &&& readable(parsed_lines(lines.map_values(|line: (nat, Seq<char>)| line.1), parse))
                == records
        }),
{
    let texts = json_lines(chain_rows(rows, lid));
    assert forall|i: int| 0 <= i < texts.len() implies is_line(#[trigger] texts[i]) by {
        assert(is_line(chain_rows(rows, lid)[i].env_json));
    }
    law_ledger_file_reads_back(texts);
    let parsed = parsed_lines(texts, parse);
    assert forall|i: int| 0 <= i < parsed.len() implies (#[trigger] parsed[i]) is Some by {
        assert(parse(chain_rows(rows, lid)[i].env_json) is Some);
    }
    lemma_all_readable(parsed);
    let lines = numbered_lines(split_lines(joined_lines(texts)));
    let records = read_records(rows, lid, parse);
    assert forall|i: int| 0 <= i < lines.len() implies (#[trigger] lines[i]).0 == i + 1 && parse(
        lines[i].1,
    ) == Some(records[i]) by {
        assert(lines[i].1 == texts[i]);
        assert(parsed[i] == parse(texts[i]));
    }
    assert(lines.map_values(|line: (nat, Seq<char>)| line.1) =~= texts);
}

proof fn lemma_rows_of(rows: Seq<RecordModel>, lid: Seq<char>)
    ensures
        forall|row: RecordModel| #[trigger]
            rows_of(rows, lid).contains(row) <==> rows.contains(row) && row.lid == lid,
    decreases rows.len(),
{
    if rows.len() > 0 {
        let before = rows.drop_last();
        let last = rows.last();
        lemma_rows_of(before, lid);
        let mine = rows_of(rows, lid);
        let shorter = rows_of(before, lid);
        assert(rows[rows.len() - 1] == last);
        assert forall|row: RecordModel| #[trigger] mine.contains(row) <==> rows.contains(row)
            && row.lid == lid by {
            if mine.contains(row) {
                let i = choose|i: int| 0 <= i < mine.len() && mine[i] == row;
                if i < shorter.len() {
                    assert(shorter[i] == row);
                    assert(shorter.contains(row));
                    let j = choose|j: int| 0 <= j < before.len() && before[j] == row;
                    assert(rows[j] == row);
                } else {
                    assert(row == last);
                }
            }
            if rows.contains(row) && row.lid == lid {
                let j = choose|j: int| 0 <= j < rows.len() && rows[j] == row;
                if j < before.len() {
                    assert(before[j] == row);
                    assert(before.contains(row));
                    assert(shorter.contains(row));
                    let i = choose|i: int| 0 <= i < shorter.len() && shorter[i] == row;
                    assert(mine[i] == row);
                } else {
                    assert(mine[mine.len() - 1] == row);
                }
            }
        }
    }
}

/// Whether every row of a work is read as an envelope with the row's id.
pub open spec fn rows_readable(
    rows: Seq<RecordModel>,
    lid: Seq<char>,
    parse: spec_fn(Seq<char>) -> Option<EnvelopeModel>,
) -> bool {
    forall|j: int|
        0 <= j < rows.len() && (#[trigger] rows[j]).lid == lid ==> (parse(
            rows[j].env_json,
        ) matches Some(env) && env.id == rows[j].env_id)
}

/// The id of the last of the records.
pub open spec fn last_id(records: Seq<EnvelopeModel>) -> Option<Seq<char>> {
    if records.len() == 0 {
        None
    } else {
        Some(records.last().id)
    }
}

/// The head that is read from the rows of a work is the last of the records that are
/// read from them.
pub proof fn law_head_is_the_last_record(
    rows: Seq<RecordModel>,
    lid: Seq<char>,
    head: Option<Seq<char>>,
    next: int,
    parse: spec_fn(Seq<char>) -> Option<EnvelopeModel>,
)
    requires
        keys_distinct(rows),
        rows_readable(rows, lid, parse),
        is_head(rows, lid, head, next),
    ensures
        last_id(read_records(rows, lid, parse)) == head,
{
    let chain = chain_rows(rows, lid);
    let texts = json_lines(chain);
    let parsed = parsed_lines(texts, parse);
    law_chain_order(rows, lid);
    lemma_rows_of(rows, lid);
    assert forall|p: int| 0 <= p < chain.len() implies rows.contains(#[trigger] chain[p])
        && chain[p].lid == lid by {
        assert(chain.contains(chain[p]));
        assert(rows_of(rows, lid).contains(chain[p]));
    }
    assert forall|p: int| 0 <= p < parsed.len() implies (#[trigger] parsed[p]) is Some by {
        let j = choose|j: int| 0 <= j < rows.len() && rows[j] == chain[p];
        assert(rows[j].lid == lid);
        assert(parsed[p] == parse(chain[p].env_json));
    }
    lemma_all_readable(parsed);
    let records = read_records(rows, lid, parse);
    match head {
        Some(id) => {
            let i = choose|i: int| #[trigger]
                is_newest(rows, lid, i) && rows[i].env_id == id && rows[i].seq + 1 == next;
            assert(rows.contains(rows[i]));
            assert(rows_of(rows, lid).contains(rows[i]));
            assert(chain.contains(rows[i]));
            let p = choose|p: int| 0 <= p < chain.len() && chain[p] == rows[i];
            let last = chain.len() - 1;
            assert(chain[p].seq <= chain[last].seq);
            assert(rows.contains(chain[last]) && chain[last].lid == lid);
            let j = choose|j: int| 0 <= j < rows.len() && rows[j] == chain[last];
            assert(rows[j].lid == lid);
            assert(rows[j].seq <= rows[i].seq);
            assert(rows[j].seq == rows[i].seq);
            if i < j {
                assert(!(rows[i].lid == rows[j].lid && rows[i].seq == rows[j].seq));
            } else if j < i {
                assert(!(rows[j].lid == rows[i].lid && rows[j].seq == rows[i].seq));
            }
            assert(chain[last] == rows[i]);
            assert(parsed[last] == Some(records[last]));
        },
        None => {
            if chain.len() > 0 {
                assert(rows.contains(chain[0]) && chain[0].lid == lid);
                let j = choose|j: int| 0 <= j < rows.len() && rows[j] == chain[0];
                assert(rows[j].lid != lid);
            }
        },
    }
}

/// The chain of a work: the records that are read from its rows, each with what is
/// derived from it anew.
pub open spec fn examined_chain(
    rows: Seq<RecordModel>,
    lid: Seq<char>,
    parse: spec_fn(Seq<char>) -> Option<EnvelopeModel>,
    by: Derivation,
    signing: Signing,
) -> Seq<ExaminedModel> {
    read_records(rows, lid, parse).map_values(|env: EnvelopeModel| by.examine(signing, env))
}

/// The envelope that a version becomes when the digests of its payload and core and the
/// signature of its id seal it.
pub open spec fn sealed_version(
    lid: Seq<char>,
    form: FormModel,
    prev: Option<Seq<char>>,
    now: Seq<char>,
    pubkey: Seq<char>,
    by: Derivation,
    signing: Signing,
) -> EnvelopeModel {
    let none = Seq::<char>::empty();
    let blank = version_envelope(lid, form, prev, now, pubkey, none, none, none);
    let cid = (by.digest)((by.payload_text)(blank.payload));
    let id = (by.digest)((by.core_text)(EnvelopeModel { cid, ..blank }));
    EnvelopeModel { cid, id, sig: (signing.sign)(id), ..blank }
}

/// Adding a version as the program does it, on the head and number that are read from
/// the rows: an intact chain stays intact, every earlier record stays in its place, the
/// chains of other works stay, and what was asked of the rows holds again.
pub proof fn law_added_version_keeps_the_chain(
    rows: Seq<RecordModel>,
    lid: Seq<char>,
    head: Option<Seq<char>>,
    next: int,
    form: FormModel,
    now: Seq<char>,
    pubkey: Seq<char>,
    env_json: Seq<char>,
    parse: spec_fn(Seq<char>) -> Option<EnvelopeModel>,
    by: Derivation,
    signing: Signing,
)
    requires
        keys_distinct(rows),
        rows_readable(rows, lid, parse),
        is_head(rows, lid, head, next),
        chain_intact(examined_chain(rows, lid, parse, by, signing)),
        parse(env_json) == Some(sealed_version(lid, form, head, now, pubkey, by, signing)),
        by.core_omits_seal(),
        forall|id: Seq<char>| #[trigger]
            (signing.verifies)(pubkey, id, (signing.sign)(id)),
    ensures
        ({
            let env = sealed_version(lid, form, head, now, pubkey, by, signing);
            let row = record_row(lid, next, env, Some(content_hash(form.bytes)), env_json);
            let after = rows.push(row);
            &&& read_records(after, lid, parse) == read_records(rows, lid, parse).push(env)
            &&& chain_intact(examined_chain(after, lid, parse, by, signing))
            &&& forall|other: Seq<char>|
                other != lid ==> #[trigger] read_records(after, other, parse) == read_records(
                    rows,
                    other,
                    parse,
                )
            &&& keys_distinct(after)
            &&& rows_readable(after, lid, parse)
            &&& is_head(after, lid, Some(env.id), next + 1)
        }),
{
    let env = sealed_version(lid, form, head, now, pubkey, by, signing);
    let row = record_row(lid, next, env, Some(content_hash(form.bytes)), env_json);
    let after = rows.push(row);
    let chain = examined_chain(rows, lid, parse, by, signing);
    let records = read_records(rows, lid, parse);
    assert(is_free_from(rows, lid, next)) by {
        match head {
            Some(id) => {
                let i = choose|i: int| #[trigger]
                    is_newest(rows, lid, i) && rows[i].env_id == id && rows[i].seq + 1 == next;
                assert forall|j: int| 0 <= j < rows.len() && (#[trigger] rows[j]).lid
                    == lid implies rows[j].seq < next by {
                    assert(rows[j].seq <= rows[i].seq);
                }
            },
            None => {},
        }
    }
    law_head_is_the_last_record(rows, lid, head, next, parse);
    if records.len() > 0 {
        assert(chain.last() == by.examine(signing, records.last()));
    }
    assert(head_id(chain) == head);
    law_records_only_grow(rows, row, env, parse);
    law_append_keeps_keys_distinct(rows, row);
    law_head_follows_the_append(rows, row);
    law_sealed_record_verifies(
        chain,
        by,
        signing,
        lid,
        "doc"@,
        doc_payload(form, content_hash(form.bytes), head),
        now,
        human_actor_model(lid, pubkey),
    );
    assert(examined_chain(after, lid, parse, by, signing) =~= chain.push(by.examine(signing, env)));
    assert forall|j: int| 0 <= j < after.len() && (#[trigger] after[j]).lid == lid implies (parse(
        after[j].env_json,
    ) matches Some(e) && e.id == after[j].env_id) by {
        if j < rows.len() {
            assert(after[j] == rows[j]);
        }
    }
}

// ── the form ─────────────────────────────────────────

/// The part of the form that a field fills in. A text field named like the file fills in
/// nothing.
pub open spec fn place(field: FieldModel) -> FormPart {
    match field {
        FieldModel::Text(part, _) => if part == FormPart::File {
            FormPart::Other
        } else {
            part
        },
        FieldModel::File(_, _, _) => FormPart::File,
    }
}

/// Whether every part of the form is filled in at most once.
pub open spec fn each_once(fields: Seq<FieldModel>) -> bool {
    forall|i: int, j: int|
        0 <= i < j < fields.len() && place(#[trigger] fields[i]) == place(#[trigger] fields[j])
            ==> place(fields[i]) == FormPart::Other
}

/// Whether the same fields fill in the form; those that fill in nothing do not count.
pub open spec fn same_fields(a: Seq<FieldModel>, b: Seq<FieldModel>) -> bool {
    forall|field: FieldModel|
        place(field) != FormPart::Other ==> (#[trigger] a.contains(field) <==> b.contains(field))
}

/// The last field that fills in a part.
pub open spec fn filling(fields: Seq<FieldModel>, part: FormPart) -> Option<FieldModel>
    decreases fields.len(),
{
    if fields.len() == 0 {
        None
    } else if place(fields.last()) == part {
        Some(fields.last())
    } else {
        filling(fields.drop_last(), part)
    }
}

/// The text that a field fills in, or what stood there.
pub open spec fn text_or(field: Option<FieldModel>, before: Seq<char>) -> Seq<char> {
    match field {
        Some(FieldModel::Text(_, text)) => text,
        _ => before,
    }
}

/// The form with each part taken from the field that fills it in.
pub open spec fn assembled(form: FormModel, fields: Seq<FieldModel>) -> FormModel {
    let texts = FormModel {
        token: text_or(filling(fields, FormPart::Token), form.token),
        title: text_or(filling(fields, FormPart::Title), form.title),
        note: text_or(filling(fields, FormPart::Note), form.note),
        doc_type: text_or(filling(fields, FormPart::DocType), form.doc_type),
        ..form
    };
    match filling(fields, FormPart::File) {
        Some(FieldModel::File(file_name, content_type, bytes)) => texts.with_file(
            file_name,
            content_type,
            bytes,
        ),
        _ => texts,
    }
}

/// What holds of all fields holds of those before the last.
proof fn lemma_front_once(fields: Seq<FieldModel>)
    requires
        fields.len() > 0,
        each_once(fields),
    ensures
        each_once(fields.drop_last()),
{
    let front = fields.drop_last();
    assert forall|i: int, j: int|
        0 <= i < j < front.len() && place(#[trigger] front[i]) == place(
            #[trigger] front[j],
        ) implies place(front[i]) == FormPart::Other by {
        assert(front[i] == fields[i] && front[j] == fields[j]);
    }
}

/// The field that fills in a part is the one field of that part.
proof fn lemma_filling(fields: Seq<FieldModel>, part: FormPart)
    requires
        each_once(fields),
        part != FormPart::Other,
    ensures
        match filling(fields, part) {
            Some(field) => fields.contains(field) && place(field) == part,
            None => true,
        },
        forall|field: FieldModel| #[trigger]
            fields.contains(field) && place(field) == part ==> filling(fields, part) == Some(field),
    decreases fields.len(),
{
    if fields.len() > 0 {
        let front = fields.drop_last();
        let last = fields.last();
        let n = fields.len() - 1;
        assert(fields[n] == last);
        lemma_front_once(fields);
        lemma_filling(front, part);
        if place(last) == part {
            assert(fields.contains(last));
        } else {
            match filling(front, part) {
                Some(field) => {
                    let i = choose|i: int| 0 <= i < front.len() && front[i] == field;
                    assert(fields[i] == field);
                },
                None => {},
            }
        }
        assert forall|field: FieldModel| #[trigger]
            fields.contains(field) && place(field) == part implies filling(fields, part) == Some(
            field,
        ) by {
            let i = choose|i: int| 0 <= i < fields.len() && fields[i] == field;
            if i < n {
                assert(front[i] == field);
                assert(front.contains(field));
                assert(place(fields[i]) == part);
                if place(last) == part {
                    assert(place(fields[i]) == place(fields[n]));
                }
            }
        }
    }
}

/// Filling in fields one after the other takes each part from its field.
proof fn lemma_filled(form: FormModel, fields: Seq<FieldModel>)
    requires
        each_once(fields),
    ensures
        form.filled(fields) == assembled(form, fields),
    decreases fields.len(),
{
    if fields.len() > 0 {
        let front = fields.drop_last();
        let last = fields.last();
        let n = fields.len() - 1;
        assert(fields[n] == last);
        lemma_front_once(fields);
        lemma_filled(form, front);
        if place(last) == FormPart::File {
            lemma_filling(front, FormPart::File);
            match filling(front, FormPart::File) {
                Some(field) => {
                    let i = choose|i: int| 0 <= i < front.len() && front[i] == field;
                    assert(fields[i] == field);
                    assert(place(fields[i]) == place(fields[n]));
                    assert(false);
                },
                None => {},
            }
        }
    }
}

/// The order of the fields does not matter, nor do fields that fill in nothing: a form
/// whose parts are each filled in at most once comes out the same.
pub proof fn law_order_of_fields_does_not_matter(
    form: FormModel,
    a: Seq<FieldModel>,
    b: Seq<FieldModel>,
)
    requires
        each_once(a),
        each_once(b),
        same_fields(a, b),
    ensures
        form.filled(a) == form.filled(b),
{
    lemma_filled(form, a);
    lemma_filled(form, b);
    lemma_same_filling(a, b, FormPart::Token);
    lemma_same_filling(a, b, FormPart::Title);
    lemma_same_filling(a, b, FormPart::Note);
    lemma_same_filling(a, b, FormPart::DocType);
    lemma_same_filling(a, b, FormPart::File);
}

proof fn lemma_same_filling(a: Seq<FieldModel>, b: Seq<FieldModel>, part: FormPart)
    requires
        each_once(a),
        each_once(b),
        same_fields(a, b),
        part != FormPart::Other,
    ensures
        filling(a, part) == filling(b, part),
{
    lemma_filling(a, part);
    lemma_filling(b, part);
    match filling(a, part) {
        Some(field) => {
            assert(a.contains(field));
            assert(b.contains(field));
        },
        None => match filling(b, part) {
            Some(field) => {
                assert(b.contains(field));
                assert(a.contains(field));
            },
            None => {},
        },
    }
}

/// What an upload that leaves something out is given: the type `file` for a document
/// without one, the name `upload` for a file without one, and a type of its own for a
/// file that names none.
pub proof fn law_defaults_of_an_upload(fields: Seq<FieldModel>)
    requires
        each_once(fields),
    ensures
        (forall|i: int| 0 <= i < fields.len() ==> place(#[trigger] fields[i]) != FormPart::DocType)
            ==> crate::version::blank_form().filled(fields).doc_type == "file"@,
        forall|i: int|
            0 <= i < fields.len() ==> (#[trigger] fields[i] matches FieldModel::File(
                file_name,
                content_type,
                bytes,
            ) ==> {
                let form = crate::version::blank_form().filled(fields);
                &&& form.bytes == bytes
                &&& form.filename == (match file_name {
                    Some(name) => name,
                    None => "upload"@,
                })
                &&& form.mime == (match content_type {
                    Some(mime) => mime,
                    None => "application/octet-stream"@,
                })
            }),
{
    let blank = crate::version::blank_form();
    lemma_filled(blank, fields);
    lemma_filling(fields, FormPart::DocType);
    lemma_filling(fields, FormPart::File);
    if forall|i: int| 0 <= i < fields.len() ==> place(#[trigger] fields[i]) != FormPart::DocType {
        match filling(fields, FormPart::DocType) {
            Some(field) => {
                let i = choose|i: int| 0 <= i < fields.len() && fields[i] == field;
                assert(place(fields[i]) == FormPart::DocType);
            },
            None => {},
        }
    }
    assert forall|i: int| 0 <= i < fields.len() && (#[trigger] fields[i]) is File implies filling(
        fields,
        FormPart::File,
    ) == Some(fields[i]) by {
        assert(fields.contains(fields[i]));
    }
}

/// The name of a field decides which part of the form it is, and no other name does.
pub proof fn law_names_of_the_fields(name: Seq<char>)
    ensures
        part_named(name) == FormPart::Token <==> name == "token"@,
        part_named(name) == FormPart::Title <==> name == "title"@,
        part_named(name) == FormPart::Note <==> name == "note"@,
        part_named(name) == FormPart::DocType <==> name == "doc_type"@,
        part_named(name) == FormPart::File <==> name == "file"@,
{
    reveal_strlit("token");
    reveal_strlit("title");
    reveal_strlit("note");
    reveal_strlit("doc_type");
    reveal_strlit("file");
    assert("token"@.len() == 5 && "title"@.len() == 5 && "note"@.len() == 4 && "doc_type"@.len()
        == 8 && "file"@.len() == 4);
    assert("token"@[1] != "title"@[1]);
    assert("note"@[0] != "file"@[0]);
}

/// A form begins with nothing filled in but the type of the document and of the file.
pub proof fn law_form_begins_blank()
    ensures
        blank_form().token.len() == 0,
        blank_form().title.len() == 0,
        blank_form().note.len() == 0,
        blank_form().filename.len() == 0,
        blank_form().bytes.len() == 0,
        blank_form().doc_type == "file"@,
        blank_form().mime == "application/octet-stream"@,
{
}

/// Whether two forms agree in everything but the texts.
pub open spec fn same_file(a: FormModel, b: FormModel) -> bool {
    a.filename == b.filename && a.mime == b.mime && a.bytes == b.bytes
}

/// Of two fields of one name the later counts: a text field that comes last is what its
/// part of the form says, and every other part stays.
pub proof fn law_last_text_counts(
    form: FormModel,
    fields: Seq<FieldModel>,
    part: FormPart,
    text: Seq<char>,
)
    ensures
        ({
            let before = form.filled(fields);
            let after = form.filled(fields.push(FieldModel::Text(part, text)));
            &&& same_file(before, after)
            &&& after.token == (if part == FormPart::Token {
                text
            } else {
                before.token
            })
            &&& after.title == (if part == FormPart::Title {
                text
            } else {
                before.title
            })
            &&& after.note == (if part == FormPart::Note {
                text
            } else {
                before.note
            })
            &&& after.doc_type == (if part == FormPart::DocType {
                text
            } else {
                before.doc_type
            })
        }),
{
    let all = fields.push(FieldModel::Text(part, text));
    assert(all.drop_last() =~= fields);
    assert(all.last() == FieldModel::Text(part, text));
}

/// Of two files the later counts: its bytes and its name are what the form holds, its type
/// too where it has one, and no text changes.
pub proof fn law_last_file_counts(
    form: FormModel,
    fields: Seq<FieldModel>,
    file_name: Option<Seq<char>>,
    content_type: Option<Seq<char>>,
    bytes: Seq<u8>,
)
    ensures
        ({
            let before = form.filled(fields);
            let after = form.filled(fields.push(FieldModel::File(file_name, content_type, bytes)));
            &&& after.bytes == bytes
            &&& file_name matches Some(name) ==> after.filename == name
            &&& file_name is None ==> after.filename == "upload"@
            &&& content_type matches Some(mime) ==> after.mime == mime
            &&& content_type is None ==> after.mime == before.mime
            &&& after.token == before.token
            &&& after.title == before.title
            &&& after.note == before.note
            &&& after.doc_type == before.doc_type
        }),
{
    let all = fields.push(FieldModel::File(file_name, content_type, bytes));
    assert(all.drop_last() =~= fields);
    assert(all.last() == FieldModel::File(file_name, content_type, bytes));
}

/// A form into which nothing came is as it was.
pub proof fn law_no_fields_change_nothing(form: FormModel)
    ensures
        form.filled(Seq::empty()) == form,
{
}

} // verus!
