//! What is kept of a work, as rows, and where the bytes of a document are kept.
//!
//! The source of truth is the chain of envelopes in `RecordRow::env_json`. The other
//! columns are an index. Rows are read and written elsewhere; which rows answer a
//! question, and what a new row holds, is decided here. The bytes of a document are
//! kept in a file that is named by their SHA-256 digest.

use crate::ledger::{Envelope, EnvelopeModel};
use crate::order::{ascending, ascending_positions, law_ascending, numbers, positions};
use crate::outside::{hex_encode, hex_text, is_hex_digit, sha256, sha256_digest};
use crate::text::{
    chars_of, copy_option, join2, join_path, joined_path, same_option, same_text, strip_prefix,
};
use vstd::prelude::*;

verus! {

// ── works ────────────────────────────────────────────

/// A row of the table of works.
#[derive(Debug)]
pub struct WorkRow {
    pub lid: String,
    pub title: String,
    pub owner_email: String,
    pub signer_pubkey: String,
    pub created_at: String,
}

/// The row of a new work.
pub fn insert_work(lid: &str, title: &str, email: &str, pubkey: &str, now: &str) -> (r: WorkRow)
    ensures
        r.lid@ == lid@,
        r.title@ == title@,
        r.owner_email@ == email@,
        r.signer_pubkey@ == pubkey@,
        r.created_at@ == now@,
{
    WorkRow {
        lid: lid.to_owned(),
        title: title.to_owned(),
        owner_email: email.to_owned(),
        signer_pubkey: pubkey.to_owned(),
        created_at: now.to_owned(),
    }
}

/// Whether one of the rows is that work's.
pub fn work_exists(works: &[WorkRow], lid: &str) -> (r: bool)
    ensures
        r == exists|i: int| 0 <= i < works@.len() && (#[trigger] works@[i]).lid@ == lid@,
{
    let mut i: usize = 0;
    while i < works.len()
        invariant
            i <= works.len(),
            forall|j: int| 0 <= j < i ==> (#[trigger] works@[j]).lid@ != lid@,
        decreases works.len() - i,
    {
        if same_text(works[i].lid.as_str(), lid) {
            return true;
        }
        i = i + 1;
    }
    false
}

// ── records (append-only) ────────────────────────────

/// A row of the table of records.
#[derive(Debug)]
pub struct RecordRow {
    pub lid: String,
    pub seq: i64,
    pub env_id: String,
    pub prev: Option<String>,
    pub cid: String,
    pub kind: String,
    pub doc_sha256: Option<String>,
    pub ts: String,
    pub env_json: String,
}

/// What a row of the table of records stands for.
pub struct RecordModel {
    pub lid: Seq<char>,
    pub seq: int,
    pub env_id: Seq<char>,
    pub prev: Option<Seq<char>>,
    pub cid: Seq<char>,
    pub kind: Seq<char>,
    pub doc_sha256: Option<Seq<char>>,
    pub ts: Seq<char>,
    pub env_json: Seq<char>,
}

impl View for RecordRow {
    type V = RecordModel;

    open spec fn view(&self) -> RecordModel {
        RecordModel {
            lid: self.lid@,
            seq: self.seq as int,
            env_id: self.env_id@,
            prev: chars_of(self.prev),
            cid: self.cid@,
            kind: self.kind@,
            doc_sha256: chars_of(self.doc_sha256),
            ts: self.ts@,
            env_json: self.env_json@,
        }
    }
}

impl Clone for RecordRow {
    fn clone(&self) -> (r: RecordRow)
        ensures
            r@ == self@,
    {
        RecordRow {
            lid: self.lid.clone(),
            seq: self.seq,
            env_id: self.env_id.clone(),
            prev: copy_option(&self.prev),
            cid: self.cid.clone(),
            kind: self.kind.clone(),
            doc_sha256: copy_option(&self.doc_sha256),
            ts: self.ts.clone(),
            env_json: self.env_json.clone(),
        }
    }
}

/// What rows of the table of records stand for.
pub open spec fn record_models(rows: Seq<RecordRow>) -> Seq<RecordModel> {
    Seq::new(rows.len(), |i: int| rows[i]@)
}

/// Whether the row at position `i` is the newest of the work: none of the work's rows
/// has a greater sequence number.
pub open spec fn is_newest(rows: Seq<RecordModel>, lid: Seq<char>, i: int) -> bool {
    &&& 0 <= i < rows.len()
    &&& rows[i].lid == lid
    &&& forall|j: int|
        0 <= j < rows.len() && (#[trigger] rows[j]).lid == lid ==> rows[j].seq <= rows[i].seq
}

/// Whether `next` is above the sequence number of every row of the work.
pub open spec fn is_free_from(rows: Seq<RecordModel>, lid: Seq<char>, next: int) -> bool {
    forall|j: int| 0 <= j < rows.len() && (#[trigger] rows[j]).lid == lid ==> rows[j].seq < next
}

/// Whether `head` is the id of the newest record of a work, and `next` the number after
/// its own. A work without records has no head, and its first number is zero.
pub open spec fn is_head(
    rows: Seq<RecordModel>,
    lid: Seq<char>,
    head: Option<Seq<char>>,
    next: int,
) -> bool {
    match head {
        Some(id) => exists|i: int| #[trigger]
            is_newest(rows, lid, i) && rows[i].env_id == id && rows[i].seq + 1 == next,
        None => next == 0 && forall|i: int|
            0 <= i < rows.len() ==> (#[trigger] rows[i]).lid != lid,
    }
}

/// The current head of a work, the id of its newest record, and the sequence number of
/// the next one. A work without records has no head, and its first number is zero.
pub fn head(rows: &[RecordRow], lid: &str) -> (r: (Option<String>, i64))
    requires
        is_free_from(record_models(rows@), lid@, i64::MAX as int),
    ensures
        is_head(record_models(rows@), lid@, chars_of(r.0), r.1 as int),
        is_free_from(record_models(rows@), lid@, r.1 as int),
{
    let ghost models = record_models(rows@);
    let mut newest: Option<usize> = None;
    let mut i: usize = 0;
    while i < rows.len()
        invariant
            i <= rows.len(),
            models == record_models(rows@),
            match newest {
                Some(k) => k < i && models[k as int].lid == lid@ && forall|j: int|
                    0 <= j < i && (#[trigger] models[j]).lid == lid@ ==> models[j].seq
                        <= models[k as int].seq,
                None => forall|j: int| 0 <= j < i ==> (#[trigger] models[j]).lid != lid@,
            },
        decreases rows.len() - i,
    {
        assert(models[i as int] == rows@[i as int]@);
        if same_text(rows[i].lid.as_str(), lid) {
            match newest {
                Some(k) => {
                    assert(models[k as int] == rows@[k as int]@);
                    if rows[i].seq > rows[k].seq {
                        newest = Some(i);
                    }
                },
                None => {
                    newest = Some(i);
                },
            }
        }
        i = i + 1;
    }
    match newest {
        Some(k) => {
            assert(models[k as int] == rows@[k as int]@);
            assert(is_newest(models, lid@, k as int));
            (Some(rows[k].env_id.clone()), rows[k].seq + 1)
        },
        None => (None, 0),
    }
}

/// The row that a record is kept in. `env_json` is the envelope written out.
pub open spec fn record_row(
    lid: Seq<char>,
    seq: int,
    env: EnvelopeModel,
    doc_sha256: Option<Seq<char>>,
    env_json: Seq<char>,
) -> RecordModel {
    RecordModel {
        lid,
        seq,
        env_id: env.id,
        prev: env.prev,
        cid: env.cid,
        kind: env.kind,
        doc_sha256,
        ts: env.ts,
        env_json,
    }
}

/// The row of a new record.
pub fn append_record(
    lid: &str,
    seq: i64,
    env: &Envelope,
    doc_sha256: &Option<String>,
    env_json: String,
) -> (r: RecordRow)
    ensures
        r@ == record_row(lid@, seq as int, env@, chars_of(*doc_sha256), env_json@),
{
    RecordRow {
        lid: lid.to_owned(),
        seq,
        env_id: env.id.clone(),
        prev: copy_option(&env.prev),
        cid: env.cid.clone(),
        kind: env.kind.clone(),
        doc_sha256: copy_option(doc_sha256),
        ts: env.ts.clone(),
        env_json,
    }
}

/// The rows of one work, as they come.
pub open spec fn rows_of(rows: Seq<RecordModel>, lid: Seq<char>) -> Seq<RecordModel>
    decreases rows.len(),
{
    if rows.len() == 0 {
        seq![]
    } else if rows.last().lid == lid {
        rows_of(rows.drop_last(), lid).push(rows.last())
    } else {
        rows_of(rows.drop_last(), lid)
    }
}

/// The items in ascending order of their keys.
pub open spec fn arranged<T>(items: Seq<T>, keys: Seq<int>) -> Seq<T> {
    Seq::new(items.len(), |i: int| items[ascending(keys)[i]])
}

/// The sequence numbers of rows.
pub open spec fn seqs_of(rows: Seq<RecordModel>) -> Seq<int> {
    rows.map_values(|row: RecordModel| row.seq)
}

/// The rows of one work in chain order: by their sequence numbers.
pub open spec fn chain_rows(rows: Seq<RecordModel>, lid: Seq<char>) -> Seq<RecordModel> {
    arranged(rows_of(rows, lid), seqs_of(rows_of(rows, lid)))
}

/// The rows of one work in chain order.
pub fn ordered_rows(rows: &[RecordRow], lid: &str) -> (r: Vec<RecordRow>)
    ensures
        record_models(r@) == chain_rows(record_models(rows@), lid@),
{
    let ghost models = record_models(rows@);
    let mut found: Vec<RecordRow> = Vec::new();
    let mut keys: Vec<i64> = Vec::new();
    let mut i: usize = 0;
    assert(record_models(found@) =~= rows_of(models.take(0), lid@));
    assert(numbers(keys@) =~= seqs_of(record_models(found@)));
    while i < rows.len()
        invariant
            i <= rows.len(),
            models == record_models(rows@),
            record_models(found@) == rows_of(models.take(i as int), lid@),
            numbers(keys@) == seqs_of(record_models(found@)),
        decreases rows.len() - i,
    {
        assert(models.take(i + 1).drop_last() =~= models.take(i as int));
        assert(models.take(i + 1).last() == rows@[i as int]@);
        if same_text(rows[i].lid.as_str(), lid) {
            let ghost before = found@;
            let ghost keys_before = keys@;
            found.push(rows[i].clone());
            keys.push(rows[i].seq);
            assert(record_models(found@) =~= record_models(before).push(rows@[i as int]@));
            assert(numbers(keys@) =~= numbers(keys_before).push(rows@[i as int].seq as int));
            assert(seqs_of(record_models(found@)) =~= seqs_of(record_models(before)).push(
                rows@[i as int].seq as int,
            ));
        }
        i = i + 1;
    }
    assert(models.take(i as int) =~= models);
    let order = ascending_positions(&keys);
    let ghost mine = record_models(found@);
    proof {
        law_ascending(seqs_of(mine));
    }
    let mut out: Vec<RecordRow> = Vec::new();
    let mut k: usize = 0;
    assert(record_models(out@) =~= arranged(mine, seqs_of(mine)).take(0));
    while k < order.len()
        invariant
            k <= order.len(),
            mine == record_models(found@),
            order.len() == found.len(),
            positions(order@) == ascending(seqs_of(mine)),
            forall|j: int|
                0 <= j < mine.len() ==> 0 <= #[trigger] ascending(seqs_of(mine))[j] < mine.len(),
            record_models(out@) == arranged(mine, seqs_of(mine)).take(k as int),
        decreases order.len() - k,
    {
        assert(ascending(seqs_of(mine))[k as int] == order@[k as int]);
        let ghost before = out@;
        out.push(found[order[k]].clone());
        assert(record_models(out@) =~= record_models(before).push(mine[order@[k as int] as int]));
        assert(arranged(mine, seqs_of(mine)).take(k + 1) =~= arranged(mine, seqs_of(mine)).take(
            k as int,
        ).push(mine[order@[k as int] as int]));
        k = k + 1;
    }
    assert(arranged(mine, seqs_of(mine)).take(k as int) =~= arranged(mine, seqs_of(mine)));
    out
}

/// What envelopes, each read from a row or not readable, stand for.
pub open spec fn parsed_models(parsed: Seq<Option<Envelope>>) -> Seq<Option<EnvelopeModel>> {
    Seq::new(
        parsed.len(),
        |i: int|
            match parsed[i] {
                Some(env) => Some(env@),
                None => None,
            },
    )
}

/// What envelopes stand for.
pub open spec fn envelope_models(envs: Seq<Envelope>) -> Seq<EnvelopeModel> {
    Seq::new(envs.len(), |i: int| envs[i]@)
}

/// The envelopes that could be read, in the same order.
pub open spec fn readable(parsed: Seq<Option<EnvelopeModel>>) -> Seq<EnvelopeModel>
    decreases parsed.len(),
{
    if parsed.len() == 0 {
        seq![]
    } else {
        match parsed.last() {
            Some(env) => readable(parsed.drop_last()).push(env),
            None => readable(parsed.drop_last()),
        }
    }
}

/// The envelopes of a work, in chain order, from what was read out of its ordered rows.
/// A row that holds no envelope is passed over.
pub fn records(parsed: &[Option<Envelope>]) -> (r: Vec<Envelope>)
    ensures
        envelope_models(r@) == readable(parsed_models(parsed@)),
{
    let ghost models = parsed_models(parsed@);
    let mut out: Vec<Envelope> = Vec::new();
    let mut i: usize = 0;
    assert(envelope_models(out@) =~= readable(models.take(0)));
    while i < parsed.len()
        invariant
            i <= parsed.len(),
            models == parsed_models(parsed@),
            envelope_models(out@) == readable(models.take(i as int)),
        decreases parsed.len() - i,
    {
        assert(models.take(i + 1).drop_last() =~= models.take(i as int));
        assert(models.take(i + 1).last() == models[i as int]);
        match &parsed[i] {
            Some(env) => {
                let ghost before = out@;
                out.push(env.clone());
                assert(envelope_models(out@) =~= envelope_models(before).push(env@));
            },
            None => {},
        }
        i = i + 1;
    }
    assert(models.take(i as int) =~= models);
    out
}

/// Lines joined by line feeds.
pub open spec fn joined_lines(lines: Seq<Seq<char>>) -> Seq<char>
    decreases lines.len(),
{
    if lines.len() == 0 {
        seq![]
    } else if lines.len() == 1 {
        lines[0]
    } else {
        joined_lines(lines.drop_last()) + seq!['\n'] + lines.last()
    }
}

/// The written-out envelopes of rows.
pub open spec fn json_lines(rows: Seq<RecordModel>) -> Seq<Seq<char>> {
    rows.map_values(|row: RecordModel| row.env_json)
}

/// The ledger of a work for offline verification: its envelopes in chain order, one to
/// a line.
pub fn ledger_jsonl(rows: &[RecordRow], lid: &str) -> (r: String)
    ensures
        r@ == joined_lines(json_lines(chain_rows(record_models(rows@), lid@))),
{
    let ordered = ordered_rows(rows, lid);
    let ghost lines = json_lines(record_models(ordered@));
    let mut out = String::new();
    let mut i: usize = 0;
    assert(out@ =~= joined_lines(lines.take(0)));
    proof {
        reveal_strlit("\n");
    }
    assert("\n"@ =~= seq!['\n']);
    while i < ordered.len()
        invariant
            i <= ordered.len(),
            lines == json_lines(record_models(ordered@)),
            out@ == joined_lines(lines.take(i as int)),
            "\n"@ == seq!['\n'],
        decreases ordered.len() - i,
    {
        assert(lines.take(i + 1).drop_last() =~= lines.take(i as int));
        assert(lines.take(i + 1).last() == ordered@[i as int].env_json@);
        if i > 0 {
            out.append("\n");
        }
        out.append(ordered[i].env_json.as_str());
        assert(out@ =~= joined_lines(lines.take(i + 1)));
        i = i + 1;
    }
    assert(lines.take(i as int) =~= lines);
    out
}

/// Whether the row at position `i` is the earliest that sealed the document: none of
/// the rows with that document hash has a smaller sequence number.
pub open spec fn is_earliest(rows: Seq<RecordModel>, doc_sha256: Seq<char>, i: int) -> bool {
    &&& 0 <= i < rows.len()
    &&& rows[i].doc_sha256 == Some(doc_sha256)
    &&& forall|j: int|
        0 <= j < rows.len() && (#[trigger] rows[j]).doc_sha256 == Some(doc_sha256) ==> rows[i].seq
            <= rows[j].seq
}

/// The work and the envelope that sealed a document, given its hash (`sha256:<hex>`).
pub fn find_by_doc_hash(rows: &[RecordRow], doc_sha256: &str) -> (r: Option<(String, String)>)
    ensures
        match r {
            Some((lid, env_id)) => exists|i: int| #[trigger]
                is_earliest(record_models(rows@), doc_sha256@, i) && record_models(rows@)[i].lid
                    == lid@ && record_models(rows@)[i].env_id == env_id@,
            None => forall|i: int|
                0 <= i < rows@.len() ==> (#[trigger] record_models(rows@)[i]).doc_sha256 != Some(
                    doc_sha256@,
                ),
        },
{
    let ghost models = record_models(rows@);
    let wanted: Option<String> = Some(doc_sha256.to_owned());
    let mut earliest: Option<usize> = None;
    let mut i: usize = 0;
    while i < rows.len()
        invariant
            i <= rows.len(),
            models == record_models(rows@),
            chars_of(wanted) == Some(doc_sha256@),
            match earliest {
                Some(k) => k < i && models[k as int].doc_sha256 == Some(doc_sha256@) && forall|j: int|
                    0 <= j < i && (#[trigger] models[j]).doc_sha256 == Some(doc_sha256@)
                        ==> models[k as int].seq <= models[j].seq,
                None => forall|j: int|
                    0 <= j < i ==> (#[trigger] models[j]).doc_sha256 != Some(doc_sha256@),
            },
        decreases rows.len() - i,
    {
        assert(models[i as int] == rows@[i as int]@);
        if same_option(&rows[i].doc_sha256, &wanted) {
            match earliest {
                Some(k) => {
                    assert(models[k as int] == rows@[k as int]@);
                    if rows[i].seq < rows[k].seq {
                        earliest = Some(i);
                    }
                },
                None => {
                    earliest = Some(i);
                },
            }
        }
        i = i + 1;
    }
    match earliest {
        Some(k) => {
            assert(models[k as int] == rows@[k as int]@);
            assert(is_earliest(models, doc_sha256@, k as int));
            Some((rows[k].lid.clone(), rows[k].env_id.clone()))
        },
        None => None,
    }
}

/// Whether the row at position `i` is the record with that id, and it sealed a document.
pub open spec fn seals_as(rows: Seq<RecordModel>, env_id: Seq<char>, i: int) -> bool {
    &&& 0 <= i < rows.len()
    &&& rows[i].env_id == env_id
    &&& rows[i].doc_sha256 is Some
}

/// The work and the document hash of a record that sealed a document, given its id.
pub fn find_by_env_id(rows: &[RecordRow], env_id: &str) -> (r: Option<(String, String)>)
    ensures
        match r {
            Some((lid, doc_sha256)) => exists|i: int| #[trigger]
                seals_as(record_models(rows@), env_id@, i) && record_models(rows@)[i].lid == lid@
                    && record_models(rows@)[i].doc_sha256 == Some(doc_sha256@),
            None => forall|i: int| !#[trigger] seals_as(record_models(rows@), env_id@, i),
        },
{
    let ghost models = record_models(rows@);
    let mut i: usize = 0;
    while i < rows.len()
        invariant
            i <= rows.len(),
            models == record_models(rows@),
            forall|j: int| 0 <= j < i ==> !#[trigger] seals_as(models, env_id@, j),
        decreases rows.len() - i,
    {
        assert(models[i as int] == rows@[i as int]@);
        if same_text(rows[i].env_id.as_str(), env_id) {
            match &rows[i].doc_sha256 {
                Some(hash) => {
                    assert(seals_as(models, env_id@, i as int));
                    return Some((rows[i].lid.clone(), hash.clone()));
                },
                None => {},
            }
        }
        i = i + 1;
    }
    None
}

// ── anchors ──────────────────────────────────────────

/// A row of the table of anchors, without the number that the table gives it.
#[derive(Debug)]
pub struct NewAnchor {
    pub lid: String,
    pub head_id: String,
    pub kind: String,
    pub reference: String,
    pub status: String,
    pub created_at: String,
}

/// A row of the table of anchors.
#[derive(Debug)]
pub struct AnchorRow {
    pub id: i64,
    pub lid: String,
    pub head_id: String,
    pub kind: String,
    pub reference: String,
    pub status: String,
    pub created_at: String,
    pub confirmed_at: Option<String>,
}

/// What is shown of an anchor.
#[derive(Debug)]
pub struct Anchor {
    pub kind: String,
    pub reference: String,
    pub status: String,
    pub created_at: String,
    pub confirmed_at: Option<String>,
}

/// What a new row of the table of anchors stands for.
pub struct NewAnchorModel {
    pub lid: Seq<char>,
    pub head_id: Seq<char>,
    pub kind: Seq<char>,
    pub reference: Seq<char>,
    pub status: Seq<char>,
    pub created_at: Seq<char>,
}

/// What a row of the table of anchors stands for.
pub struct AnchorRowModel {
    pub id: int,
    pub lid: Seq<char>,
    pub head_id: Seq<char>,
    pub kind: Seq<char>,
    pub reference: Seq<char>,
    pub status: Seq<char>,
    pub created_at: Seq<char>,
    pub confirmed_at: Option<Seq<char>>,
}

/// What is shown of an anchor stands for.
pub struct AnchorModel {
    pub kind: Seq<char>,
    pub reference: Seq<char>,
    pub status: Seq<char>,
    pub created_at: Seq<char>,
    pub confirmed_at: Option<Seq<char>>,
}

impl View for NewAnchor {
    type V = NewAnchorModel;

    open spec fn view(&self) -> NewAnchorModel {
        NewAnchorModel {
            lid: self.lid@,
            head_id: self.head_id@,
            kind: self.kind@,
            reference: self.reference@,
            status: self.status@,
            created_at: self.created_at@,
        }
    }
}

impl View for AnchorRow {
    type V = AnchorRowModel;

    open spec fn view(&self) -> AnchorRowModel {
        AnchorRowModel {
            id: self.id as int,
            lid: self.lid@,
            head_id: self.head_id@,
            kind: self.kind@,
            reference: self.reference@,
            status: self.status@,
            created_at: self.created_at@,
            confirmed_at: chars_of(self.confirmed_at),
        }
    }
}

impl View for Anchor {
    type V = AnchorModel;

    open spec fn view(&self) -> AnchorModel {
        AnchorModel {
            kind: self.kind@,
            reference: self.reference@,
            status: self.status@,
            created_at: self.created_at@,
            confirmed_at: chars_of(self.confirmed_at),
        }
    }
}

impl Clone for AnchorRow {
    fn clone(&self) -> (r: AnchorRow)
        ensures
            r@ == self@,
    {
        AnchorRow {
            id: self.id,
            lid: self.lid.clone(),
            head_id: self.head_id.clone(),
            kind: self.kind.clone(),
            reference: self.reference.clone(),
            status: self.status.clone(),
            created_at: self.created_at.clone(),
            confirmed_at: copy_option(&self.confirmed_at),
        }
    }
}

/// The row that the table keeps of a new anchor, under the number that it gives it.
pub open spec fn recorded(row: NewAnchorModel, id: int) -> AnchorRowModel {
    AnchorRowModel {
        id,
        lid: row.lid,
        head_id: row.head_id,
        kind: row.kind,
        reference: row.reference,
        status: row.status,
        created_at: row.created_at,
        confirmed_at: None,
    }
}

/// What rows of the table of anchors stand for.
pub open spec fn anchor_row_models(rows: Seq<AnchorRow>) -> Seq<AnchorRowModel> {
    Seq::new(rows.len(), |i: int| rows[i]@)
}

/// What a list of shown anchors stands for.
pub open spec fn anchor_models(anchors: Seq<Anchor>) -> Seq<AnchorModel> {
    Seq::new(anchors.len(), |i: int| anchors[i]@)
}

/// The row of a new anchor. It is not confirmed at any time yet.
pub fn record_anchor(
    lid: &str,
    head_id: &str,
    kind: &str,
    reference: &str,
    status: &str,
    now: &str,
) -> (r: NewAnchor)
    ensures
        r@ == (NewAnchorModel {
            lid: lid@,
            head_id: head_id@,
            kind: kind@,
            reference: reference@,
            status: status@,
            created_at: now@,
        }),
{
    NewAnchor {
        lid: lid.to_owned(),
        head_id: head_id.to_owned(),
        kind: kind.to_owned(),
        reference: reference.to_owned(),
        status: status.to_owned(),
        created_at: now.to_owned(),
    }
}

/// The anchors of one work, as they come.
pub open spec fn anchors_of(rows: Seq<AnchorRowModel>, lid: Seq<char>) -> Seq<AnchorRowModel>
    decreases rows.len(),
{
    if rows.len() == 0 {
        seq![]
    } else if rows.last().lid == lid {
        anchors_of(rows.drop_last(), lid).push(rows.last())
    } else {
        anchors_of(rows.drop_last(), lid)
    }
}

/// The numbers of anchors.
pub open spec fn anchor_ids(rows: Seq<AnchorRowModel>) -> Seq<int> {
    rows.map_values(|row: AnchorRowModel| row.id)
}

/// What is shown of a row.
pub open spec fn shown(row: AnchorRowModel) -> AnchorModel {
    AnchorModel {
        kind: row.kind,
        reference: row.reference,
        status: row.status,
        created_at: row.created_at,
        confirmed_at: row.confirmed_at,
    }
}

/// The anchors of one work, by their numbers.
pub open spec fn shown_anchors(rows: Seq<AnchorRowModel>, lid: Seq<char>) -> Seq<AnchorModel> {
    arranged(anchors_of(rows, lid), anchor_ids(anchors_of(rows, lid))).map_values(
        |row: AnchorRowModel| shown(row),
    )
}

/// What is shown of the anchors of a work, in the order in which they were recorded.
pub fn anchors_for(rows: &[AnchorRow], lid: &str) -> (r: Vec<Anchor>)
    ensures
        anchor_models(r@) == shown_anchors(anchor_row_models(rows@), lid@),
{
    let ghost models = anchor_row_models(rows@);
    let mut found: Vec<usize> = Vec::new();
    let mut keys: Vec<i64> = Vec::new();
    let mut i: usize = 0;
    assert(found@.map_values(|p: usize| models[p as int]) =~= anchors_of(models.take(0), lid@));
    assert(numbers(keys@) =~= anchor_ids(found@.map_values(|p: usize| models[p as int])));
    while i < rows.len()
        invariant
            i <= rows.len(),
            models == anchor_row_models(rows@),
            forall|j: int| 0 <= j < found.len() ==> (#[trigger] found@[j]) < rows.len(),
            found@.map_values(|p: usize| models[p as int]) == anchors_of(
                models.take(i as int),
                lid@,
            ),
            numbers(keys@) == anchor_ids(found@.map_values(|p: usize| models[p as int])),
        decreases rows.len() - i,
    {
        assert(models.take(i + 1).drop_last() =~= models.take(i as int));
        assert(models.take(i + 1).last() == rows@[i as int]@);
        if same_text(rows[i].lid.as_str(), lid) {
            let ghost before = found@;
            let ghost keys_before = keys@;
            found.push(i);
            keys.push(rows[i].id);
            assert(found@.map_values(|p: usize| models[p as int]) =~= before.map_values(
                |p: usize| models[p as int],
            ).push(models[i as int]));
            assert(numbers(keys@) =~= numbers(keys_before).push(rows@[i as int].id as int));
            assert(anchor_ids(found@.map_values(|p: usize| models[p as int])) =~= anchor_ids(
                before.map_values(|p: usize| models[p as int]),
            ).push(rows@[i as int].id as int));
        }
        i = i + 1;
    }
    assert(models.take(i as int) =~= models);
    let order = ascending_positions(&keys);
    let ghost mine = found@.map_values(|p: usize| models[p as int]);
    let ghost wanted = shown_anchors(models, lid@);
    proof {
        law_ascending(anchor_ids(mine));
    }
    let mut out: Vec<Anchor> = Vec::new();
    let mut k: usize = 0;
    assert(anchor_models(out@) =~= wanted.take(0));
    while k < order.len()
        invariant
            k <= order.len(),
            models == anchor_row_models(rows@),
            mine == found@.map_values(|p: usize| models[p as int]),
            mine == anchors_of(models, lid@),
            wanted == shown_anchors(models, lid@),
            order.len() == found.len(),
            wanted.len() == found.len(),
            positions(order@) == ascending(anchor_ids(mine)),
            forall|j: int| 0 <= j < found.len() ==> (#[trigger] found@[j]) < rows.len(),
            forall|j: int|
                0 <= j < mine.len() ==> 0 <= #[trigger] ascending(anchor_ids(mine))[j]
                    < mine.len(),
            anchor_models(out@) == wanted.take(k as int),
        decreases order.len() - k,
    {
        assert(ascending(anchor_ids(mine))[k as int] == order@[k as int]);
        let at = found[order[k]];
        let row = &rows[at];
        let ghost before = out@;
        assert(mine[order@[k as int] as int] == row@);
        assert(wanted[k as int] == shown(row@));
        out.push(
            Anchor {
                kind: row.kind.clone(),
                reference: row.reference.clone(),
                status: row.status.clone(),
                created_at: row.created_at.clone(),
                confirmed_at: copy_option(&row.confirmed_at),
            },
        );
        assert(anchor_models(out@) =~= anchor_models(before).push(shown(row@)));
        assert(wanted.take(k + 1) =~= wanted.take(k as int).push(wanted[k as int]));
        k = k + 1;
    }
    assert(wanted.take(k as int) =~= wanted);
    out
}

/// Whether an anchor of that kind still waits for its confirmation.
pub open spec fn is_pending(row: AnchorRowModel, kind: Seq<char>) -> bool {
    row.kind == kind && row.status == "pending"@
}

/// The number, work, head and reference of the anchors of that kind that still wait.
pub open spec fn pending_of(rows: Seq<AnchorRowModel>, kind: Seq<char>) -> Seq<
    (int, Seq<char>, Seq<char>, Seq<char>),
>
    decreases rows.len(),
{
    if rows.len() == 0 {
        seq![]
    } else {
        let row = rows.last();
        let before = pending_of(rows.drop_last(), kind);
        if is_pending(row, kind) {
            before.push((row.id, row.lid, row.head_id, row.reference))
        } else {
            before
        }
    }
}

/// What a list of waiting anchors stands for.
pub open spec fn pending_models(pending: Seq<(i64, String, String, String)>) -> Seq<
    (int, Seq<char>, Seq<char>, Seq<char>),
> {
    Seq::new(
        pending.len(),
        |i: int| (pending[i].0 as int, pending[i].1@, pending[i].2@, pending[i].3@),
    )
}

/// (number, work, head, reference) of the anchors of a kind that still wait.
pub fn pending_anchors(rows: &[AnchorRow], kind: &str) -> (r: Vec<(i64, String, String, String)>)
    ensures
        pending_models(r@) == pending_of(anchor_row_models(rows@), kind@),
{
    let ghost models = anchor_row_models(rows@);
    let mut out: Vec<(i64, String, String, String)> = Vec::new();
    let mut i: usize = 0;
    assert(pending_models(out@) =~= pending_of(models.take(0), kind@));
    while i < rows.len()
        invariant
            i <= rows.len(),
            models == anchor_row_models(rows@),
            pending_models(out@) == pending_of(models.take(i as int), kind@),
        decreases rows.len() - i,
    {
        let row = &rows[i];
        assert(models.take(i + 1).drop_last() =~= models.take(i as int));
        assert(models.take(i + 1).last() == row@);
        if same_text(row.kind.as_str(), kind) && same_text(row.status.as_str(), "pending") {
            let ghost before = out@;
            out.push((row.id, row.lid.clone(), row.head_id.clone(), row.reference.clone()));
            assert(pending_models(out@) =~= pending_models(before).push(
                (row.id as int, row.lid@, row.head_id@, row.reference@),
            ));
        }
        i = i + 1;
    }
    assert(models.take(i as int) =~= models);
    out
}

/// A row after its anchor was confirmed.
pub open spec fn confirmed(row: AnchorRowModel, reference: Seq<char>, now: Seq<char>) -> AnchorRowModel {
    AnchorRowModel { status: "confirmed"@, reference, confirmed_at: Some(now), ..row }
}

/// Marks an anchor as confirmed, with what confirms it and when.
pub fn confirm_anchor(row: AnchorRow, reference: &str, now: &str) -> (r: AnchorRow)
    ensures
        r@ == confirmed(row@, reference@, now@),
{
    AnchorRow {
        id: row.id,
        lid: row.lid,
        head_id: row.head_id,
        kind: row.kind,
        reference: reference.to_owned(),
        status: "confirmed".to_owned(),
        created_at: row.created_at,
        confirmed_at: Some(now.to_owned()),
    }
}

// ── content-addressed files ──────────────────────────

/// The hash of a document: `sha256:` and the digest in hexadecimal.
pub open spec fn content_hash(bytes: Seq<u8>) -> Seq<char> {
    "sha256:"@ + hex_text(sha256_digest(bytes))
}

/// A hash without the `sha256:` that it may begin with.
pub open spec fn bare_hash(hash: Seq<char>) -> Seq<char> {
    if "sha256:"@.is_prefix_of(hash) {
        hash.skip("sha256:"@.len() as int)
    } else {
        hash
    }
}

/// The directory of the content-addressed files.
pub open spec fn cas_dir_path(data_dir: Seq<char>) -> Seq<char> {
    joined_path(data_dir, "cas"@)
}

/// Whether a text is 64 hexadecimal digits.
pub open spec fn is_digest_text(hex: Seq<char>) -> bool {
    &&& hex.len() == 64
    &&& forall|i: int| 0 <= i < hex.len() ==> is_hex_digit(#[trigger] hex[i])
}

/// The file that the document with that hash is kept in, if it is the hash of one.
pub open spec fn cas_file(data_dir: Seq<char>, hash: Seq<char>) -> Option<Seq<char>> {
    if is_digest_text(bare_hash(hash)) {
        Some(joined_path(cas_dir_path(data_dir), bare_hash(hash)))
    } else {
        None
    }
}

/// Where a document is to be kept.
#[derive(Debug)]
pub struct CasEntry {
    /// `sha256:<hex>`.
    pub hash: String,
    pub dir: String,
    /// The file in `dir` that is to hold the bytes.
    pub path: String,
}

/// The directory of the content-addressed files.
pub fn cas_dir(data_dir: &str) -> (r: String)
    ensures
        r@ == cas_dir_path(data_dir@),
{
    join_path(data_dir, "cas")
}

/// SHA-256 of raw bytes as 64 hexadecimal digits, without a prefix.
pub fn sha256_hex_raw(bytes: &[u8]) -> (r: String)
    ensures
        r@ == hex_text(sha256_digest(bytes@)),
        is_digest_text(r@),
{
    let digest = sha256(bytes);
    proof {
        crate::outside::law_hex_round_trip(digest@);
    }
    hex_encode(digest.as_slice())
}

/// A hash without the `sha256:` that it may begin with.
pub fn bare(hash: &str) -> (r: &str)
    ensures
        r@ == bare_hash(hash@),
{
    match strip_prefix(hash, "sha256:") {
        Some(rest) => {
            assert("sha256:"@.is_prefix_of("sha256:"@ + rest@));
            assert(("sha256:"@ + rest@).skip("sha256:"@.len() as int) =~= rest@);
            rest
        },
        None => hash,
    }
}

/// The hash under which bytes are kept, and the file that keeps them. What is put there
/// is found again under the returned hash.
pub fn cas_put(data_dir: &str, bytes: &[u8]) -> (r: CasEntry)
    ensures
        r.hash@ == content_hash(bytes@),
        r.dir@ == cas_dir_path(data_dir@),
        r.path@ == joined_path(r.dir@, hex_text(sha256_digest(bytes@))),
        cas_file(data_dir@, r.hash@) == Some(r.path@),
{
    let hex = sha256_hex_raw(bytes);
    let dir = cas_dir(data_dir);
    let path = join_path(dir.as_str(), hex.as_str());
    assert("sha256:"@.is_prefix_of("sha256:"@ + hex@));
    assert(("sha256:"@ + hex@).skip("sha256:"@.len() as int) =~= hex@);
    CasEntry { hash: join2("sha256:", hex.as_str()), dir, path }
}

/// Whether bytes still have to be written into their file, which holds `existing`: unless
/// the very same bytes are there. The file then holds the bytes in either case.
pub fn cas_must_write(existing: &Option<Vec<u8>>, bytes: &[u8]) -> (r: bool)
    ensures
        r == !(existing matches Some(there) && there@ == bytes@),
{
    match existing {
        Some(there) => {
            if there.len() != bytes.len() {
                return true;
            }
            let mut i: usize = 0;
            while i < bytes.len()
                invariant
                    i <= bytes.len(),
                    there@.len() == bytes@.len(),
                    existing matches Some(held) && held@ == there@,
                    forall|j: int| 0 <= j < i ==> there@[j] == bytes@[j],
                decreases bytes.len() - i,
            {
                if there[i] != bytes[i] {
                    return true;
                }
                i = i + 1;
            }
            assert(there@ =~= bytes@);
            false
        },
        None => true,
    }
}

/// The file that holds the document with that hash, with or without its `sha256:`;
/// `None` for a text that is no hash.
pub fn cas_get(data_dir: &str, hash: &str) -> (r: Option<String>)
    ensures
        match r {
            Some(path) => cas_file(data_dir@, hash@) == Some(path@),
            None => cas_file(data_dir@, hash@) is None,
        },
{
    let hex = bare(hash);
    if hex.unicode_len() != 64 {
        return None;
    }
    let mut all: bool = true;
    for c in it: hex.chars()
        invariant
            it.seq() == hex@,
            all == (forall|j: int| 0 <= j < it.index() ==> is_hex_digit(#[trigger] hex@[j])),
    {
        all = all && (('0' <= c && c <= '9') || ('a' <= c && c <= 'f') || ('A' <= c && c <= 'F'));
    }
    if !all {
        return None;
    }
    let dir = cas_dir(data_dir);
    Some(join_path(dir.as_str(), hex))
}

} // verus!
