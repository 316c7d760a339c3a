//! Document ledger: append-only, content-addressed, signed.
//!
//! Each document version is one `Envelope`; `prev` chains every envelope to the one
//! before it, so the newest id commits to the whole history. `verify_chain` judges a
//! chain by what was derived from its records alone.
//!
//! Canonical JSON, the digest of it and the signature are computed outside of this
//! module: `append` asks for them one after the other, and `verify_chain` is handed
//! them beside each record.

use crate::json::{Json, JsonModel};
use crate::text::{
    chars_of, copy_option, debug_option, join2, join3, same_option, same_text, shown_option,
};
use vstd::prelude::*;

verus! {

pub const PACT_VERSION: &'static str = "0.1";

pub const ERA: &'static str = "akashi/2026";

/// Who wrote an envelope, and the public key that its signature is checked with.
#[derive(Debug)]
pub struct Actor {
    pub kind: String,
    pub id: String,
    pub key: String,
    pub model: Option<String>,
}

/// One record of a ledger.
#[derive(Debug)]
pub struct Envelope {
    pub pact: String,
    pub cid: String,
    pub id: String,
    pub prev: Option<String>,
    pub kind: String,
    pub ledger: String,
    pub ts: String,
    pub era: String,
    pub actor: Actor,
    pub payload: Json,
    pub sig: String,
}

/// What an actor stands for.
pub struct ActorModel {
    pub kind: Seq<char>,
    pub id: Seq<char>,
    pub key: Seq<char>,
    pub model: Option<Seq<char>>,
}

/// What an envelope stands for.
pub struct EnvelopeModel {
    pub pact: Seq<char>,
    pub cid: Seq<char>,
    pub id: Seq<char>,
    pub prev: Option<Seq<char>>,
    pub kind: Seq<char>,
    pub ledger: Seq<char>,
    pub ts: Seq<char>,
    pub era: Seq<char>,
    pub actor: ActorModel,
    pub payload: JsonModel,
    pub sig: Seq<char>,
}

impl View for Actor {
    type V = ActorModel;

    open spec fn view(&self) -> ActorModel {
        ActorModel {
            kind: self.kind@,
            id: self.id@,
            key: self.key@,
            model: chars_of(self.model),
        }
    }
}

impl View for Envelope {
    type V = EnvelopeModel;

    open spec fn view(&self) -> EnvelopeModel {
        EnvelopeModel {
            pact: self.pact@,
            cid: self.cid@,
            id: self.id@,
            prev: chars_of(self.prev),
            kind: self.kind@,
            ledger: self.ledger@,
            ts: self.ts@,
            era: self.era@,
            actor: self.actor@,
            payload: self.payload@,
            sig: self.sig@,
        }
    }
}

impl Clone for Actor {
    fn clone(&self) -> (r: Actor)
        ensures
            r@ == self@,
    {
        Actor {
            kind: self.kind.clone(),
            id: self.id.clone(),
            key: self.key.clone(),
            model: copy_option(&self.model),
        }
    }
}

impl Clone for Envelope {
    fn clone(&self) -> (r: Envelope)
        ensures
            r@ == self@,
    {
        Envelope {
            pact: self.pact.clone(),
            cid: self.cid.clone(),
            id: self.id.clone(),
            prev: copy_option(&self.prev),
            kind: self.kind.clone(),
            ledger: self.ledger.clone(),
            ts: self.ts.clone(),
            era: self.era.clone(),
            actor: self.actor.clone(),
            payload: self.payload.clone(),
            sig: self.sig.clone(),
        }
    }
}

// ── appending ────────────────────────────────────────

/// An envelope on its way to the end of a chain. Each stage but the last waits for one
/// text that is computed from the envelope as it stands.
#[derive(Debug)]
pub enum Appending {
    /// Waits for the digest of the canonical payload, which becomes `cid`.
    Payload(Envelope),
    /// Waits for the digest of the canonical core, which becomes `id`.
    Core(Envelope),
    /// Waits for the signature of the bytes of `id`, which becomes `sig`.
    Signature(Envelope),
    /// Complete.
    Sealed(Envelope),
}

/// What an envelope on its way stands for.
pub enum AppendingModel {
    Payload(EnvelopeModel),
    Core(EnvelopeModel),
    Signature(EnvelopeModel),
    Sealed(EnvelopeModel),
}

impl View for Appending {
    type V = AppendingModel;

    open spec fn view(&self) -> AppendingModel {
        match self {
            Appending::Payload(env) => AppendingModel::Payload(env@),
            Appending::Core(env) => AppendingModel::Core(env@),
            Appending::Signature(env) => AppendingModel::Signature(env@),
            Appending::Sealed(env) => AppendingModel::Sealed(env@),
        }
    }
}

/// A new envelope without content id, id and signature.
pub open spec fn blank_envelope(
    lid: Seq<char>,
    prev: Option<Seq<char>>,
    kind: Seq<char>,
    payload: JsonModel,
    ts: Seq<char>,
    actor: ActorModel,
) -> EnvelopeModel {
    EnvelopeModel {
        pact: PACT_VERSION@,
        cid: Seq::empty(),
        id: Seq::empty(),
        prev,
        kind,
        ledger: lid,
        ts,
        era: ERA@,
        actor,
        payload,
        sig: Seq::empty(),
    }
}

impl AppendingModel {
    /// The next stage, once the awaited text has come.
    pub open spec fn resumed(self, answer: Seq<char>) -> AppendingModel {
        match self {
            AppendingModel::Payload(env) => AppendingModel::Core(
                EnvelopeModel { cid: answer, ..env },
            ),
            AppendingModel::Core(env) => AppendingModel::Signature(
                EnvelopeModel { id: answer, ..env },
            ),
            AppendingModel::Signature(env) => AppendingModel::Sealed(
                EnvelopeModel { sig: answer, ..env },
            ),
            AppendingModel::Sealed(env) => AppendingModel::Sealed(env),
        }
    }
}

/// Begins to append an envelope to a work's chain. `prev` is the id of the current
/// head, `None` for the first record.
pub fn append(
    lid: &str,
    prev: Option<String>,
    kind: &str,
    payload: Json,
    ts: &str,
    actor: Actor,
) -> (r: Appending)
    ensures
        r@ == AppendingModel::Payload(
            blank_envelope(lid@, chars_of(prev), kind@, payload@, ts@, actor@),
        ),
{
    Appending::Payload(
        Envelope {
            pact: PACT_VERSION.to_owned(),
            cid: String::new(),
            id: String::new(),
            prev,
            kind: kind.to_owned(),
            ledger: lid.to_owned(),
            ts: ts.to_owned(),
            era: ERA.to_owned(),
            actor,
            payload,
            sig: String::new(),
        },
    )
}

impl Appending {
    /// Takes the text that this stage waits for. A sealed envelope waits for none and
    /// stays as it is.
    pub fn resume(self, answer: String) -> (r: Appending)
        ensures
            r@ == self@.resumed(answer@),
    {
        match self {
            Appending::Payload(mut env) => {
                env.cid = answer;
                Appending::Core(env)
            },
            Appending::Core(mut env) => {
                env.id = answer;
                Appending::Signature(env)
            },
            Appending::Signature(mut env) => {
                env.sig = answer;
                Appending::Sealed(env)
            },
            Appending::Sealed(env) => Appending::Sealed(env),
        }
    }
}

/// The actor of a work: the work itself, with the public key that its signatures are
/// checked with.
pub open spec fn human_actor_model(lid: Seq<char>, key: Seq<char>) -> ActorModel {
    ActorModel { kind: "human"@, id: "urn:akashi:work:"@ + lid, key, model: None }
}

/// The human actor of a work, with its public key in hexadecimal.
pub fn human_actor(lid: &str, pubkey_hex: &str) -> (r: Actor)
    ensures
        r@ == human_actor_model(lid@, pubkey_hex@),
{
    Actor {
        kind: "human".to_owned(),
        id: join2("urn:akashi:work:", lid),
        key: pubkey_hex.to_owned(),
        model: None,
    }
}

// ── verifying ────────────────────────────────────────

/// A record, and beside it what was derived from it anew: the digest of its canonical
/// payload, the digest of its canonical core, and whether its signature verifies
/// against the key that it names.
#[derive(Debug)]
pub struct Examined {
    pub env: Envelope,
    pub cid: String,
    pub id: String,
    pub sig_ok: bool,
}

/// What an examined record stands for.
pub struct ExaminedModel {
    pub env: EnvelopeModel,
    pub cid: Seq<char>,
    pub id: Seq<char>,
    pub sig_ok: bool,
}

impl View for Examined {
    type V = ExaminedModel;

    open spec fn view(&self) -> ExaminedModel {
        ExaminedModel { env: self.env@, cid: self.cid@, id: self.id@, sig_ok: self.sig_ok }
    }
}

/// The outcome of a verification.
#[derive(Debug)]
pub struct ChainReport {
    pub records: usize,
    pub ok: bool,
    pub errors: Vec<ChainError>,
}

/// One flaw: the position and the id of the record, and what is wrong with it.
#[derive(Debug)]
pub struct ChainError {
    pub index: usize,
    pub id: String,
    pub message: String,
}

impl Default for ChainReport {
    /// A report on nothing: no record, not sound, no flaw.
    fn default() -> (r: ChainReport)
        ensures
            r.records == 0,
            !r.ok,
            r.errors@.len() == 0,
    {
        ChainReport { records: 0, ok: false, errors: Vec::new() }
    }
}

/// What a flaw stands for.
pub struct ChainErrorModel {
    pub index: int,
    pub id: Seq<char>,
    pub message: Seq<char>,
}

impl View for ChainError {
    type V = ChainErrorModel;

    open spec fn view(&self) -> ChainErrorModel {
        ChainErrorModel { index: self.index as int, id: self.id@, message: self.message@ }
    }
}

/// What a sequence of examined records stands for.
pub open spec fn examined_models(records: Seq<Examined>) -> Seq<ExaminedModel> {
    Seq::new(records.len(), |i: int| records[i]@)
}

/// What a sequence of flaws stands for.
pub open spec fn error_models(errors: Seq<ChainError>) -> Seq<ChainErrorModel> {
    Seq::new(errors.len(), |i: int| errors[i]@)
}

/// The id of the last record, `None` in an empty chain.
pub open spec fn head_id(records: Seq<ExaminedModel>) -> Option<Seq<char>> {
    if records.len() == 0 {
        None
    } else {
        Some(records.last().env.id)
    }
}

pub open spec fn cid_message(cid: Seq<char>) -> Seq<char> {
    "cid mismatch: payload was altered (got "@ + cid + ")"@
}

pub open spec fn link_message(prev: Option<Seq<char>>, expected: Option<Seq<char>>) -> Seq<char> {
    "broken chain: prev="@ + shown_option(prev) + " expected="@ + shown_option(expected)
}

pub open spec fn id_message(id: Seq<char>) -> Seq<char> {
    "id mismatch: core was altered (got "@ + id + ")"@
}

pub open spec fn signature_message() -> Seq<char> {
    "signature does not verify"@
}

/// The messages on one record, in the order of the checks, where `expected` is the id
/// of the record before it.
pub open spec fn record_messages(record: ExaminedModel, expected: Option<Seq<char>>) -> Seq<
    Seq<char>,
> {
    let s0 = Seq::<Seq<char>>::empty();
    let s1 = if record.cid == record.env.cid {
        s0
    } else {
        s0.push(cid_message(record.cid))
    };
    let s2 = if record.env.prev == expected {
        s1
    } else {
        s1.push(link_message(record.env.prev, expected))
    };
    let s3 = if record.id == record.env.id {
        s2
    } else {
        s2.push(id_message(record.id))
    };
    if record.sig_ok {
        s3
    } else {
        s3.push(signature_message())
    }
}

/// The flaws of the record at position `i`.
pub open spec fn record_errors(
    i: int,
    record: ExaminedModel,
    expected: Option<Seq<char>>,
) -> Seq<ChainErrorModel> {
    record_messages(record, expected).map_values(
        |message: Seq<char>| ChainErrorModel { index: i, id: record.env.id, message },
    )
}

/// The flaws of a chain, record by record.
pub open spec fn chain_errors(records: Seq<ExaminedModel>) -> Seq<ChainErrorModel>
    decreases records.len(),
{
    if records.len() == 0 {
        seq![]
    } else {
        let before = records.drop_last();
        chain_errors(before) + record_errors(
            records.len() - 1,
            records.last(),
            head_id(before),
        )
    }
}

/// Whether the record at position `i` is sound: content id, chain link, id and
/// signature are what they have to be.
pub open spec fn record_intact(records: Seq<ExaminedModel>, i: int) -> bool {
    let record = records[i];
    &&& record.env.cid == record.cid
    &&& record.env.prev == (if i == 0 {
        None
    } else {
        Some(records[i - 1].env.id)
    })
    &&& record.env.id == record.id
    &&& record.sig_ok
}

/// Whether every record of a chain is sound.
pub open spec fn chain_intact(records: Seq<ExaminedModel>) -> bool {
    forall|i: int| 0 <= i < records.len() ==> #[trigger] record_intact(records, i)
}

/// A chain has no flaw exactly when every record of it is sound.
pub proof fn law_no_error_iff_intact(records: Seq<ExaminedModel>)
    ensures
        chain_errors(records).len() == 0 <==> chain_intact(records),
    decreases records.len(),
{
    if records.len() > 0 {
        let before = records.drop_last();
        let n = records.len() - 1;
        law_no_error_iff_intact(before);
        assert forall|i: int| 0 <= i < n implies record_intact(before, i) == #[trigger] record_intact(
            records,
            i,
        ) by {}
        if chain_intact(records) {
            assert(record_intact(records, n));
            assert forall|i: int| 0 <= i < before.len() implies #[trigger] record_intact(
                before,
                i,
            ) by {
                assert(record_intact(records, i));
            }
        }
        if chain_errors(records).len() == 0 {
            assert forall|i: int| 0 <= i < records.len() implies #[trigger] record_intact(
                records,
                i,
            ) by {
                if i < n {
                    assert(record_intact(before, i));
                }
            }
        }
    }
}

/// Puts one flaw into a report.
fn note(errors: &mut Vec<ChainError>, index: usize, id: &str, message: String)
    ensures
        error_models(final(errors)@) == error_models(old(errors)@).push(
            ChainErrorModel { index: index as int, id: id@, message: message@ },
        ),
{
    errors.push(ChainError { index, id: id.to_owned(), message });
    assert(error_models(errors@) =~= error_models(old(errors)@).push(
        ChainErrorModel { index: index as int, id: id@, message: message@ },
    ));
}

/// Checks one record and reports its flaws.
fn check_record(record: &Examined, index: usize, expected: &Option<String>, errors: &mut Vec<ChainError>)
    ensures
        error_models(final(errors)@) == error_models(old(errors)@) + record_errors(
            index as int,
            record@,
            chars_of(*expected),
        ),
{
    let env = &record.env;
    let ghost f = |message: Seq<char>| ChainErrorModel { index: index as int, id: env.id@, message };
    let ghost base = error_models(errors@);
    let ghost mut said: Seq<Seq<char>> = seq![];
    assert(base + said.map_values(f) =~= base);
    if !same_text(record.cid.as_str(), env.cid.as_str()) {
        note(
            errors,
            index,
            env.id.as_str(),
            join3("cid mismatch: payload was altered (got ", record.cid.as_str(), ")"),
        );
        proof {
            let next = said.push(cid_message(record.cid@));
            assert(base + next.map_values(f) =~= (base + said.map_values(f)).push(f(next.last())));
            said = next;
        }
    }
    if !same_option(&env.prev, expected) {
        let head = join2("broken chain: prev=", debug_option(&env.prev).as_str());
        note(
            errors,
            index,
            env.id.as_str(),
            join3(head.as_str(), " expected=", debug_option(expected).as_str()),
        );
        proof {
            let next = said.push(link_message(chars_of(env.prev), chars_of(*expected)));
            assert(base + next.map_values(f) =~= (base + said.map_values(f)).push(f(next.last())));
            said = next;
        }
    }
    if !same_text(record.id.as_str(), env.id.as_str()) {
        note(
            errors,
            index,
            env.id.as_str(),
            join3("id mismatch: core was altered (got ", record.id.as_str(), ")"),
        );
        proof {
            let next = said.push(id_message(record.id@));
            assert(base + next.map_values(f) =~= (base + said.map_values(f)).push(f(next.last())));
            said = next;
        }
    }
    if !record.sig_ok {
        note(errors, index, env.id.as_str(), "signature does not verify".to_owned());
        proof {
            let next = said.push(signature_message());
            assert(base + next.map_values(f) =~= (base + said.map_values(f)).push(f(next.last())));
            said = next;
        }
    }
    assert(said == record_messages(record@, chars_of(*expected)));
    assert(said.map_values(f) =~= record_errors(index as int, record@, chars_of(*expected)));
}

/// Judges a chain by what was derived from its records. Catches an altered payload, a
/// broken chain link, an altered core and a signature that does not verify.
pub fn verify_chain(records: &[Examined]) -> (r: ChainReport)
    ensures
        r.records == records@.len(),
        r.ok == chain_intact(examined_models(records@)),
        error_models(r.errors@) == chain_errors(examined_models(records@)),
{
    let mut errors: Vec<ChainError> = Vec::new();
    let mut expected: Option<String> = None;
    let ghost models = examined_models(records@);
    let mut i: usize = 0;
    assert(error_models(errors@) =~= chain_errors(models.take(0)));
    while i < records.len()
        invariant
            i <= records.len(),
            models == examined_models(records@),
            error_models(errors@) == chain_errors(models.take(i as int)),
            chars_of(expected) == head_id(models.take(i as int)),
        decreases records.len() - i,
    {
        let record = &records[i];
        check_record(record, i, &expected, &mut errors);
        expected = Some(record.env.id.clone());
        assert(models.take(i + 1).drop_last() =~= models.take(i as int));
        assert(models.take(i + 1).last() == record@);
        i = i + 1;
    }
    assert(models.take(i as int) =~= models);
    proof {
        law_no_error_iff_intact(models);
    }
    ChainReport { records: records.len(), ok: errors.len() == 0, errors }
}

} // verus!
