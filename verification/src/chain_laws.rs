//! What holds of every chain: what appending keeps, what verification finds, and what
//! the head of a chain commits to.

use crate::ledger::{
    blank_envelope, chain_errors, chain_intact, cid_message, head_id, human_actor_model, id_message,
    law_no_error_iff_intact, link_message, record_errors, record_intact, record_messages, signature_message, ActorModel, AppendingModel,
    ChainErrorModel, EnvelopeModel, ExaminedModel,
};
use crate::json::JsonModel;
use crate::text::shown_option;
use vstd::prelude::*;

verus! {

/// Three answers seal an envelope, and it then carries everything that it was begun
/// with and the three answers, nothing else.
pub proof fn law_three_answers_seal(
    lid: Seq<char>,
    prev: Option<Seq<char>>,
    kind: Seq<char>,
    payload: JsonModel,
    ts: Seq<char>,
    actor: ActorModel,
    cid: Seq<char>,
    id: Seq<char>,
    sig: Seq<char>,
)
    ensures
        AppendingModel::Payload(blank_envelope(lid, prev, kind, payload, ts, actor)).resumed(
            cid,
        ).resumed(id).resumed(sig) == AppendingModel::Sealed(
            EnvelopeModel {
                cid,
                id,
                sig,
                ..blank_envelope(lid, prev, kind, payload, ts, actor)
            },
        ),
{
}

/// An intact chain stays intact when an envelope is appended whose `prev` is the head
/// of the chain, whose content id and id are the digests that are derived from it
/// again, and whose signature verifies.
pub proof fn law_append_keeps_intact(records: Seq<ExaminedModel>, record: ExaminedModel)
    requires
        chain_intact(records),
        record.env.prev == head_id(records),
        record.env.cid == record.cid,
        record.env.id == record.id,
        record.sig_ok,
    ensures
        chain_intact(records.push(record)),
        head_id(records.push(record)) == Some(record.env.id),
{
    let all = records.push(record);
    assert forall|i: int| 0 <= i < all.len() implies #[trigger] record_intact(all, i) by {
        if i < records.len() {
            assert(record_intact(records, i));
        }
    }
}

/// The beginning of an intact chain is intact: no later record changes how an earlier
/// one is judged.
pub proof fn law_prefix_intact(records: Seq<ExaminedModel>, n: int)
    requires
        chain_intact(records),
        0 <= n <= records.len(),
    ensures
        chain_intact(records.take(n)),
{
    assert forall|i: int| 0 <= i < n implies #[trigger] record_intact(records.take(n), i) by {
        assert(record_intact(records, i));
    }
}

/// The flaws of the record at position `i` stand in the report of the whole chain.
proof fn lemma_errors_contain(records: Seq<ExaminedModel>, i: int, error: ChainErrorModel)
    requires
        0 <= i < records.len(),
        record_errors(i, records[i], head_id(records.take(i))).contains(error),
    ensures
        chain_errors(records).contains(error),
    decreases records.len(),
{
    let before = records.drop_last();
    let n = records.len() - 1;
    let a = chain_errors(before);
    let b = record_errors(n, records.last(), head_id(before));
    if i == n {
        assert(records.take(i) =~= before);
        let k = choose|k: int| 0 <= k < b.len() && b[k] == error;
        assert((a + b)[a.len() + k] == error);
    } else {
        assert(before.take(i) =~= records.take(i));
        lemma_errors_contain(before, i, error);
        let k = choose|k: int| 0 <= k < a.len() && a[k] == error;
        assert((a + b)[k] == error);
    }
}

/// Verification names every flaw: an altered payload, a broken link, an altered core
/// and a signature that does not verify each have their own entry in the report, with
/// the position and the id of the record.
pub proof fn law_every_flaw_is_reported(records: Seq<ExaminedModel>, i: int)
    requires
        0 <= i < records.len(),
    ensures
        records[i].cid != records[i].env.cid ==> chain_errors(records).contains(
            ChainErrorModel {
                index: i,
                id: records[i].env.id,
                message: cid_message(records[i].cid),
            },
        ),
        records[i].env.prev != head_id(records.take(i)) ==> chain_errors(records).contains(
            ChainErrorModel {
                index: i,
                id: records[i].env.id,
                message: link_message(records[i].env.prev, head_id(records.take(i))),
            },
        ),
        records[i].id != records[i].env.id ==> chain_errors(records).contains(
            ChainErrorModel { index: i, id: records[i].env.id, message: id_message(records[i].id) },
        ),
        !records[i].sig_ok ==> chain_errors(records).contains(
            ChainErrorModel { index: i, id: records[i].env.id, message: signature_message() },
        ),
{
    let r = records[i];
    let expected = head_id(records.take(i));
    let said = record_messages(r, expected);
    let listed = record_errors(i, r, expected);
    let n0: int = 0;
    let n1: int = if r.cid == r.env.cid { n0 } else { n0 + 1 };
    let n2: int = if r.env.prev == expected { n1 } else { n1 + 1 };
    let n3: int = if r.id == r.env.id { n2 } else { n2 + 1 };
    let error = |message: Seq<char>| ChainErrorModel { index: i, id: r.env.id, message };
    if r.cid != r.env.cid {
        assert(said[n0] == cid_message(r.cid));
        assert(listed[n0] == error(cid_message(r.cid)));
        lemma_errors_contain(records, i, error(cid_message(r.cid)));
    }
    if r.env.prev != expected {
        assert(said[n1] == link_message(r.env.prev, expected));
        assert(listed[n1] == error(link_message(r.env.prev, expected)));
        lemma_errors_contain(records, i, error(link_message(r.env.prev, expected)));
    }
    if r.id != r.env.id {
        assert(said[n2] == id_message(r.id));
        assert(listed[n2] == error(id_message(r.id)));
        lemma_errors_contain(records, i, error(id_message(r.id)));
    }
    if !r.sig_ok {
        assert(said[n3] == signature_message());
        assert(listed[n3] == error(signature_message()));
        lemma_errors_contain(records, i, error(signature_message()));
    }
}

/// How a digest is derived from an envelope: the canonical text of a payload, the
/// canonical text of an envelope's core, and the digest of a text.
pub struct Derivation {
    pub payload_text: spec_fn(JsonModel) -> Seq<char>,
    pub core_text: spec_fn(EnvelopeModel) -> Seq<char>,
    pub digest: spec_fn(Seq<char>) -> Seq<char>,
}

impl Derivation {
    /// Whether the digests beside every record were derived in this way.
    pub open spec fn examined(self, records: Seq<ExaminedModel>) -> bool {
        forall|i: int|
            0 <= i < records.len() ==> {
                &&& (#[trigger] records[i]).cid == (self.digest)(
                    (self.payload_text)(records[i].env.payload),
                )
                &&& records[i].id == (self.digest)((self.core_text)(records[i].env))
            }
    }

    /// Whether the core of an envelope shows its link, content id, actor and time.
    pub open spec fn core_binds(self) -> bool {
        forall|a: EnvelopeModel, b: EnvelopeModel|
            #![trigger (self.core_text)(a), (self.core_text)(b)]
            (self.core_text)(a) == (self.core_text)(b) ==> {
                &&& a.prev == b.prev
                &&& a.cid == b.cid
                &&& a.actor == b.actor
                &&& a.ts == b.ts
            }
    }

    /// Whether no two different texts taken from the two chains have the same digest.
    pub open spec fn no_collision(self, a: Seq<ExaminedModel>, b: Seq<ExaminedModel>) -> bool {
        &&& forall|i: int, j: int|
            0 <= i < a.len() && 0 <= j < b.len() && (self.digest)(
                (self.core_text)((#[trigger] a[i]).env),
            ) == (self.digest)((self.core_text)((#[trigger] b[j]).env)) ==> (self.core_text)(
                a[i].env,
            ) == (self.core_text)(b[j].env)
        &&& forall|i: int, j: int|
            0 <= i < a.len() && 0 <= j < b.len() && (self.digest)(
                (self.payload_text)((#[trigger] a[i]).env.payload),
            ) == (self.digest)((self.payload_text)((#[trigger] b[j]).env.payload)) ==> (
            self.payload_text)(a[i].env.payload) == (self.payload_text)(b[j].env.payload)
    }

    /// Whether two envelopes agree in all that an id commits to.
    pub open spec fn same_content(self, a: EnvelopeModel, b: EnvelopeModel) -> bool {
        &&& a.id == b.id
        &&& a.prev == b.prev
        &&& a.cid == b.cid
        &&& a.actor == b.actor
        &&& a.ts == b.ts
        &&& (self.payload_text)(a.payload) == (self.payload_text)(b.payload)
    }
}

/// The id of the head commits to the whole history: two intact chains with the same
/// head are equally long and agree record by record, unless two different texts in
/// them have the same digest.
pub proof fn law_head_commits_to_history(
    a: Seq<ExaminedModel>,
    b: Seq<ExaminedModel>,
    by: Derivation,
)
    requires
        chain_intact(a),
        chain_intact(b),
        head_id(a) == head_id(b),
        by.examined(a),
        by.examined(b),
        by.core_binds(),
        by.no_collision(a, b),
    ensures
        a.len() == b.len(),
        forall|i: int| 0 <= i < a.len() ==> by.same_content((#[trigger] a[i]).env, b[i].env),
    decreases a.len(),
{
    if a.len() > 0 && b.len() > 0 {
        let n = a.len() - 1;
        let m = b.len() - 1;
        assert(record_intact(a, n) && record_intact(b, m));
        assert(a[n].id == (by.digest)((by.core_text)(a[n].env)));
        assert(b[m].id == (by.digest)((by.core_text)(b[m].env)));
        assert((by.core_text)(a[n].env) == (by.core_text)(b[m].env));
        assert(by.same_content(a[n].env, b[m].env));
        law_prefix_intact(a, n);
        law_prefix_intact(b, m);
        let a1 = a.take(n);
        let b1 = b.take(m);
        assert(by.no_collision(a1, b1));
        assert(head_id(a1) == a[n].env.prev);
        assert(head_id(b1) == b[m].env.prev);
        law_head_commits_to_history(a1, b1, by);
        assert forall|i: int| 0 <= i < a.len() implies by.same_content(
            (#[trigger] a[i]).env,
            b[i].env,
        ) by {
            if i < n {
                assert(by.same_content(a1[i].env, b1[i].env));
            }
        }
    }
}

/// How an id is signed, and how a signature is checked against a key.
pub struct Signing {
    pub sign: spec_fn(Seq<char>) -> Seq<char>,
    pub verifies: spec_fn(Seq<char>, Seq<char>, Seq<char>) -> bool,
}

impl Derivation {
    /// Whether the core of an envelope leaves out its id and its signature, which are
    /// made from it.
    pub open spec fn core_omits_seal(self) -> bool {
        forall|env: EnvelopeModel, id: Seq<char>, sig: Seq<char>|
            (self.core_text)(#[trigger] with_seal(env, id, sig)) == (self.core_text)(env)
    }

    /// An envelope, and beside it what is derived from it anew.
    pub open spec fn examine(self, signing: Signing, env: EnvelopeModel) -> ExaminedModel {
        ExaminedModel {
            env,
            cid: (self.digest)((self.payload_text)(env.payload)),
            id: (self.digest)((self.core_text)(env)),
            sig_ok: (signing.verifies)(env.actor.key, env.id, env.sig),
        }
    }
}

/// The envelope with another id and signature.
pub open spec fn with_seal(env: EnvelopeModel, id: Seq<char>, sig: Seq<char>) -> EnvelopeModel {
    EnvelopeModel { id, sig, ..env }
}

/// An envelope that is begun on the head of an intact chain, and sealed with the digests
/// of its payload and core and with a signature that its actor's key verifies, keeps
/// the chain intact once everything is derived from it anew.
pub proof fn law_sealed_record_verifies(
    records: Seq<ExaminedModel>,
    by: Derivation,
    signing: Signing,
    lid: Seq<char>,
    kind: Seq<char>,
    payload: JsonModel,
    ts: Seq<char>,
    actor: ActorModel,
)
    requires
        chain_intact(records),
        by.core_omits_seal(),
        forall|id: Seq<char>| #[trigger]
            (signing.verifies)(actor.key, id, (signing.sign)(id)),
    ensures
        ({
            let blank = blank_envelope(lid, head_id(records), kind, payload, ts, actor);
            let cid = (by.digest)((by.payload_text)(payload));
            let id = (by.digest)((by.core_text)(EnvelopeModel { cid, ..blank }));
            let sig = (signing.sign)(id);
            let env = EnvelopeModel { cid, id, sig, ..blank };
            let all = records.push(by.examine(signing, env));
            &&& AppendingModel::Payload(blank).resumed(cid).resumed(id).resumed(sig)
                == AppendingModel::Sealed(env)
            &&& chain_intact(all)
            &&& chain_errors(all).len() == 0
            &&& head_id(all) == Some(id)
        }),
{
    let blank = blank_envelope(lid, head_id(records), kind, payload, ts, actor);
    let cid = (by.digest)((by.payload_text)(payload));
    let begun = EnvelopeModel { cid, ..blank };
    let id = (by.digest)((by.core_text)(begun));
    let sig = (signing.sign)(id);
    let env = EnvelopeModel { cid, id, sig, ..blank };
    assert(env == with_seal(begun, id, sig));
    assert((by.core_text)(env) == (by.core_text)(begun));
    assert((signing.verifies)(actor.key, id, (signing.sign)(id)));
    law_append_keeps_intact(records, by.examine(signing, env));
    law_no_error_iff_intact(records.push(by.examine(signing, env)));
}

// ── what a record begins with, and what is said of it ──

/// A new envelope carries what it was begun with, the version of the format and the era,
/// and nothing yet of what seals it.
pub proof fn law_new_envelope(
    lid: Seq<char>,
    prev: Option<Seq<char>>,
    kind: Seq<char>,
    payload: JsonModel,
    ts: Seq<char>,
    actor: ActorModel,
)
    ensures
        ({
            let env = blank_envelope(lid, prev, kind, payload, ts, actor);
            &&& env.pact == "0.1"@
            &&& env.era == "akashi/2026"@
            &&& env.ledger == lid
            &&& env.prev == prev
            &&& env.kind == kind
            &&& env.payload == payload
            &&& env.ts == ts
            &&& env.actor == actor
            &&& env.cid.len() == 0
            &&& env.id.len() == 0
            &&& env.sig.len() == 0
        }),
{
}

/// Each answer fills in its own part of an envelope and leaves the rest: the content id,
/// then the id, then the signature.
pub proof fn law_each_answer_fills_its_part(env: EnvelopeModel, answer: Seq<char>)
    ensures
        AppendingModel::Payload(env).resumed(answer) matches AppendingModel::Core(next) && next.cid
            == answer && next == (EnvelopeModel { cid: next.cid, ..env }),
        AppendingModel::Core(env).resumed(answer) matches AppendingModel::Signature(next) && next.id
            == answer && next == (EnvelopeModel { id: next.id, ..env }),
        AppendingModel::Signature(env).resumed(answer) matches AppendingModel::Sealed(next)
            && next.sig == answer && next == (EnvelopeModel { sig: next.sig, ..env }),
        AppendingModel::Sealed(env).resumed(answer) == AppendingModel::Sealed(env),
{
}

/// The actor of a work is a human, named after the work, with the key of the work.
pub proof fn law_actor_of_a_work(lid: Seq<char>, key: Seq<char>)
    ensures
        human_actor_model(lid, key).kind == "human"@,
        human_actor_model(lid, key).id == "urn:akashi:work:"@ + lid,
        human_actor_model(lid, key).key == key,
        human_actor_model(lid, key).model is None,
{
}

/// The head of a chain is the id of its last record, and an empty chain has none.
pub proof fn law_head_of_a_chain(records: Seq<ExaminedModel>)
    ensures
        records.len() == 0 ==> head_id(records) is None,
        records.len() > 0 ==> head_id(records) == Some(records[records.len() - 1].env.id),
{
}

/// What one more record adds to the report: nothing where it is sound, and otherwise one
/// entry for each of its flaws, in the order content id, link, id, signature, all with its
/// position and id, behind what was reported before.
pub proof fn law_report_grows(records: Seq<ExaminedModel>, record: ExaminedModel)
    ensures
        chain_errors(Seq::<ExaminedModel>::empty()).len() == 0,
        ({
            let before = chain_errors(records);
            let after = chain_errors(records.push(record));
            let expected = if records.len() == 0 {
                None
            } else {
                Some(records[records.len() - 1].env.id)
            };
            let a = before.len() as int;
            let b = a + (if record.cid != record.env.cid { 1int } else { 0 });
            let c = b + (if record.env.prev != expected { 1int } else { 0 });
            let d = c + (if record.id != record.env.id { 1int } else { 0 });
            let e = d + (if !record.sig_ok { 1int } else { 0 });
            &&& after.len() == e
            &&& after.take(a) == before
            &&& forall|k: int|
                a <= k < e ==> (#[trigger] after[k]).index == records.len() && after[k].id
                    == record.env.id
            &&& a < b ==> after[a].message == "cid mismatch: payload was altered (got "@ + record.cid
                + ")"@
            &&& b < c ==> after[b].message == "broken chain: prev="@ + shown_option(record.env.prev)
                + " expected="@ + shown_option(expected)
            &&& c < d ==> after[c].message == "id mismatch: core was altered (got "@ + record.id
                + ")"@
            &&& d < e ==> after[d].message == "signature does not verify"@
        }),
{
    let all = records.push(record);
    assert(all.drop_last() =~= records);
    let before = chain_errors(records);
    let after = chain_errors(all);
    let expected = head_id(records);
    let said = record_messages(record, expected);
    let added = record_errors(records.len() as int, record, expected);
    assert(after == before + added);
    assert(after.take(before.len() as int) =~= before);
    assert(added.len() == said.len());
    assert forall|k: int| 0 <= k < added.len() implies after[before.len() + k] == added[k]
        && added[k].message == said[k] by {}
}

} // verus!
