//! What holds of stamps and memos: the files of a head, what an outcome means, and what
//! a memo transaction and its requests hold.

use crate::anchor::{
    blockhash_request_model, blockhash_text, can_follow, head_file_path, is_attested,
    memo_message_bytes, memo_outcome, memo_step, memo_transaction_bytes, ots_dir_path,
    proof_file_path, rpc_request, secret_seed, send_request_model, stamp_outcome, RpcReply,
    StampRun, MEMO_PROGRAM_ID,
};
use crate::base58::{base58_bytes, is_base58_text};
use crate::json::{lemma_find_member_at, JsonModel};
use crate::outside::{
    base58_refusal, base64_text, ed25519_public_key, ed25519_signature, hex_bytes, hex_refusal,
    hex_text, is_hex_text, law_hex_round_trip,
};
use crate::store::{bare_hash, cas_dir_path, cas_file, is_digest_text};
use crate::text::{decimal_text, joined_path, lossy_text, occurs_in, trimmed};
use vstd::prelude::*;
use vstd::utf8::*;

verus! {

// ── files ────────────────────────────────────────────

/// The directory with a separator behind it, unless it has one or is none.
pub open spec fn with_separator(dir: Seq<char>) -> Seq<char> {
    if dir.len() == 0 || dir[dir.len() - 1] == '/' {
        dir
    } else {
        dir + "/"@
    }
}

/// A hash with and without its prefix is the same without it.
pub proof fn law_bare_hash(hex: Seq<char>)
    ensures
        bare_hash("sha256:"@ + hex) == hex,
        !"sha256:"@.is_prefix_of(hex) ==> bare_hash(hex) == hex,
{
    assert("sha256:"@.is_prefix_of("sha256:"@ + hex));
    assert(("sha256:"@ + hex).skip("sha256:"@.len() as int) =~= hex);
}

/// The files of a head: `ots/<hex>.head` under the data directory, and its proof beside it
/// with `.ots` behind the name, whether the head comes with its prefix or without.
pub proof fn law_files_of_a_head(data_dir: Seq<char>, hex: Seq<char>)
    requires
        hex.len() > 0,
        hex[0] != '/',
        !"sha256:"@.is_prefix_of(hex),
    ensures
        ({
            let head = with_separator(data_dir) + "ots/"@ + hex + ".head"@;
            &&& head_file_path(data_dir, hex) == head
            &&& head_file_path(data_dir, "sha256:"@ + hex) == head
            &&& proof_file_path(data_dir, hex) == head + ".ots"@
            &&& proof_file_path(data_dir, "sha256:"@ + hex) == head + ".ots"@
        }),
        ots_dir_path(data_dir) == with_separator(data_dir) + "ots"@,
{
    law_bare_hash(hex);
    reveal_strlit("ots");
    reveal_strlit("ots/");
    reveal_strlit("/");
    reveal_strlit(".head");
    reveal_strlit(".ots");
    reveal_strlit(".head.ots");
    assert("/"@ =~= seq!['/']);
    assert("ots/"@ =~= "ots"@ + seq!['/']);
    assert(".head.ots"@ =~= ".head"@ + ".ots"@);
    let dir = ots_dir_path(data_dir);
    assert("ots"@[0] == 'o' && "ots"@.len() == 3 && "ots"@[2] == 's');
    assert(dir =~= with_separator(data_dir) + "ots"@);
    assert(dir.last() == 's');
    let head = with_separator(data_dir) + "ots/"@ + hex + ".head"@;
    assert((hex + ".head"@)[0] == hex[0]);
    assert((hex + ".head.ots"@)[0] == hex[0]);
    assert(head_file_path(data_dir, hex) =~= head);
    assert(proof_file_path(data_dir, hex) =~= head + ".ots"@);
}

/// The file of a document: `cas/<hex>` under the data directory, for 64 hexadecimal digits
/// with or without the prefix, and none for any other text.
pub proof fn law_file_of_a_document(data_dir: Seq<char>, hex: Seq<char>)
    ensures
        hex.len() == 64 && (forall|i: int|
            0 <= i < 64 ==> crate::outside::is_hex_digit(#[trigger] hex[i])) ==> cas_file(
            data_dir,
            hex,
        ) == Some(with_separator(data_dir) + "cas/"@ + hex) && cas_file(data_dir, "sha256:"@ + hex)
            == Some(with_separator(data_dir) + "cas/"@ + hex),
        !"sha256:"@.is_prefix_of(hex) && !(hex.len() == 64 && (forall|i: int|
            0 <= i < 64 ==> crate::outside::is_hex_digit(#[trigger] hex[i]))) ==> cas_file(
            data_dir,
            hex,
        ) is None && cas_file(data_dir, "sha256:"@ + hex) is None,
        cas_dir_path(data_dir) == with_separator(data_dir) + "cas"@,
{
    law_bare_hash(hex);
    reveal_strlit("cas");
    reveal_strlit("cas/");
    reveal_strlit("/");
    reveal_strlit("sha256:");
    assert("/"@ =~= seq!['/']);
    assert("cas/"@ =~= "cas"@ + seq!['/']);
    assert("cas"@[0] == 'c' && "cas"@.len() == 3 && "cas"@[2] == 's');
    assert("sha256:"@.len() == 7 && "sha256:"@[0] == 's');
    let dir = cas_dir_path(data_dir);
    assert(dir =~= with_separator(data_dir) + "cas"@);
    assert(dir.last() == 's');
    if is_digest_text(hex) {
        assert(crate::outside::is_hex_digit(hex[0]));
        assert(!"sha256:"@.is_prefix_of(hex)) by {
            if "sha256:"@.is_prefix_of(hex) {
                assert(hex[0] == "sha256:"@[0]);
            }
        }
        assert(joined_path(dir, hex) =~= with_separator(data_dir) + "cas/"@ + hex);
    }
}

// ── stamps ───────────────────────────────────────────

/// A stamp succeeds exactly when the client ran and the proof is there, and gives the path
/// of the proof. Every failure is told with the message that came with it.
pub proof fn law_outcome_of_a_stamp(data_dir: Seq<char>, head_id: Seq<char>, run: StampRun)
    ensures
        stamp_outcome(data_dir, head_id, run) is Ok <==> (run matches StampRun::Ran {
            proof_exists,
            ..
        } && proof_exists),
        stamp_outcome(data_dir, head_id, run) matches Ok(path) ==> path == proof_file_path(
            data_dir,
            head_id,
        ),
        run matches StampRun::NoDirectory(e) ==> stamp_outcome(data_dir, head_id, run) == Err::<
            Seq<char>,
            Seq<char>,
        >(e@),
        run matches StampRun::NotWritten(e) ==> stamp_outcome(data_dir, head_id, run) == Err::<
            Seq<char>,
            Seq<char>,
        >(e@),
        run matches StampRun::NotRun(e) ==> stamp_outcome(data_dir, head_id, run) == Err::<
            Seq<char>,
            Seq<char>,
        >("ots not available: "@ + e@),
        run matches StampRun::Ran { proof_exists, stderr } ==> !proof_exists ==> stamp_outcome(
            data_dir,
            head_id,
            run,
        ) == Err::<Seq<char>, Seq<char>>("ots stamp produced no proof: "@ + lossy_text(stderr@)),
{
}

/// A proof counts as attested exactly when the client's words on it hold the name of a
/// Bitcoin attestation, wherever it stands in them.
pub proof fn law_attested(info: Seq<u8>)
    ensures
        is_attested(info) <==> exists|before: Seq<char>, after: Seq<char>|
            lossy_text(info) == #[trigger] (before + "BitcoinBlockHeaderAttestation"@ + after),
{
    let said = lossy_text(info);
    let name = "BitcoinBlockHeaderAttestation"@;
    if is_attested(info) {
        let i = choose|i: int|
            0 <= i && i + name.len() <= said.len() && #[trigger] said.subrange(i, i + name.len())
                == name;
        let before = said.take(i);
        let after = said.skip(i + name.len());
        assert(said =~= before + said.subrange(i, i + name.len()) + after);
        assert(said == before + name + after);
    }
    if exists|before: Seq<char>, after: Seq<char>|
        said == #[trigger] (before + name + after) {
        let (before, after) = choose|before: Seq<char>, after: Seq<char>|
            said == #[trigger] (before + name + after);
        let i = before.len() as int;
        assert(said.subrange(i, i + name.len()) =~= name);
        assert(occurs_in(name, said));
    }
}

// ── keys ─────────────────────────────────────────────

/// The hexadecimal text of a seed of 32 bytes gives the seed back, and white space around
/// it does not count. A text of any other length or kind is refused and told why.
pub proof fn law_secret_seed(secret: Seq<char>, seed: Seq<u8>)
    ensures
        seed.len() == 32 && trimmed(secret) == hex_text(seed) ==> secret_seed(secret) == Ok::<
            Seq<u8>,
            Seq<char>,
        >(seed),
        secret_seed(secret) matches Ok(found) ==> found.len() == 32 && trimmed(secret).len() == 64
            && found == hex_bytes(trimmed(secret)),
        secret_seed(secret) is Ok <==> is_hex_text(trimmed(secret)) && trimmed(secret).len() == 64,
        !is_hex_text(trimmed(secret)) ==> secret_seed(secret) == Err::<Seq<u8>, Seq<char>>(
            "bad SOLANA_SECRET hex: "@ + hex_refusal(trimmed(secret)),
        ),
        is_hex_text(trimmed(secret)) && trimmed(secret).len() != 64 ==> secret_seed(secret) == Err::<
            Seq<u8>,
            Seq<char>,
        >(
            "SOLANA_SECRET must be 32-byte hex seed, got "@ + decimal_text(
                trimmed(secret).len() / 2,
            ) + " bytes"@,
        ),
{
    law_hex_round_trip(seed);
    assert(hex_bytes(trimmed(secret)).len() == trimmed(secret).len() / 2);
}

// ── the transaction ──────────────────────────────────

/// Where everything stands in the message of a memo transaction: the header, two account
/// keys, first the payer's and then the program's, the blockhash, and one instruction of
/// the second key's program without accounts, whose data is the memo.
pub proof fn law_layout_of_the_message(
    payer: Seq<u8>,
    program: Seq<u8>,
    blockhash: Seq<u8>,
    memo: Seq<u8>,
)
    requires
        memo.len() < 128,
    ensures
        ({
            let m = memo_message_bytes(payer, program, blockhash, memo);
            let a = 4 + payer.len() as int;
            let b = a + program.len() as int;
            let c = b + blockhash.len() as int;
            &&& m.len() == c + 4 + memo.len()
            &&& m[0] == 1 && m[1] == 0 && m[2] == 1
            &&& m[3] == 2
            &&& m.subrange(4, a) == payer
            &&& m.subrange(a, b) == program
            &&& m.subrange(b, c) == blockhash
            &&& m[c] == 1
            &&& m[c + 1] == 1
            &&& m[c + 2] == 0
            &&& m[c + 3] == memo.len()
            &&& m.skip(c + 4) == memo
        }),
{
    let m = memo_message_bytes(payer, program, blockhash, memo);
    let a = 4 + payer.len() as int;
    let b = a + program.len() as int;
    let c = b + blockhash.len() as int;
    assert(m.subrange(4, a) =~= payer);
    assert(m.subrange(a, b) =~= program);
    assert(m.subrange(b, c) =~= blockhash);
    assert(m.skip(c + 4) =~= memo);
}

/// A memo transaction is one signature and the message that it signs: that of the key
/// which also pays.
pub proof fn law_transaction_is_signed(
    seed: Seq<u8>,
    program: Seq<u8>,
    blockhash: Seq<u8>,
    memo: Seq<u8>,
)
    ensures
        ({
            let tx = memo_transaction_bytes(seed, program, blockhash, memo);
            let message = memo_message_bytes(ed25519_public_key(seed), program, blockhash, memo);
            let n = ed25519_signature(seed, message).len() as int;
            &&& tx.len() == 1 + n + message.len()
            &&& tx[0] == 1
            &&& tx.subrange(1, 1 + n) == ed25519_signature(seed, tx.skip(1 + n))
            &&& tx.skip(1 + n) == message
        }),
{
    let tx = memo_transaction_bytes(seed, program, blockhash, memo);
    let message = memo_message_bytes(ed25519_public_key(seed), program, blockhash, memo);
    let signature = ed25519_signature(seed, message);
    let n = signature.len() as int;
    assert(tx.skip(1 + n) =~= message);
    assert(tx.subrange(1, 1 + n) =~= signature);
}

// ── requests and replies ─────────────────────────────

/// A request carries its method and its parameters.
pub proof fn law_request_members(method: Seq<char>, params: JsonModel)
    ensures
        rpc_request(method, params).get("jsonrpc"@) == Some(JsonModel::Text("2.0"@)),
        rpc_request(method, params).get("id"@) == Some(JsonModel::Integer(1)),
        rpc_request(method, params).get("method"@) == Some(JsonModel::Text(method)),
        rpc_request(method, params).get("params"@) == Some(params),
{
    reveal_strlit("jsonrpc");
    reveal_strlit("id");
    reveal_strlit("method");
    reveal_strlit("params");
    assert("jsonrpc"@.len() == 7);
    assert("id"@.len() == 2);
    assert("method"@.len() == 6);
    assert("params"@.len() == 6);
    assert("params"@[0] != "method"@[0]);
    let members = rpc_request(method, params)->Object_0;
    lemma_find_member_at(members, "jsonrpc"@, 0);
    lemma_find_member_at(members, "id"@, 1);
    lemma_find_member_at(members, "method"@, 2);
    lemma_find_member_at(members, "params"@, 3);
}

/// The request for a blockhash asks for a confirmed one.
pub proof fn law_blockhash_request()
    ensures
        blockhash_request_model().get("method"@) == Some(JsonModel::Text("getLatestBlockhash"@)),
        blockhash_request_model().get("params"@) matches Some(JsonModel::Array(params))
            && params.len() == 1 && params[0].get("commitment"@) == Some(
            JsonModel::Text("confirmed"@),
        ),
{
    let params = blockhash_request_model()->Object_0[3].value;
    law_request_members("getLatestBlockhash"@, params);
    lemma_find_member_at(params->Array_0[0]->Object_0, "commitment"@, 0);
}

/// The request that sends a transaction carries it in base64, says so, and leaves the
/// node's own checks on.
pub proof fn law_send_request(transaction: Seq<u8>)
    ensures
        send_request_model(transaction).get("method"@) == Some(JsonModel::Text("sendTransaction"@)),
        send_request_model(transaction).get("params"@) matches Some(JsonModel::Array(params))
            && params.len() == 2 && params[0] == JsonModel::Text(base64_text(transaction))
            && params[1].get("encoding"@) == Some(JsonModel::Text("base64"@))
            && params[1].get("skipPreflight"@) == Some(JsonModel::Bool(false)),
{
    let params = send_request_model(transaction)->Object_0[3].value;
    law_request_members("sendTransaction"@, params);
    reveal_strlit("encoding");
    reveal_strlit("skipPreflight");
    assert("encoding"@.len() == 8);
    assert("skipPreflight"@.len() == 13);
    let options = params->Array_0[1]->Object_0;
    lemma_find_member_at(options, "encoding"@, 0);
    lemma_find_member_at(options, "skipPreflight"@, 1);
}

/// A node's answer holds a blockhash exactly when the text stands in it under `result`,
/// `value`, `blockhash`.
pub proof fn law_blockhash_in_a_reply(value: JsonModel, hash: Seq<char>)
    ensures
        blockhash_text(value) == Some(hash) <==> (value.get("result"@) matches Some(result)
            && result.get("value"@) matches Some(inner) && inner.get("blockhash"@) == Some(
            JsonModel::Text(hash),
        )),
{
}

/// What follows a node's answer on the blockhash. Only an answer with a blockhash leads to
/// a request: the one that sends the transaction with that blockhash and the memo's bytes,
/// under the memo program, signed with the key. Everything else is told as it came.
pub proof fn law_step_of_a_memo(seed: Seq<u8>, memo: Seq<char>, reply: RpcReply)
    ensures
        memo_step(seed, memo, reply) is Ok <==> (reply matches RpcReply::Answer { value, .. }
            && blockhash_text(value@) matches Some(hash) && is_base58_text(hash)),
        reply matches RpcReply::Failed(e) ==> memo_step(seed, memo, reply) == Err::<
            JsonModel,
            Seq<char>,
        >("rpc blockhash: "@ + e@),
        reply matches RpcReply::Undecodable(e) ==> memo_step(seed, memo, reply) == Err::<
            JsonModel,
            Seq<char>,
        >("rpc blockhash decode: "@ + e@),
        reply matches RpcReply::Answer { value, text } ==> {
            &&& blockhash_text(value@) is None ==> memo_step(seed, memo, reply) == Err::<
                JsonModel,
                Seq<char>,
            >("no blockhash in response: "@ + text@)
            &&& blockhash_text(value@) matches Some(hash) ==> !is_base58_text(hash) ==> memo_step(
                seed,
                memo,
                reply,
            ) == Err::<JsonModel, Seq<char>>("blockhash b58: "@ + base58_refusal(hash))
            &&& blockhash_text(value@) matches Some(hash) ==> is_base58_text(hash) ==> {
                let tx = memo_transaction_bytes(
                    seed,
                    base58_bytes("MemoSq4gqABAXKb96qnH8TysNcWxMyWCqXgDLGmfcHr"@),
                    base58_bytes(hash),
                    encode_utf8(memo),
                );
                memo_step(seed, memo, reply) matches Ok(request) && request.get("params"@) matches Some(
                    JsonModel::Array(params),
                ) && params[0] == JsonModel::Text(base64_text(tx)) && request.get("method"@)
                    == Some(JsonModel::Text("sendTransaction"@))
            }
        },
{
    match reply {
        RpcReply::Answer { value, text } => match blockhash_text(value@) {
            Some(hash) => {
                let tx = memo_transaction_bytes(
                    seed,
                    base58_bytes(MEMO_PROGRAM_ID@),
                    base58_bytes(hash),
                    encode_utf8(memo),
                );
                law_send_request(tx);
            },
            None => {},
        },
        _ => {},
    }
}

/// Only an answer with a blockhash in base58 asks anything of the memo: that its length
/// has one byte, and that the transaction fits.
pub proof fn law_when_a_memo_can_follow(memo: Seq<char>, reply: RpcReply)
    ensures
        !(reply is Answer) ==> can_follow(memo, reply),
        reply matches RpcReply::Answer { value, .. } ==> {
            &&& blockhash_text(value@) is None ==> can_follow(memo, reply)
            &&& blockhash_text(value@) matches Some(hash) ==> (can_follow(memo, reply) <==> (
            is_base58_text(hash) ==> encode_utf8(memo).len() < 128 && 4 * ((encode_utf8(hash).len()
                + 275) / 3 + 1) <= isize::MAX))
        },
{
}

/// The outcome of sending a memo is the signature that the node answers under `result`,
/// and everything else is told as it came.
pub proof fn law_outcome_of_a_memo(reply: RpcReply)
    ensures
        reply matches RpcReply::Failed(e) ==> memo_outcome(reply) == Err::<Seq<char>, Seq<char>>(
            "rpc send: "@ + e@,
        ),
        reply matches RpcReply::Undecodable(e) ==> memo_outcome(reply) == Err::<
            Seq<char>,
            Seq<char>,
        >("rpc send decode: "@ + e@),
        reply matches RpcReply::Answer { value, text } ==> {
            &&& value@.get("result"@) matches Some(JsonModel::Text(sig)) ==> memo_outcome(reply)
                == Ok::<Seq<char>, Seq<char>>(sig)
            &&& !(value@.get("result"@) matches Some(JsonModel::Text(sig))) ==> memo_outcome(reply)
                == Err::<Seq<char>, Seq<char>>("send failed: "@ + text@)
        },
{
}

} // verus!
