//! Anchoring the head of a ledger in two blockchains.
//!
//!   * OpenTimestamps (Bitcoin) is the authoritative anchor. The `ots` client is run
//!     elsewhere; which files it works on and what its outcome means stands here.
//!   * A Solana memo is an instant convenience. Its transaction is built here, a legacy
//!     transaction with a single memo; the requests that carry it are sent elsewhere.

use crate::base58::{
    base58_bytes, base58_text, is_base58_digit, is_base58_text, law_base58_bytes_length,
};
use crate::json::{member, put, Json, JsonModel, Member};
use crate::outside::{
    base58_decode, base58_encode, base58_refusal, base64_encode, base64_text, ed25519_public_key,
    ed25519_signature, hex_bytes, hex_decode, hex_refusal, is_hex_text, public_key, sign,
};
use crate::store::{bare, bare_hash};
use crate::text::{
    contains, decimal, decimal_text, from_utf8_lossy, join2, join3, join_path, joined_path,
    lossy_text, occurs_in, trim, trimmed,
};
use vstd::prelude::*;
use vstd::utf8::*;

verus! {

// ── OpenTimestamps (Bitcoin) ─────────────────────────

/// The directory of the stamped heads and their proofs.
pub open spec fn ots_dir_path(data_dir: Seq<char>) -> Seq<char> {
    joined_path(data_dir, "ots"@)
}

/// The file that holds a head.
pub open spec fn head_file_path(data_dir: Seq<char>, head_id: Seq<char>) -> Seq<char> {
    joined_path(ots_dir_path(data_dir), bare_hash(head_id) + ".head"@)
}

/// The file that holds the proof of a head.
pub open spec fn proof_file_path(data_dir: Seq<char>, head_id: Seq<char>) -> Seq<char> {
    joined_path(ots_dir_path(data_dir), bare_hash(head_id) + ".head.ots"@)
}

/// The directory of the stamped heads and their proofs.
pub fn ots_dir(data_dir: &str) -> (r: String)
    ensures
        r@ == ots_dir_path(data_dir@),
{
    join_path(data_dir, "ots")
}

/// A head id without the `sha256:` that it may begin with.
pub fn head_hex(head_id: &str) -> (r: String)
    ensures
        r@ == bare_hash(head_id@),
{
    bare(head_id).to_owned()
}

/// Paths (`.head` original, `.ots` proof) for a head id.
pub fn ots_paths(data_dir: &str, head_id: &str) -> (r: (String, String))
    ensures
        r.0@ == head_file_path(data_dir@, head_id@),
        r.1@ == proof_file_path(data_dir@, head_id@),
{
    let h = head_hex(head_id);
    let dir = ots_dir(data_dir);
    let base = join_path(dir.as_str(), join2(h.as_str(), ".head").as_str());
    let ots = join_path(dir.as_str(), join2(h.as_str(), ".head.ots").as_str());
    (base, ots)
}

/// What to do before the client is run: make `dir`, and write `content` into
/// `head_file`, the file that is then stamped.
#[derive(Debug)]
pub struct StampPlan {
    pub dir: String,
    pub head_file: String,
    /// The head id itself, so that anyone can reproduce the digest.
    pub content: String,
    pub proof_file: String,
}

/// The files of a stamp on `head_id`.
pub fn stamp_plan(data_dir: &str, head_id: &str) -> (r: StampPlan)
    ensures
        r.dir@ == ots_dir_path(data_dir@),
        r.head_file@ == head_file_path(data_dir@, head_id@),
        r.content@ == head_id@,
        r.proof_file@ == proof_file_path(data_dir@, head_id@),
{
    let (head_file, proof_file) = ots_paths(data_dir, head_id);
    StampPlan { dir: ots_dir(data_dir), head_file, content: head_id.to_owned(), proof_file }
}

/// How a stamp went. Each failure comes with the system's message.
#[derive(Debug)]
pub enum StampRun {
    /// The directory could not be made.
    NoDirectory(String),
    /// The head could not be written.
    NotWritten(String),
    /// The client could not be run.
    NotRun(String),
    /// The client ran. Whether the proof is there afterwards, and its error output.
    Ran { proof_exists: bool, stderr: Vec<u8> },
}

/// The outcome of a stamp: the path of the proof, or why there is none.
pub open spec fn stamp_outcome(
    data_dir: Seq<char>,
    head_id: Seq<char>,
    run: StampRun,
) -> Result<Seq<char>, Seq<char>> {
    match run {
        StampRun::NoDirectory(e) => Err(e@),
        StampRun::NotWritten(e) => Err(e@),
        StampRun::NotRun(e) => Err("ots not available: "@ + e@),
        StampRun::Ran { proof_exists, stderr } => if proof_exists {
            Ok(proof_file_path(data_dir, head_id))
        } else {
            Err("ots stamp produced no proof: "@ + lossy_text(stderr@))
        },
    }
}

/// The characters of a result of texts.
pub open spec fn result_chars(r: Result<String, String>) -> Result<Seq<char>, Seq<char>> {
    match r {
        Ok(s) => Ok(s@),
        Err(e) => Err(e@),
    }
}

/// The outcome of stamping `head_id`: the path of the pending proof that commits to it,
/// or why there is none.
pub fn ots_stamp(data_dir: &str, head_id: &str, run: StampRun) -> (r: Result<String, String>)
    ensures
        result_chars(r) == stamp_outcome(data_dir@, head_id@, run),
{
    match run {
        StampRun::NoDirectory(e) => Err(e),
        StampRun::NotWritten(e) => Err(e),
        StampRun::NotRun(e) => Err(join2("ots not available: ", e.as_str())),
        StampRun::Ran { proof_exists, stderr } => {
            if proof_exists {
                Ok(ots_paths(data_dir, head_id).1)
            } else {
                let said = from_utf8_lossy(stderr.as_slice());
                Err(join2("ots stamp produced no proof: ", said.as_str()))
            }
        },
    }
}

/// What became of asking about a proof.
#[derive(Debug)]
pub enum CheckRun {
    /// There is no proof to ask about.
    NoProof,
    /// The client could not be run.
    NotRun(String),
    /// What the client said of the proof.
    Info(Vec<u8>),
}

/// Whether the client's words on a proof name a Bitcoin attestation.
pub open spec fn is_attested(info: Seq<u8>) -> bool {
    occurs_in("BitcoinBlockHeaderAttestation"@, lossy_text(info))
}

/// Whether a proof, once an upgrade was tried, carries a Bitcoin attestation.
pub fn ots_check(run: CheckRun) -> (r: Result<bool, String>)
    ensures
        match run {
            CheckRun::NoProof => r matches Err(e) && e@ == "no ots proof"@,
            CheckRun::NotRun(m) => r matches Err(e) && e@ == m@,
            CheckRun::Info(info) => r matches Ok(yes) && yes == is_attested(info@) && (valid_utf8(
                info@,
            ) ==> yes == occurs_in("BitcoinBlockHeaderAttestation"@, decode_utf8(info@))),
        },
{
    match run {
        CheckRun::NoProof => Err("no ots proof".to_owned()),
        CheckRun::NotRun(e) => Err(e),
        CheckRun::Info(info) => {
            let said = from_utf8_lossy(info.as_slice());
            Ok(contains(said.as_str(), "BitcoinBlockHeaderAttestation"))
        },
    }
}

// ── Solana memo (instant convenience anchor) ─────────

pub const MEMO_PROGRAM_ID: &'static str = "MemoSq4gqABAXKb96qnH8TysNcWxMyWCqXgDLGmfcHr";

/// The length prefix of a list, in the one-byte form that lengths below 128 have.
pub fn shortvec_len(n: usize) -> (r: Vec<u8>)
    requires
        n < 128,
    ensures
        r@ == seq![n as u8],
{
    let mut v: Vec<u8> = Vec::new();
    v.push(n as u8);
    assert(v@ =~= seq![n as u8]);
    v
}

/// An Ed25519 signing key, held as the seed that it is made from.
#[derive(Debug)]
pub struct SigningKey {
    pub seed: [u8; 32],
}

/// The seed that a secret stands for, or why it stands for none.
pub open spec fn secret_seed(secret_hex: Seq<char>) -> Result<Seq<u8>, Seq<char>> {
    let hex = trimmed(secret_hex);
    if !is_hex_text(hex) {
        Err("bad SOLANA_SECRET hex: "@ + hex_refusal(hex))
    } else if hex_bytes(hex).len() != 32 {
        Err(
            "SOLANA_SECRET must be 32-byte hex seed, got "@ + decimal_text(hex_bytes(hex).len())
                + " bytes"@,
        )
    } else {
        Ok(hex_bytes(hex))
    }
}

/// Reads a signing key from the hexadecimal text of its 32-byte seed. White space
/// around the text does not count.
pub fn solana_key(secret_hex: &str) -> (r: Result<SigningKey, String>)
    ensures
        match r {
            Ok(key) => secret_seed(secret_hex@) == Ok::<Seq<u8>, Seq<char>>(key.seed@),
            Err(e) => secret_seed(secret_hex@) == Err::<Seq<u8>, Seq<char>>(e@),
        },
{
    let raw = match hex_decode(trim(secret_hex)) {
        Ok(raw) => raw,
        Err(e) => {
            return Err(join2("bad SOLANA_SECRET hex: ", e.as_str()));
        },
    };
    if raw.len() != 32 {
        let n = decimal(raw.len());
        return Err(
            join3("SOLANA_SECRET must be 32-byte hex seed, got ", n.as_str(), " bytes"),
        );
    }
    let mut seed: [u8; 32] = [0u8; 32];
    let mut i: usize = 0;
    while i < 32
        invariant
            i <= 32,
            raw@.len() == 32,
            forall|j: int| 0 <= j < i ==> seed@[j] == raw@[j],
        decreases 32 - i,
    {
        seed[i] = raw[i];
        i = i + 1;
    }
    assert(seed@ =~= raw@);
    Ok(SigningKey { seed })
}

/// The key that a configured secret stands for, if one is configured. Without one no memo
/// is sent, and one that stands for no key is an error.
pub fn configured_key(secret: &Option<String>) -> (r: Result<Option<SigningKey>, String>)
    ensures
        match *secret {
            None => r matches Ok(None),
            Some(s) => match secret_seed(s@) {
                Ok(seed) => r matches Ok(Some(key)) && key.seed@ == seed,
                Err(message) => r matches Err(e) && e@ == message,
            },
        },
{
    match secret {
        None => Ok(None),
        Some(s) => match solana_key(s.as_str()) {
            Ok(key) => Ok(Some(key)),
            Err(e) => Err(e),
        },
    }
}

/// The address of a key: its public half in base58.
pub fn solana_pubkey_b58(key: &SigningKey) -> (r: String)
    ensures
        r@ == base58_text(ed25519_public_key(key.seed@)),
{
    let k = public_key(&key.seed);
    base58_encode(k.as_slice())
}

/// A legacy message with one instruction, the memo.
pub open spec fn memo_message_bytes(
    fee_payer: Seq<u8>,
    program: Seq<u8>,
    blockhash: Seq<u8>,
    memo: Seq<u8>,
) -> Seq<u8> {
    // one required signature, none of it read-only, one read-only account unsigned
    seq![1u8, 0u8, 1u8]
    // two accounts
     + seq![2u8] + fee_payer + program + blockhash
    // one instruction, of the second account's program, without accounts
     + seq![1u8, 1u8, 0u8]
    // the memo
     + seq![memo.len() as u8] + memo
}

/// The message that a memo transaction signs.
pub fn memo_message(fee_payer: &[u8], program: &[u8], blockhash: &[u8], memo: &[u8]) -> (r: Vec<u8>)
    requires
        memo@.len() < 128,
    ensures
        r@ == memo_message_bytes(fee_payer@, program@, blockhash@, memo@),
{
    let mut msg: Vec<u8> = Vec::new();
    msg.push(1u8);
    msg.push(0u8);
    msg.push(1u8);
    let mut accounts = shortvec_len(2);
    msg.append(&mut accounts);
    msg.extend_from_slice(fee_payer);
    msg.extend_from_slice(program);
    msg.extend_from_slice(blockhash);
    let mut instructions = shortvec_len(1);
    msg.append(&mut instructions);
    msg.push(1u8);
    let mut instruction_accounts = shortvec_len(0);
    msg.append(&mut instruction_accounts);
    let mut length = shortvec_len(memo.len());
    msg.append(&mut length);
    msg.extend_from_slice(memo);
    assert(msg@ =~= memo_message_bytes(fee_payer@, program@, blockhash@, memo@));
    msg
}

/// A signed memo transaction: one signature, the signature of the message, and the
/// message.
pub open spec fn memo_transaction_bytes(
    seed: Seq<u8>,
    program: Seq<u8>,
    blockhash: Seq<u8>,
    memo: Seq<u8>,
) -> Seq<u8> {
    let message = memo_message_bytes(ed25519_public_key(seed), program, blockhash, memo);
    seq![1u8] + ed25519_signature(seed, message) + message
}

/// The memo transaction, signed with `key`, which also pays for it.
pub fn memo_transaction(
    key: &SigningKey,
    program: &[u8],
    blockhash: &[u8],
    memo: &[u8],
) -> (r: Vec<u8>)
    requires
        memo@.len() < 128,
    ensures
        r@ == memo_transaction_bytes(key.seed@, program@, blockhash@, memo@),
        r@.len() == 105 + program@.len() + blockhash@.len() + memo@.len(),
{
    let payer = public_key(&key.seed);
    let msg = memo_message(payer.as_slice(), program, blockhash, memo);
    let sig = sign(&key.seed, msg.as_slice());
    let mut tx = shortvec_len(1);
    tx.extend_from_slice(sig.as_slice());
    tx.extend_from_slice(msg.as_slice());
    assert(tx@ =~= memo_transaction_bytes(key.seed@, program@, blockhash@, memo@));
    tx
}

/// What became of a request to a Solana node.
#[derive(Debug)]
pub enum RpcReply {
    /// The request failed.
    Failed(String),
    /// The answer was no JSON.
    Undecodable(String),
    /// The answer, and the same written out.
    Answer { value: Json, text: String },
}

/// A request of that method.
pub open spec fn rpc_request(method: Seq<char>, params: JsonModel) -> JsonModel {
    JsonModel::Object(
        seq![
            member("jsonrpc"@, JsonModel::Text("2.0"@)),
            member("id"@, JsonModel::Integer(1)),
            member("method"@, JsonModel::Text(method)),
            member("params"@, params),
        ],
    )
}

/// A request of that method.
fn request(method: &str, params: Json) -> (r: Json)
    ensures
        r@ == rpc_request(method@, params@),
{
    let mut members: Vec<Member> = Vec::new();
    put(&mut members, "jsonrpc", Json::text("2.0"));
    put(&mut members, "id", Json::Integer(1));
    put(&mut members, "method", Json::text(method));
    put(&mut members, "params", params);
    let r = Json::object(members);
    assert(r@->Object_0 =~= rpc_request(method@, params@)->Object_0);
    r
}

/// The request for a recent blockhash.
pub open spec fn blockhash_request_model() -> JsonModel {
    rpc_request(
        "getLatestBlockhash"@,
        JsonModel::Array(
            seq![
                JsonModel::Object(seq![member("commitment"@, JsonModel::Text("confirmed"@))]),
            ],
        ),
    )
}

/// The request for a recent blockhash, with which sending a memo begins.
pub fn blockhash_request() -> (r: Json)
    ensures
        r@ == blockhash_request_model(),
{
    let mut options: Vec<Member> = Vec::new();
    put(&mut options, "commitment", Json::text("confirmed"));
    let option = Json::object(options);
    assert(option@->Object_0 =~= seq![member("commitment"@, JsonModel::Text("confirmed"@))]);
    let mut params: Vec<Json> = Vec::new();
    params.push(option);
    let list = Json::array(params);
    assert(list@->Array_0 =~= seq![
        JsonModel::Object(seq![member("commitment"@, JsonModel::Text("confirmed"@))]),
    ]);
    request("getLatestBlockhash", list)
}

/// The blockhash in a node's answer, in base58.
pub open spec fn blockhash_text(value: JsonModel) -> Option<Seq<char>> {
    match value.get("result"@) {
        Some(result) => match result.get("value"@) {
            Some(inner) => match inner.get("blockhash"@) {
                Some(hash) => hash.as_text(),
                None => None,
            },
            None => None,
        },
        None => None,
    }
}

/// The blockhash in a node's answer, in base58.
fn blockhash_of(value: &Json) -> (r: Option<&str>)
    ensures
        match r {
            Some(s) => blockhash_text(value@) == Some(s@),
            None => blockhash_text(value@) is None,
        },
{
    match value.get("result") {
        Some(result) => match result.get("value") {
            Some(inner) => match inner.get("blockhash") {
                Some(hash) => hash.as_str(),
                None => None,
            },
            None => None,
        },
        None => None,
    }
}

/// The request that sends a transaction.
pub open spec fn send_request_model(transaction: Seq<u8>) -> JsonModel {
    rpc_request(
        "sendTransaction"@,
        JsonModel::Array(
            seq![
                JsonModel::Text(base64_text(transaction)),
                JsonModel::Object(
                    seq![
                        member("encoding"@, JsonModel::Text("base64"@)),
                        member("skipPreflight"@, JsonModel::Bool(false)),
                    ],
                ),
            ],
        ),
    )
}

/// The request that sends a transaction.
fn send_request(transaction: &[u8]) -> (r: Json)
    requires
        4 * (transaction@.len() / 3 + 1) <= isize::MAX,
    ensures
        r@ == send_request_model(transaction@),
{
    let mut options: Vec<Member> = Vec::new();
    put(&mut options, "encoding", Json::text("base64"));
    put(&mut options, "skipPreflight", Json::Bool(false));
    let option = Json::object(options);
    assert(option@->Object_0 =~= seq![
        member("encoding"@, JsonModel::Text("base64"@)),
        member("skipPreflight"@, JsonModel::Bool(false)),
    ]);
    let mut params: Vec<Json> = Vec::new();
    params.push(Json::Text(base64_encode(transaction)));
    params.push(option);
    let list = Json::array(params);
    assert(list@->Array_0 =~= seq![JsonModel::Text(base64_text(transaction@)), option@]);
    request("sendTransaction", list)
}

/// What follows a node's answer on the blockhash: the request that sends the memo, or
/// why the memo cannot be sent.
pub open spec fn memo_step(seed: Seq<u8>, memo: Seq<char>, reply: RpcReply) -> Result<
    JsonModel,
    Seq<char>,
> {
    match reply {
        RpcReply::Failed(e) => Err("rpc blockhash: "@ + e@),
        RpcReply::Undecodable(e) => Err("rpc blockhash decode: "@ + e@),
        RpcReply::Answer { value, text } => match blockhash_text(value@) {
            None => Err("no blockhash in response: "@ + text@),
            Some(hash) => if is_base58_text(hash) {
                Ok(
                    send_request_model(
                        memo_transaction_bytes(
                            seed,
                            base58_bytes(MEMO_PROGRAM_ID@),
                            base58_bytes(hash),
                            encode_utf8(memo),
                        ),
                    ),
                )
            } else {
                Err("blockhash b58: "@ + base58_refusal(hash))
            },
        },
    }
}

/// Whether a memo transaction with that blockhash can be built: the length of the memo
/// has one byte, and a buffer can hold the transaction in base64.
pub open spec fn memo_fits(memo: Seq<char>, hash: Seq<char>) -> bool {
    &&& encode_utf8(memo).len() < 128
    &&& 4 * ((encode_utf8(hash).len() + 275) / 3 + 1) <= isize::MAX
}

/// Whether what follows a node's answer can be done. Only an answer with a blockhash
/// leads to a transaction.
pub open spec fn can_follow(memo: Seq<char>, reply: RpcReply) -> bool {
    reply matches RpcReply::Answer { value, text } ==> (blockhash_text(value@) matches Some(hash)
        ==> is_base58_text(hash) ==> memo_fits(memo, hash))
}

/// Whether a text is in the alphabet of base58.
fn is_base58(s: &str) -> (r: bool)
    ensures
        r == is_base58_text(s@),
{
    let mut all: bool = true;
    for c in it: s.chars()
        invariant
            it.seq() == s@,
            all == (forall|j: int| 0 <= j < it.index() ==> is_base58_digit(#[trigger] s@[j])),
    {
        all = all && (('1' <= c && c <= '9') || ('A' <= c && c <= 'Z' && c != 'I' && c != 'O') || (
        'a' <= c && c <= 'z' && c != 'l'));
    }
    all
}

/// Whether what follows a node's answer can be done, which sending a memo asks for.
pub fn can_send_memo(memo: &str, reply: &RpcReply) -> (r: bool)
    ensures
        r == can_follow(memo@, *reply),
{
    match reply {
        RpcReply::Answer { value, .. } => match blockhash_of(value) {
            Some(hash) => {
                let room = 4 * ((hash.as_bytes().len() as u128 + 275) / 3 + 1);
                !is_base58(hash) || (memo.as_bytes().len() < 128 && room <= isize::MAX as u128)
            },
            None => true,
        },
        _ => true,
    }
}

/// Takes a node's answer on the blockhash, and makes the request that sends the memo.
pub fn solana_send_memo(key: &SigningKey, memo: &str, reply: &RpcReply) -> (r: Result<
    Json,
    String,
>)
    requires
        can_follow(memo@, *reply),
    ensures
        match r {
            Ok(next) => memo_step(key.seed@, memo@, *reply) == Ok::<JsonModel, Seq<char>>(next@),
            Err(e) => memo_step(key.seed@, memo@, *reply) == Err::<JsonModel, Seq<char>>(e@),
        },
{
    match reply {
        RpcReply::Failed(e) => Err(join2("rpc blockhash: ", e.as_str())),
        RpcReply::Undecodable(e) => Err(join2("rpc blockhash decode: ", e.as_str())),
        RpcReply::Answer { value, text } => {
            let hash = match blockhash_of(value) {
                Some(hash) => hash,
                None => {
                    return Err(join2("no blockhash in response: ", text.as_str()));
                },
            };
            let blockhash = match base58_decode(hash) {
                Ok(blockhash) => blockhash,
                Err(e) => {
                    return Err(join2("blockhash b58: ", e.as_str()));
                },
            };
            proof {
                reveal_strlit("MemoSq4gqABAXKb96qnH8TysNcWxMyWCqXgDLGmfcHr");
                assert(is_base58_text(MEMO_PROGRAM_ID@));
                law_base58_bytes_length(MEMO_PROGRAM_ID@);
                law_base58_bytes_length(hash@);
                assert(is_ascii_chars(hash@)) by {
                    assert forall|i: int| 0 <= i < hash@.len() implies '\0' <= #[trigger] hash@[i]
                        <= '\u{7f}' by {
                        assert(is_base58_digit(hash@[i]));
                    }
                }
                is_ascii_chars_encode_utf8(hash@);
            }
            let program = match base58_decode(MEMO_PROGRAM_ID) {
                Ok(program) => program,
                Err(e) => {
                    assert(false);
                    return Err(e);
                },
            };
            let tx = memo_transaction(
                key,
                program.as_slice(),
                blockhash.as_slice(),
                memo.as_bytes(),
            );
            Ok(send_request(tx.as_slice()))
        },
    }
}

/// The signature in a node's answer to the transaction.
pub open spec fn sent_signature(value: JsonModel) -> Option<Seq<char>> {
    match value.get("result"@) {
        Some(result) => result.as_text(),
        None => None,
    }
}

/// The outcome of sending a memo: the signature of the transaction, or why there is
/// none.
pub open spec fn memo_outcome(reply: RpcReply) -> Result<Seq<char>, Seq<char>> {
    match reply {
        RpcReply::Failed(e) => Err("rpc send: "@ + e@),
        RpcReply::Undecodable(e) => Err("rpc send decode: "@ + e@),
        RpcReply::Answer { value, text } => match sent_signature(value@) {
            Some(sig) => Ok(sig),
            None => Err("send failed: "@ + text@),
        },
    }
}

/// Takes a node's answer to the transaction: its signature in base58, or why it was not
/// sent.
pub fn memo_signature(reply: &RpcReply) -> (r: Result<String, String>)
    ensures
        result_chars(r) == memo_outcome(*reply),
{
    match reply {
        RpcReply::Failed(e) => Err(join2("rpc send: ", e.as_str())),
        RpcReply::Undecodable(e) => Err(join2("rpc send decode: ", e.as_str())),
        RpcReply::Answer { value, text } => {
            match value.get("result") {
                Some(result) => match result.as_str() {
                    Some(sig) => Ok(sig.to_owned()),
                    None => Err(join2("send failed: ", text.as_str())),
                },
                None => Err(join2("send failed: ", text.as_str())),
            }
        },
    }
}

/// A memo transaction carries the memo: its bytes are the last ones of the transaction,
/// behind their length.
pub proof fn law_transaction_ends_in_memo(
    seed: Seq<u8>,
    program: Seq<u8>,
    blockhash: Seq<u8>,
    memo: Seq<u8>,
)
    requires
        memo.len() < 128,
    ensures
        ({
            let tx = memo_transaction_bytes(seed, program, blockhash, memo);
            &&& tx.skip(tx.len() - memo.len()) == memo
            &&& tx[tx.len() - memo.len() - 1] == memo.len()
        }),
{
    let tx = memo_transaction_bytes(seed, program, blockhash, memo);
    assert(tx.skip(tx.len() - memo.len()) =~= memo);
}

} // verus!
