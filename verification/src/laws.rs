//! What holds of the tables, the ledger file and the documents over several calls.

use crate::api::{
    answers, cas_verdict, certificate_json, full_hash, record_with_id, version_json,
    versions_json, SubjectModel,
};
use crate::chain_laws::law_append_keeps_intact;
use crate::json::{lemma_find_member_at, optional_text_model, JsonModel};
use crate::ledger::{
    blank_envelope, chain_intact, head_id, human_actor_model, EnvelopeModel, ExaminedModel,
};
use crate::order::{ascending, law_ascending, law_greatest_comes_last};
use crate::outside::{hex_bytes, hex_text, is_hex_digit, law_hex_round_trip, sha256_digest};
use crate::store::{
    bare_hash, cas_dir_path, cas_file, chain_rows, json_lines, readable, content_hash, is_earliest, is_free_from, is_head, is_newest, joined_lines,
    record_row, rows_of, seqs_of, AnchorModel, RecordModel,
};
use crate::text::{
    is_white_space, joined_path, numbered_lines, split_lines, trimmed_end, trimmed_start,
};
use crate::version::{doc_payload, FormModel};
use vstd::prelude::*;

verus! {

// ── the table of records ─────────────────────────────

/// Whether no two rows have the same work and number.
pub open spec fn keys_distinct(rows: Seq<RecordModel>) -> bool {
    forall|i: int, j: int|
        0 <= i < j < rows.len() ==> !((#[trigger] rows[i]).lid == (#[trigger] rows[j]).lid
            && rows[i].seq == rows[j].seq)
}

/// A row with a free number keeps the keys of the table distinct.
pub proof fn law_append_keeps_keys_distinct(rows: Seq<RecordModel>, row: RecordModel)
    requires
        keys_distinct(rows),
        is_free_from(rows, row.lid, row.seq),
    ensures
        keys_distinct(rows.push(row)),
{
    let all = rows.push(row);
    assert forall|i: int, j: int| 0 <= i < j < all.len() implies !((#[trigger] all[i]).lid == (
    #[trigger] all[j]).lid && all[i].seq == all[j].seq) by {
        if j == rows.len() {
            assert(all[i] == rows[i]);
        } else {
            assert(all[i] == rows[i] && all[j] == rows[j]);
        }
    }
}

/// Once a record is appended it is the one head of its work, and the number after its
/// own is the next free one.
pub proof fn law_appended_record_is_head(rows: Seq<RecordModel>, row: RecordModel)
    requires
        is_free_from(rows, row.lid, row.seq),
    ensures
        is_newest(rows.push(row), row.lid, rows.len() as int),
        forall|i: int| #[trigger]
            is_newest(rows.push(row), row.lid, i) ==> i == rows.len(),
        is_free_from(rows.push(row), row.lid, row.seq + 1),
{
    let all = rows.push(row);
    let n = rows.len() as int;
    assert forall|j: int| 0 <= j < all.len() && (#[trigger] all[j]).lid == row.lid implies all[j].seq
        <= row.seq by {
        if j < n {
            assert(all[j] == rows[j]);
        }
    }
    assert(all[n] == row);
    assert forall|i: int| #[trigger] is_newest(all, row.lid, i) implies i == n by {
        if i < n {
            assert(all[i] == rows[i]);
            assert(all[n].seq <= all[i].seq);
        }
    }
}

/// On a table with distinct keys a work has one head and one next number.
pub proof fn law_head_is_unique(
    rows: Seq<RecordModel>,
    lid: Seq<char>,
    a: Option<Seq<char>>,
    m: int,
    b: Option<Seq<char>>,
    n: int,
)
    requires
        keys_distinct(rows),
        is_head(rows, lid, a, m),
        is_head(rows, lid, b, n),
    ensures
        a == b && m == n,
{
    if a is Some && b is Some {
        let i = choose|i: int| #[trigger]
            is_newest(rows, lid, i) && rows[i].env_id == a->0 && rows[i].seq + 1 == m;
        let j = choose|j: int| #[trigger]
            is_newest(rows, lid, j) && rows[j].env_id == b->0 && rows[j].seq + 1 == n;
        assert(rows[i].seq <= rows[j].seq && rows[j].seq <= rows[i].seq);
        if i < j {
            assert(!(rows[i].lid == rows[j].lid && rows[i].seq == rows[j].seq));
        } else if j < i {
            assert(!(rows[j].lid == rows[i].lid && rows[j].seq == rows[i].seq));
        }
    } else if a is Some {
        let i = choose|i: int| #[trigger]
            is_newest(rows, lid, i) && rows[i].env_id == a->0 && rows[i].seq + 1 == m;
        assert(rows[i].lid == lid);
    } else if b is Some {
        let j = choose|j: int| #[trigger]
            is_newest(rows, lid, j) && rows[j].env_id == b->0 && rows[j].seq + 1 == n;
        assert(rows[j].lid == lid);
    }
}

/// After a record was appended under a free number, its id and the number after its own
/// are what the head of its work is, and the head of every other work is what it was.
pub proof fn law_head_follows_the_append(rows: Seq<RecordModel>, row: RecordModel)
    requires
        is_free_from(rows, row.lid, row.seq),
    ensures
        forall|head: Option<Seq<char>>, next: int| #[trigger]
            is_head(rows.push(row), row.lid, head, next) <==> head == Some(row.env_id) && next
                == row.seq + 1,
        forall|lid: Seq<char>, head: Option<Seq<char>>, next: int|
            lid != row.lid ==> (#[trigger] is_head(rows.push(row), lid, head, next) <==> is_head(
                rows,
                lid,
                head,
                next,
            )),
{
    let all = rows.push(row);
    let n = rows.len() as int;
    law_appended_record_is_head(rows, row);
    assert(all[n] == row);
    assert forall|head: Option<Seq<char>>, next: int| #[trigger]
        is_head(all, row.lid, head, next) <==> head == Some(row.env_id) && next == row.seq
        + 1 by {
        assert(is_newest(all, row.lid, n));
        if head is None {
            assert(all[n].lid == row.lid);
        }
    }
    assert forall|lid: Seq<char>, head: Option<Seq<char>>, next: int|
        lid != row.lid implies (#[trigger] is_head(all, lid, head, next) <==> is_head(
        rows,
        lid,
        head,
        next,
    )) by {
        match head {
            Some(id) => {
                if is_head(all, lid, head, next) {
                    let i = choose|i: int| #[trigger]
                        is_newest(all, lid, i) && all[i].env_id == id && all[i].seq + 1 == next;
                    law_append_leaves_other_heads(rows, row, lid, i);
                    assert(is_newest(rows, lid, i) && rows[i] == all[i]);
                }
                if is_head(rows, lid, head, next) {
                    let i = choose|i: int| #[trigger]
                        is_newest(rows, lid, i) && rows[i].env_id == id && rows[i].seq + 1 == next;
                    law_append_leaves_other_heads(rows, row, lid, i);
                    assert(is_newest(all, lid, i) && rows[i] == all[i]);
                }
            },
            None => {
                if is_head(all, lid, head, next) {
                    assert forall|i: int| 0 <= i < rows.len() implies (#[trigger] rows[i]).lid
                        != lid by {
                        assert(all[i] == rows[i]);
                    }
                }
                if is_head(rows, lid, head, next) {
                    assert forall|i: int| 0 <= i < all.len() implies (#[trigger] all[i]).lid
                        != lid by {
                        if i < n {
                            assert(all[i] == rows[i]);
                        }
                    }
                }
            },
        }
    }
}

/// Appending a record of one work does not move the head of another.
pub proof fn law_append_leaves_other_heads(
    rows: Seq<RecordModel>,
    row: RecordModel,
    lid: Seq<char>,
    i: int,
)
    requires
        row.lid != lid,
    ensures
        is_newest(rows, lid, i) <==> is_newest(rows.push(row), lid, i),
{
    let all = rows.push(row);
    if is_newest(rows, lid, i) {
        assert forall|j: int| 0 <= j < all.len() && (#[trigger] all[j]).lid == lid implies all[j].seq
            <= all[i].seq by {
            assert(all[j] == rows[j]);
        }
    }
    if is_newest(all, lid, i) {
        assert forall|j: int| 0 <= j < rows.len() && (#[trigger] rows[j]).lid == lid implies rows[j].seq
            <= rows[i].seq by {
            assert(all[j] == rows[j]);
        }
    }
}

proof fn lemma_rows_of_bound(rows: Seq<RecordModel>, lid: Seq<char>, next: int)
    requires
        is_free_from(rows, lid, next),
    ensures
        forall|i: int| 0 <= i < rows_of(rows, lid).len() ==> (#[trigger] rows_of(rows, lid)[i]).seq < next,
    decreases rows.len(),
{
    if rows.len() > 0 {
        let before = rows.drop_last();
        assert(is_free_from(before, lid, next)) by {
            assert forall|j: int| 0 <= j < before.len() && (#[trigger] before[j]).lid == lid implies before[j].seq
                < next by {
                assert(before[j] == rows[j]);
            }
        }
        lemma_rows_of_bound(before, lid, next);
        assert(rows[rows.len() - 1] == rows.last());
    }
}

/// The chain only grows: an appended record comes behind all records of its work, which
/// stay as they were, and the records of other works stay too.
pub proof fn law_chain_only_grows(rows: Seq<RecordModel>, row: RecordModel)
    requires
        is_free_from(rows, row.lid, row.seq),
    ensures
        chain_rows(rows.push(row), row.lid) == chain_rows(rows, row.lid).push(row),
        forall|lid: Seq<char>|
            lid != row.lid ==> #[trigger] chain_rows(rows.push(row), lid) == chain_rows(rows, lid),
{
    let all = rows.push(row);
    assert(all.drop_last() =~= rows);
    let mine = rows_of(rows, row.lid);
    lemma_rows_of_bound(rows, row.lid, row.seq);
    let keys = seqs_of(mine);
    assert forall|i: int| 0 <= i < keys.len() implies #[trigger] keys[i] < row.seq by {
        assert(keys[i] == mine[i].seq);
    }
    law_greatest_comes_last(keys, row.seq);
    law_ascending(keys);
    assert(rows_of(all, row.lid) == mine.push(row));
    assert(seqs_of(mine.push(row)) =~= keys.push(row.seq));
    let longer = chain_rows(all, row.lid);
    let shorter = chain_rows(rows, row.lid);
    assert forall|i: int| 0 <= i < longer.len() implies longer[i] == shorter.push(row)[i] by {
        if i < mine.len() {
            assert(0 <= ascending(keys)[i] < mine.len());
        }
    }
    assert(longer =~= shorter.push(row));
}

/// Chain order lists every record of the work, and only those, by ascending numbers.
pub proof fn law_chain_order(rows: Seq<RecordModel>, lid: Seq<char>)
    ensures
        chain_rows(rows, lid).len() == rows_of(rows, lid).len(),
        forall|i: int, j: int|
            0 <= i < j < chain_rows(rows, lid).len() ==> (#[trigger] chain_rows(rows, lid)[i]).seq
                <= (#[trigger] chain_rows(rows, lid)[j]).seq,
        forall|row: RecordModel|
            chain_rows(rows, lid).contains(row) <==> #[trigger] rows_of(rows, lid).contains(row),
{
    broadcast use vstd::seq_lib::group_to_multiset_ensures;

    let mine = rows_of(rows, lid);
    let keys = seqs_of(mine);
    let order = ascending(keys);
    law_ascending(keys);
    let out = chain_rows(rows, lid);
    assert forall|i: int, j: int| 0 <= i < j < out.len() implies (#[trigger] out[i]).seq <= (
    #[trigger] out[j]).seq by {
        assert(keys[order[i]] <= keys[order[j]]);
        assert(0 <= order[i] < mine.len() && 0 <= order[j] < mine.len());
    }
    assert forall|row: RecordModel| out.contains(row) <==> #[trigger] mine.contains(row) by {
        if out.contains(row) {
            let i = choose|i: int| 0 <= i < out.len() && out[i] == row;
            assert(0 <= order[i] < mine.len());
            assert(mine[order[i]] == row);
        }
        if mine.contains(row) {
            let p = choose|p: int| 0 <= p < mine.len() && mine[p] == row;
            let all = Seq::new(keys.len(), |i: int| i);
            assert(all[p] == p);
            assert(all.contains(p));
            assert(all.to_multiset().contains(p));
            assert(order.to_multiset().contains(p));
            assert(order.contains(p));
            let i = choose|i: int| 0 <= i < order.len() && order[i] == p;
            assert(out[i] == row);
        }
    }
}

/// A document that a record sealed is found by its hash, and the work and the record
/// that are found sealed it no later.
pub proof fn law_sealed_document_is_found(rows: Seq<RecordModel>, k: int, doc_sha256: Seq<char>)
    requires
        0 <= k < rows.len(),
        rows[k].doc_sha256 == Some(doc_sha256),
    ensures
        exists|i: int| #[trigger] is_earliest(rows, doc_sha256, i),
        forall|i: int| #[trigger] is_earliest(rows, doc_sha256, i) ==> rows[i].seq <= rows[k].seq,
    decreases rows.len(),
{
    let before = rows.drop_last();
    let n = rows.len() - 1;
    if exists|j: int| 0 <= j < n && (#[trigger] rows[j]).doc_sha256 == Some(doc_sha256) {
        let j = choose|j: int| 0 <= j < n && (#[trigger] rows[j]).doc_sha256 == Some(doc_sha256);
        assert(before[j] == rows[j]);
        law_sealed_document_is_found(before, j, doc_sha256);
        let i = choose|i: int| #[trigger] is_earliest(before, doc_sha256, i);
        assert forall|x: int|
            0 <= x < n && (#[trigger] rows[x]).doc_sha256 == Some(doc_sha256) implies before[i].seq
            <= rows[x].seq by {
            assert(before[x] == rows[x]);
        }
        if rows[n].doc_sha256 == Some(doc_sha256) && rows[n].seq < rows[i].seq {
            assert(is_earliest(rows, doc_sha256, n));
        } else {
            assert(is_earliest(rows, doc_sha256, i));
        }
    } else {
        assert(k == n);
        assert(is_earliest(rows, doc_sha256, n));
    }
}

// ── the ledger file ──────────────────────────────────

/// Whether a text can stand on a line of the ledger file: it is not blank, holds no
/// line feed, and neither begins nor ends with white space.
pub open spec fn is_line(s: Seq<char>) -> bool {
    &&& s.len() > 0
    &&& !s.contains('\n')
    &&& !is_white_space(s[0])
    &&& !is_white_space(s.last())
}

/// Adding text without a line feed extends the last line.
proof fn lemma_split_extend(a: Seq<char>, b: Seq<char>)
    requires
        !b.contains('\n'),
    ensures
        split_lines(a).len() >= 1,
        split_lines(a + b).len() == split_lines(a).len(),
        split_lines(a + b) == split_lines(a).update(
            split_lines(a).len() - 1,
            split_lines(a).last() + b,
        ),
    decreases b.len(),
{
    lemma_split_nonempty(a);
    let lines = split_lines(a);
    if b.len() == 0 {
        assert(a + b =~= a);
        assert(lines.last() + b =~= lines.last());
        assert(lines.update(lines.len() - 1, lines.last() + b) =~= lines);
    } else {
        let front = b.drop_last();
        assert forall|i: int| 0 <= i < front.len() implies front[i] != '\n' by {
            assert(b[i] == front[i]);
            assert(b.contains(b[i]));
        }
        lemma_split_extend(a, front);
        assert((a + b).drop_last() =~= a + front);
        assert((a + b).last() == b.last());
        assert(b.contains(b[b.len() - 1]));
        assert((lines.last() + front).push(b.last()) =~= lines.last() + b);
        assert(split_lines(a + b) =~= lines.update(lines.len() - 1, lines.last() + b));
    }
}

proof fn lemma_split_nonempty(a: Seq<char>)
    ensures
        split_lines(a).len() >= 1,
    decreases a.len(),
{
    if a.len() > 0 {
        lemma_split_nonempty(a.drop_last());
    }
}

/// Splitting what was joined gives the lines back.
proof fn lemma_split_joined(lines: Seq<Seq<char>>)
    requires
        lines.len() > 0,
        forall|i: int| 0 <= i < lines.len() ==> is_line(#[trigger] lines[i]),
    ensures
        split_lines(joined_lines(lines)) == lines,
    decreases lines.len(),
{
    let empty = Seq::<char>::empty();
    if lines.len() == 1 {
        assert(is_line(lines[0]));
        lemma_split_extend(empty, lines[0]);
        assert(empty + lines[0] =~= lines[0]);
        assert(split_lines(empty) =~= seq![empty]);
        assert(split_lines(joined_lines(lines)) =~= lines);
    } else {
        let front = lines.drop_last();
        assert forall|i: int| 0 <= i < front.len() implies is_line(#[trigger] front[i]) by {
            assert(is_line(lines[i]));
        }
        lemma_split_joined(front);
        let text = joined_lines(front) + seq!['\n'];
        assert(text.drop_last() =~= joined_lines(front));
        assert(split_lines(text) == front.push(empty));
        assert(is_line(lines[lines.len() - 1]));
        lemma_split_extend(text, lines.last());
        assert(empty + lines.last() =~= lines.last());
        assert(split_lines(text + lines.last()) =~= lines);
    }
}

proof fn lemma_numbered(lines: Seq<Seq<char>>)
    requires
        forall|i: int| 0 <= i < lines.len() ==> is_line(#[trigger] lines[i]),
    ensures
        numbered_lines(lines) == Seq::new(lines.len(), |i: int| ((i + 1) as nat, lines[i])),
    decreases lines.len(),
{
    if lines.len() > 0 {
        let front = lines.drop_last();
        assert forall|i: int| 0 <= i < front.len() implies is_line(#[trigger] front[i]) by {
            assert(is_line(lines[i]));
        }
        lemma_numbered(front);
        let last = lines[lines.len() - 1];
        assert(is_line(last));
        assert(trimmed_start(last) == last);
        assert(trimmed_end(last) == last);
        assert(numbered_lines(lines) =~= Seq::new(lines.len(), |i: int| ((i + 1) as nat, lines[i])));
    } else {
        assert(numbered_lines(lines) =~= Seq::new(lines.len(), |i: int| ((i + 1) as nat, lines[i])));
    }
}

/// What the offline verifier reads from a ledger file is what was written into it: the
/// same lines, in the same order, numbered from one.
pub proof fn law_ledger_file_reads_back(lines: Seq<Seq<char>>)
    requires
        forall|i: int| 0 <= i < lines.len() ==> is_line(#[trigger] lines[i]),
    ensures
        numbered_lines(split_lines(joined_lines(lines))) == Seq::new(
            lines.len(),
            |i: int| ((i + 1) as nat, lines[i]),
        ),
{
    if lines.len() > 0 {
        lemma_split_joined(lines);
        lemma_numbered(lines);
    } else {
        let empty = Seq::<char>::empty();
        assert(joined_lines(lines) =~= empty);
        assert(split_lines(empty) =~= seq![empty]);
        assert(seq![empty].drop_last() =~= Seq::<Seq<char>>::empty());
        assert(numbered_lines(seq![empty]) =~= numbered_lines(Seq::<Seq<char>>::empty()));
        assert(numbered_lines(seq![empty]) =~= Seq::new(
            lines.len(),
            |i: int| ((i + 1) as nat, lines[i]),
        ));
    }
}

// ── documents ────────────────────────────────────────

/// Bytes that are stored under their hash verify, and other bytes in their place do so
/// only if they have the same digest.
pub proof fn law_stored_document_verifies(bytes: Seq<u8>, read: Seq<u8>)
    ensures
        full_hash(content_hash(bytes)) == content_hash(bytes),
        cas_verdict(content_hash(bytes), Some(read)).get("ok"@) == Some(
            JsonModel::Bool(content_hash(read) == content_hash(bytes)),
        ),
{
    assert("sha256:"@.is_prefix_of(content_hash(bytes)));
    reveal_strlit("hash");
    reveal_strlit("present");
    reveal_strlit("recomputed");
    reveal_strlit("ok");
    let members = cas_verdict(content_hash(bytes), Some(read))->Object_0;
    assert("hash"@.len() == 4 && "present"@.len() == 7 && "recomputed"@.len() == 10 && "ok"@.len()
        == 2);
    lemma_find_member_at(members, "ok"@, 3);
}

/// The files after bytes were put among them: those of the bytes hold them now, whether
/// they had to be written or were there.
pub open spec fn files_with(
    files: Map<Seq<char>, Seq<u8>>,
    data_dir: Seq<char>,
    bytes: Seq<u8>,
) -> Map<Seq<char>, Seq<u8>> {
    match cas_file(data_dir, content_hash(bytes)) {
        Some(path) => files.insert(path, bytes),
        None => files,
    }
}

/// The files after several documents were put among them, one after the other.
pub open spec fn files_with_all(
    files: Map<Seq<char>, Seq<u8>>,
    data_dir: Seq<char>,
    documents: Seq<Seq<u8>>,
) -> Map<Seq<char>, Seq<u8>>
    decreases documents.len(),
{
    if documents.len() == 0 {
        files
    } else {
        files_with(
            files_with_all(files, data_dir, documents.drop_last()),
            data_dir,
            documents.last(),
        )
    }
}

/// What is read under a hash.
pub open spec fn file_under(
    files: Map<Seq<char>, Seq<u8>>,
    data_dir: Seq<char>,
    hash: Seq<char>,
) -> Option<Seq<u8>> {
    match cas_file(data_dir, hash) {
        Some(path) => if files.contains_key(path) {
            Some(files[path])
        } else {
            None
        },
        None => None,
    }
}

/// A document's file has the digest in hexadecimal as its name, with and without the
/// prefix of the hash.
proof fn lemma_file_of(data_dir: Seq<char>, bytes: Seq<u8>)
    requires
        sha256_digest(bytes).len() == 32,
    ensures
        ({
            let hex = hex_text(sha256_digest(bytes));
            let path = joined_path(cas_dir_path(data_dir), hex);
            &&& cas_file(data_dir, content_hash(bytes)) == Some(path)
            &&& cas_file(data_dir, hex) == Some(path)
            &&& hex.len() == 64
            &&& is_hex_digit(hex[0])
        }),
{
    let hex = hex_text(sha256_digest(bytes));
    law_hex_round_trip(sha256_digest(bytes));
    assert("sha256:"@.is_prefix_of("sha256:"@ + hex));
    assert(("sha256:"@ + hex).skip("sha256:"@.len() as int) =~= hex);
    reveal_strlit("sha256:");
    assert("sha256:"@[0] == 's');
    assert(is_hex_digit(hex[0]));
    assert(!"sha256:"@.is_prefix_of(hex));
}

/// A joined path ends in the part that was joined.
proof fn lemma_joined_end(base: Seq<char>, part: Seq<char>)
    requires
        part.len() > 0,
        part[0] != '/',
    ensures
        joined_path(base, part).len() >= part.len(),
        joined_path(base, part).skip(joined_path(base, part).len() - part.len()) == part,
{
    let path = joined_path(base, part);
    assert(path.skip(path.len() - part.len()) =~= part);
}

/// Documents with different digests are kept in different files.
pub proof fn law_documents_have_their_own_files(data_dir: Seq<char>, a: Seq<u8>, b: Seq<u8>)
    requires
        sha256_digest(a).len() == 32,
        sha256_digest(b).len() == 32,
        sha256_digest(a) != sha256_digest(b),
    ensures
        cas_file(data_dir, content_hash(a)) is Some,
        cas_file(data_dir, content_hash(b)) is Some,
        cas_file(data_dir, content_hash(a)) != cas_file(data_dir, content_hash(b)),
{
    lemma_file_of(data_dir, a);
    lemma_file_of(data_dir, b);
    let x = hex_text(sha256_digest(a));
    let y = hex_text(sha256_digest(b));
    law_hex_round_trip(sha256_digest(a));
    law_hex_round_trip(sha256_digest(b));
    lemma_joined_end(cas_dir_path(data_dir), x);
    lemma_joined_end(cas_dir_path(data_dir), y);
    assert(x != y);
}

/// A document that was put among the files is read back under its hash, with and without
/// the prefix, also after any other documents were put there; a digest has 32 bytes.
pub proof fn law_stored_document_is_read_back(
    files: Map<Seq<char>, Seq<u8>>,
    data_dir: Seq<char>,
    bytes: Seq<u8>,
    others: Seq<Seq<u8>>,
)
    requires
        sha256_digest(bytes).len() == 32,
        forall|i: int|
            0 <= i < others.len() ==> sha256_digest(#[trigger] others[i]).len() == 32 && (
            sha256_digest(others[i]) != sha256_digest(bytes) || others[i] == bytes),
    ensures
        ({
            let after = files_with_all(files_with(files, data_dir, bytes), data_dir, others);
            &&& file_under(after, data_dir, content_hash(bytes)) == Some(bytes)
            &&& file_under(after, data_dir, hex_text(sha256_digest(bytes))) == Some(bytes)
        }),
    decreases others.len(),
{
    lemma_file_of(data_dir, bytes);
    if others.len() > 0 {
        let front = others.drop_last();
        let last = others[others.len() - 1];
        assert forall|i: int| 0 <= i < front.len() implies sha256_digest(
            #[trigger] front[i],
        ).len() == 32 && (sha256_digest(front[i]) != sha256_digest(bytes) || front[i]
            == bytes) by {
            assert(others[i] == front[i]);
        }
        law_stored_document_is_read_back(files, data_dir, bytes, front);
        lemma_file_of(data_dir, last);
        if last != bytes {
            law_documents_have_their_own_files(data_dir, bytes, last);
        }
    }
}

// ── a version from upload to certificate ─────────────

/// The envelope of a version, sealed with its content id, id and signature.
pub open spec fn version_envelope(
    lid: Seq<char>,
    form: FormModel,
    prev: Option<Seq<char>>,
    now: Seq<char>,
    pubkey: Seq<char>,
    cid: Seq<char>,
    id: Seq<char>,
    sig: Seq<char>,
) -> EnvelopeModel {
    EnvelopeModel {
        cid,
        id,
        sig,
        ..blank_envelope(
            lid,
            prev,
            "doc"@,
            doc_payload(form, content_hash(form.bytes), prev),
            now,
            human_actor_model(lid, pubkey),
        )
    }
}

/// The payload of a version names the document by its hash, and the record that it
/// supersedes.
pub proof fn law_version_names_its_document(
    form: FormModel,
    doc_hash: Seq<char>,
    prev: Option<Seq<char>>,
)
    ensures
        doc_payload(form, doc_hash, prev).get("doc"@) matches Some(doc) && doc.get("sha256"@) == Some(
            JsonModel::Text(doc_hash),
        ) && doc.get("supersedes"@) == Some(optional_text_model(prev)),
{
    reveal_strlit("title");
    reveal_strlit("doc_type");
    reveal_strlit("sha256");
    reveal_strlit("size");
    reveal_strlit("mime");
    reveal_strlit("filename");
    reveal_strlit("note");
    reveal_strlit("supersedes");
    assert("title"@.len() == 5 && "doc_type"@.len() == 8 && "sha256"@.len() == 6 && "size"@.len()
        == 4 && "mime"@.len() == 4 && "filename"@.len() == 8 && "note"@.len() == 4
        && "supersedes"@.len() == 10);
    let outer = doc_payload(form, doc_hash, prev)->Object_0;
    lemma_find_member_at(outer, "doc"@, 0);
    let members = outer[0].value->Object_0;
    lemma_find_member_at(members, "sha256"@, 2);
    lemma_find_member_at(members, "supersedes"@, 7);
}

/// Adding a version to an intact chain: the chain stays intact, the record is the new
/// head and comes last in chain order, it is shown as a version of the work, and its
/// document is found by its hash and by the id of the record.
pub proof fn law_added_version_stands(
    rows: Seq<RecordModel>,
    chain: Seq<ExaminedModel>,
    lid: Seq<char>,
    seq: int,
    form: FormModel,
    now: Seq<char>,
    pubkey: Seq<char>,
    cid: Seq<char>,
    id: Seq<char>,
    sig: Seq<char>,
    env_json: Seq<char>,
)
    requires
        chain_intact(chain),
        is_free_from(rows, lid, seq),
    ensures
        ({
            let env = version_envelope(lid, form, head_id(chain), now, pubkey, cid, id, sig);
            let record = ExaminedModel { env, cid, id, sig_ok: true };
            let row = record_row(lid, seq, env, Some(content_hash(form.bytes)), env_json);
            &&& chain_intact(chain.push(record))
            &&& head_id(chain.push(record)) == Some(id)
            &&& versions_json(chain.push(record)) == versions_json(chain).push(
                version_json(chain.len() as int, env),
            )
            &&& is_newest(rows.push(row), lid, rows.len() as int)
            &&& rows.push(row)[rows.len() as int].env_id == id
            &&& chain_rows(rows.push(row), lid) == chain_rows(rows, lid).push(row)
            &&& exists|i: int| #[trigger]
                is_earliest(rows.push(row), content_hash(form.bytes), i)
            &&& answers(rows.push(row), SubjectModel::Record(id), rows.len() as int)
        }),
{
    let env = version_envelope(lid, form, head_id(chain), now, pubkey, cid, id, sig);
    let record = ExaminedModel { env, cid, id, sig_ok: true };
    let row = record_row(lid, seq, env, Some(content_hash(form.bytes)), env_json);
    law_append_keeps_intact(chain, record);
    law_appended_record_is_head(rows, row);
    law_chain_only_grows(rows, row);
    assert(rows.push(row)[rows.len() as int] == row);
    law_sealed_document_is_found(rows.push(row), rows.len() as int, content_hash(form.bytes));
    assert(chain.push(record).drop_last() =~= chain);
}

/// The first record with an id is found by it.
proof fn lemma_record_at(records: Seq<ExaminedModel>, id: Seq<char>, i: int)
    requires
        0 <= i < records.len(),
        records[i].env.id == id,
        forall|j: int| 0 <= j < i ==> (#[trigger] records[j]).env.id != id,
    ensures
        record_with_id(records, id) == Some(records[i].env),
    decreases records.len(),
{
    if i > 0 {
        assert(records[0].env.id != id);
        let rest = records.drop_first();
        assert forall|j: int| 0 <= j < i - 1 implies (#[trigger] rest[j]).env.id != id by {
            assert(rest[j] == records[j + 1]);
        }
        lemma_record_at(rest, id, i - 1);
    }
}

/// The certificate on a document states when it was sealed and by which key, as its
/// record says, and whether the chain is intact.
pub proof fn law_certificate_speaks_of_its_record(
    doc_hash: Seq<char>,
    lid: Seq<char>,
    records: Seq<ExaminedModel>,
    anchors: Seq<AnchorModel>,
    i: int,
)
    requires
        0 <= i < records.len(),
        forall|j: int|
            0 <= j < i ==> (#[trigger] records[j]).env.id != records[i].env.id,
    ensures
        ({
            let certificate = certificate_json(doc_hash, lid, records[i].env.id, records, anchors);
            &&& certificate.get("found"@) == Some(JsonModel::Bool(true))
            &&& certificate.get("sha256"@) == Some(JsonModel::Text(doc_hash))
            &&& certificate.get("sealed_at"@) == Some(JsonModel::Text(records[i].env.ts))
            &&& certificate.get("signer_key"@) == Some(JsonModel::Text(records[i].env.actor.key))
            &&& certificate.get("chain_ok"@) == Some(JsonModel::Bool(chain_intact(records)))
        }),
{
    reveal_strlit("found");
    reveal_strlit("sha256");
    reveal_strlit("lid");
    reveal_strlit("env_id");
    reveal_strlit("sealed_at");
    reveal_strlit("signer_key");
    reveal_strlit("doc");
    reveal_strlit("chain_ok");
    assert("found"@.len() == 5 && "sha256"@.len() == 6 && "lid"@.len() == 3 && "env_id"@.len() == 6
        && "sealed_at"@.len() == 9 && "signer_key"@.len() == 10 && "doc"@.len() == 3
        && "chain_ok"@.len() == 8);
    lemma_record_at(records, records[i].env.id, i);
    let members = certificate_json(
        doc_hash,
        lid,
        records[i].env.id,
        records,
        anchors,
    )->Object_0;
    lemma_find_member_at(members, "found"@, 0);
    lemma_find_member_at(members, "sha256"@, 1);
    lemma_find_member_at(members, "sealed_at"@, 4);
    lemma_find_member_at(members, "signer_key"@, 5);
    lemma_find_member_at(members, "chain_ok"@, 7);
}

// ── what rows hold ───────────────────────────────────

/// The row of a record holds the ids, the link, the kind and the time of its envelope, the
/// work, the number and the document that it was given, and the envelope written out.
pub proof fn law_row_of_a_record(
    lid: Seq<char>,
    seq: int,
    env: EnvelopeModel,
    doc_sha256: Option<Seq<char>>,
    env_json: Seq<char>,
)
    ensures
        ({
            let row = record_row(lid, seq, env, doc_sha256, env_json);
            &&& row.lid == lid
            &&& row.seq == seq
            &&& row.env_id == env.id
            &&& row.prev == env.prev
            &&& row.cid == env.cid
            &&& row.kind == env.kind
            &&& row.doc_sha256 == doc_sha256
            &&& row.ts == env.ts
            &&& row.env_json == env_json
        }),
{
}

/// The head of a work is the id of a row of it that no other row of it exceeds in number,
/// together with the number after that; a work without rows has no head and begins at
/// zero. A number is free when it is above those of all rows of the work.
pub proof fn law_what_a_head_is(
    rows: Seq<RecordModel>,
    lid: Seq<char>,
    id: Seq<char>,
    next: int,
)
    ensures
        is_head(rows, lid, Some(id), next) <==> exists|i: int|
            0 <= i < rows.len() && (#[trigger] rows[i]).lid == lid && rows[i].env_id == id
                && rows[i].seq + 1 == next && forall|j: int|
                0 <= j < rows.len() && (#[trigger] rows[j]).lid == lid ==> rows[j].seq < next,
        is_head(rows, lid, None, next) <==> next == 0 && forall|j: int|
            0 <= j < rows.len() ==> (#[trigger] rows[j]).lid != lid,
        is_free_from(rows, lid, next) <==> forall|j: int|
            0 <= j < rows.len() && (#[trigger] rows[j]).lid == lid ==> rows[j].seq < next,
{
    if is_head(rows, lid, Some(id), next) {
        let i = choose|i: int| #[trigger]
            is_newest(rows, lid, i) && rows[i].env_id == id && rows[i].seq + 1 == next;
        assert(rows[i].lid == lid);
    }
    if exists|i: int|
        0 <= i < rows.len() && (#[trigger] rows[i]).lid == lid && rows[i].env_id == id && rows[i].seq
            + 1 == next && forall|j: int|
            0 <= j < rows.len() && (#[trigger] rows[j]).lid == lid ==> rows[j].seq < next {
        let i = choose|i: int|
            0 <= i < rows.len() && (#[trigger] rows[i]).lid == lid && rows[i].env_id == id
                && rows[i].seq + 1 == next && forall|j: int|
                0 <= j < rows.len() && (#[trigger] rows[j]).lid == lid ==> rows[j].seq < next;
        assert(is_newest(rows, lid, i));
    }
}

/// How the rows of a work grow: by each row of the work, and by no other.
pub proof fn law_rows_of_a_work_grow(rows: Seq<RecordModel>, row: RecordModel, lid: Seq<char>)
    ensures
        rows_of(Seq::<RecordModel>::empty(), lid).len() == 0,
        row.lid == lid ==> rows_of(rows.push(row), lid) == rows_of(rows, lid).push(row),
        row.lid != lid ==> rows_of(rows.push(row), lid) == rows_of(rows, lid),
{
    assert(rows.push(row).drop_last() =~= rows);
}

/// The ledger file of rows: nothing for none, the text of a single row, and otherwise one
/// more line behind a line feed.
pub proof fn law_ledger_file_grows(rows: Seq<RecordModel>, row: RecordModel)
    ensures
        joined_lines(json_lines(Seq::<RecordModel>::empty())).len() == 0,
        rows.len() == 0 ==> joined_lines(json_lines(rows.push(row))) == row.env_json,
        rows.len() > 0 ==> joined_lines(json_lines(rows.push(row))) == joined_lines(
            json_lines(rows),
        ) + "\n"@ + row.env_json,
{
    let lines = json_lines(rows.push(row));
    assert(lines.drop_last() =~= json_lines(rows));
    assert(lines[lines.len() - 1] == row.env_json);
    reveal_strlit("\n");
    assert("\n"@ =~= seq!['\n']);
    assert(json_lines(Seq::<RecordModel>::empty()) =~= seq![]);
}

/// What can be read of a list grows by each envelope, and not by what cannot be read.
pub proof fn law_readable_grows(parsed: Seq<Option<EnvelopeModel>>, env: EnvelopeModel)
    ensures
        readable(Seq::<Option<EnvelopeModel>>::empty()).len() == 0,
        readable(parsed.push(Some(env))) == readable(parsed).push(env),
        readable(parsed.push(None)) == readable(parsed),
{
    assert(parsed.push(Some(env)).drop_last() =~= parsed);
    assert(parsed.push(None).drop_last() =~= parsed);
}

/// The hash of a document is `sha256:` and its digest in hexadecimal, from which the digest
/// can be read again.
pub proof fn law_hash_of_a_document(bytes: Seq<u8>)
    ensures
        content_hash(bytes) == "sha256:"@ + hex_text(sha256_digest(bytes)),
        hex_bytes(bare_hash(content_hash(bytes))) == sha256_digest(bytes),
{
    let hex = hex_text(sha256_digest(bytes));
    law_hex_round_trip(sha256_digest(bytes));
    assert("sha256:"@.is_prefix_of("sha256:"@ + hex));
    assert(("sha256:"@ + hex).skip("sha256:"@.len() as int) =~= hex);
}

} // verus!
