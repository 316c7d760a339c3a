//! What holds of the table of anchors over several calls.

use crate::api::{next_waiting, upgraded_row};
use crate::order::{
    ascending, law_ascending, law_every_position_is_listed, law_greatest_comes_last,
};
use crate::store::{
    anchor_ids, anchors_of, confirmed, is_pending, pending_of, recorded, shown,
    shown_anchors, AnchorModel, AnchorRowModel, NewAnchorModel,
};
use vstd::prelude::*;

verus! {

// ── recording ────────────────────────────────────────

proof fn lemma_anchors_of_bound(rows: Seq<AnchorRowModel>, lid: Seq<char>, id: int)
    requires
        forall|j: int| 0 <= j < rows.len() ==> (#[trigger] rows[j]).id < id,
    ensures
        forall|i: int|
            0 <= i < anchors_of(rows, lid).len() ==> (#[trigger] anchors_of(rows, lid)[i]).id < id,
    decreases rows.len(),
{
    if rows.len() > 0 {
        let before = rows.drop_last();
        assert forall|j: int| 0 <= j < before.len() implies (#[trigger] before[j]).id < id by {
            assert(before[j] == rows[j]);
        }
        lemma_anchors_of_bound(before, lid, id);
        assert(rows[rows.len() - 1] == rows.last());
    }
}

/// An anchor that is recorded under a number above all others comes last among those
/// that are shown of its work, not confirmed yet; nothing is dropped, and what is shown
/// of other works stays.
pub proof fn law_recorded_anchor_comes_last(
    rows: Seq<AnchorRowModel>,
    new: NewAnchorModel,
    id: int,
)
    requires
        forall|j: int| 0 <= j < rows.len() ==> (#[trigger] rows[j]).id < id,
    ensures
        shown_anchors(rows.push(recorded(new, id)), new.lid) == shown_anchors(rows, new.lid).push(
            shown(recorded(new, id)),
        ),
        shown(recorded(new, id)).confirmed_at is None,
        forall|lid: Seq<char>|
            lid != new.lid ==> #[trigger] shown_anchors(rows.push(recorded(new, id)), lid)
                == shown_anchors(rows, lid),
{
    let row = recorded(new, id);
    let all = rows.push(row);
    assert(all.drop_last() =~= rows);
    let mine = anchors_of(rows, new.lid);
    lemma_anchors_of_bound(rows, new.lid, id);
    let keys = anchor_ids(mine);
    assert forall|i: int| 0 <= i < keys.len() implies #[trigger] keys[i] < id by {
        assert(keys[i] == mine[i].id);
    }
    law_greatest_comes_last(keys, id);
    law_ascending(keys);
    assert(anchors_of(all, new.lid) == mine.push(row));
    assert(anchor_ids(mine.push(row)) =~= keys.push(id));
    let longer = shown_anchors(all, new.lid);
    let shorter = shown_anchors(rows, new.lid);
    assert forall|i: int| 0 <= i < longer.len() implies longer[i] == shorter.push(shown(row))[i] by {
        if i < mine.len() {
            assert(0 <= ascending(keys)[i] < mine.len());
        }
    }
    assert(longer =~= shorter.push(shown(row)));
}

// ── waiting ──────────────────────────────────────────

/// A confirmed anchor waits no more: it has the status, the reference and the time of its
/// confirmation, and it still is the anchor of the same head.
pub proof fn law_confirmed_waits_no_more(
    row: AnchorRowModel,
    reference: Seq<char>,
    now: Seq<char>,
    kind: Seq<char>,
)
    ensures
        !is_pending(confirmed(row, reference, now), kind),
        confirmed(row, reference, now).id == row.id,
        confirmed(row, reference, now).lid == row.lid,
        confirmed(row, reference, now).head_id == row.head_id,
        confirmed(row, reference, now).kind == row.kind,
        confirmed(row, reference, now).created_at == row.created_at,
        confirmed(row, reference, now).status == "confirmed"@,
        confirmed(row, reference, now).reference == reference,
        confirmed(row, reference, now).confirmed_at == Some(now),
{
    reveal_strlit("confirmed");
    reveal_strlit("pending");
    assert("confirmed"@.len() != "pending"@.len());
}

/// Exactly the anchors of the kind that wait are listed as waiting.
pub proof fn law_pending_lists_the_waiting(
    rows: Seq<AnchorRowModel>,
    kind: Seq<char>,
    entry: (int, Seq<char>, Seq<char>, Seq<char>),
)
    ensures
        pending_of(rows, kind).contains(entry) <==> exists|k: int|
            0 <= k < rows.len() && is_pending(#[trigger] rows[k], kind) && entry == (
                rows[k].id,
                rows[k].lid,
                rows[k].head_id,
                rows[k].reference,
            ),
    decreases rows.len(),
{
    if rows.len() > 0 {
        let before = rows.drop_last();
        let n = rows.len() - 1;
        law_pending_lists_the_waiting(before, kind, entry);
        let shorter = pending_of(before, kind);
        let list = pending_of(rows, kind);
        if list.contains(entry) {
            let i = choose|i: int| 0 <= i < list.len() && list[i] == entry;
            if i < shorter.len() {
                assert(shorter[i] == entry);
                let k = choose|k: int|
                    0 <= k < before.len() && is_pending(#[trigger] before[k], kind) && entry == (
                        before[k].id,
                        before[k].lid,
                        before[k].head_id,
                        before[k].reference,
                    );
                assert(rows[k] == before[k]);
            } else {
                assert(is_pending(rows[n], kind));
            }
        }
        if exists|k: int|
            0 <= k < rows.len() && is_pending(#[trigger] rows[k], kind) && entry == (
                rows[k].id,
                rows[k].lid,
                rows[k].head_id,
                rows[k].reference,
            ) {
            let k = choose|k: int|
                0 <= k < rows.len() && is_pending(#[trigger] rows[k], kind) && entry == (
                    rows[k].id,
                    rows[k].lid,
                    rows[k].head_id,
                    rows[k].reference,
                );
            if k == n {
                assert(list[list.len() - 1] == entry);
            } else {
                assert(before[k] == rows[k]);
                let i = choose|i: int| 0 <= i < shorter.len() && shorter[i] == entry;
                assert(list[i] == entry);
            }
        }
    }
}

/// The waiting anchors of two tables, one behind the other.
proof fn lemma_pending_concat(a: Seq<AnchorRowModel>, b: Seq<AnchorRowModel>, kind: Seq<char>)
    ensures
        pending_of(a + b, kind) == pending_of(a, kind) + pending_of(b, kind),
    decreases b.len(),
{
    if b.len() == 0 {
        assert(a + b =~= a);
        assert(pending_of(a, kind) + pending_of(b, kind) =~= pending_of(a, kind));
    } else {
        lemma_pending_concat(a, b.drop_last(), kind);
        assert((a + b).drop_last() =~= a + b.drop_last());
        assert((a + b).last() == b.last());
        assert(pending_of(a + b, kind) =~= pending_of(a, kind) + pending_of(b, kind));
    }
}

/// When an anchor that waits is confirmed, the list of those that wait loses exactly its
/// entry; the others keep their places.
pub proof fn law_confirmation_leaves_the_list(
    rows: Seq<AnchorRowModel>,
    kind: Seq<char>,
    k: int,
    reference: Seq<char>,
    now: Seq<char>,
)
    requires
        0 <= k < rows.len(),
        is_pending(rows[k], kind),
    ensures
        ({
            let at = pending_of(rows.take(k), kind).len() as int;
            &&& 0 <= at < pending_of(rows, kind).len()
            &&& pending_of(rows, kind)[at] == (
                rows[k].id,
                rows[k].lid,
                rows[k].head_id,
                rows[k].reference,
            )
            &&& pending_of(rows.update(k, confirmed(rows[k], reference, now)), kind) == pending_of(
                rows,
                kind,
            ).remove(at)
        }),
{
    let row = rows[k];
    let next = confirmed(row, reference, now);
    let front = rows.take(k);
    let back = rows.skip(k + 1);
    law_confirmed_waits_no_more(row, reference, now, kind);
    assert(rows =~= front + seq![row] + back);
    assert(rows.update(k, next) =~= front + seq![next] + back);
    lemma_pending_concat(front + seq![row], back, kind);
    lemma_pending_concat(front, seq![row], kind);
    lemma_pending_concat(front + seq![next], back, kind);
    lemma_pending_concat(front, seq![next], kind);
    let none = Seq::<AnchorRowModel>::empty();
    assert(seq![row].drop_last() =~= none);
    assert(seq![next].drop_last() =~= none);
    assert(pending_of(none, kind) =~= seq![]);
    let entry = (row.id, row.lid, row.head_id, row.reference);
    assert(pending_of(seq![row], kind) =~= seq![entry]);
    assert(pending_of(seq![next], kind) =~= seq![]);
    let at = pending_of(front, kind).len() as int;
    assert(pending_of(rows.update(k, next), kind) =~= pending_of(rows, kind).remove(at));
}

/// The table after the anchor with that number was confirmed.
pub open spec fn confirmed_table(
    rows: Seq<AnchorRowModel>,
    id: int,
    reference: Seq<char>,
    now: Seq<char>,
) -> Seq<AnchorRowModel> {
    rows.map_values(
        |row: AnchorRowModel|
            if row.id == id {
                confirmed(row, reference, now)
            } else {
                row
            },
    )
}

/// Whether no two anchors have the same number.
pub open spec fn ids_distinct(rows: Seq<AnchorRowModel>) -> bool {
    forall|i: int, j: int|
        0 <= i < j < rows.len() ==> (#[trigger] rows[i]).id != (#[trigger] rows[j]).id
}

/// Whatever anchor is confirmed, of whatever kind and status, the list of those that wait
/// keeps exactly the entries of the other numbers, in their order.
pub proof fn law_confirming_keeps_the_others(
    rows: Seq<AnchorRowModel>,
    kind: Seq<char>,
    id: int,
    reference: Seq<char>,
    now: Seq<char>,
)
    ensures
        pending_of(confirmed_table(rows, id, reference, now), kind) == pending_of(
            rows,
            kind,
        ).filter(|entry: (int, Seq<char>, Seq<char>, Seq<char>)| entry.0 != id),
    decreases rows.len(),
{
    let keep = |entry: (int, Seq<char>, Seq<char>, Seq<char>)| entry.0 != id;
    let table = confirmed_table(rows, id, reference, now);
    reveal(Seq::filter);
    if rows.len() > 0 {
        let before = rows.drop_last();
        let row = rows.last();
        law_confirming_keeps_the_others(before, kind, id, reference, now);
        law_confirmed_waits_no_more(row, reference, now, kind);
        assert(table.drop_last() =~= confirmed_table(before, id, reference, now));
        let list = pending_of(rows, kind);
        if is_pending(row, kind) {
            assert(list.drop_last() =~= pending_of(before, kind));
            assert(list.last().0 == row.id);
        }
        assert(pending_of(table, kind) =~= list.filter(keep));
    } else {
        assert(pending_of(table, kind) =~= pending_of(rows, kind).filter(keep));
    }
}

/// With distinct numbers, confirming one anchor changes its row alone, and every anchor
/// that waits is listed once.
pub proof fn law_confirming_changes_one_row(
    rows: Seq<AnchorRowModel>,
    kind: Seq<char>,
    k: int,
    reference: Seq<char>,
    now: Seq<char>,
)
    requires
        ids_distinct(rows),
        0 <= k < rows.len(),
    ensures
        confirmed_table(rows, rows[k].id, reference, now) == rows.update(
            k,
            confirmed(rows[k], reference, now),
        ),
        pending_of(rows, kind).no_duplicates(),
{
    let table = confirmed_table(rows, rows[k].id, reference, now);
    assert forall|i: int| 0 <= i < rows.len() implies table[i] == rows.update(
        k,
        confirmed(rows[k], reference, now),
    )[i] by {
        if i < k {
            assert(rows[i].id != rows[k].id);
        } else if k < i {
            assert(rows[k].id != rows[i].id);
        }
    }
    assert(table =~= rows.update(k, confirmed(rows[k], reference, now)));
    lemma_listed_once(rows, kind);
}

proof fn lemma_listed_once(rows: Seq<AnchorRowModel>, kind: Seq<char>)
    requires
        ids_distinct(rows),
    ensures
        pending_of(rows, kind).no_duplicates(),
    decreases rows.len(),
{
    if rows.len() > 0 {
        let before = rows.drop_last();
        let n = rows.len() - 1;
        assert forall|i: int, j: int| 0 <= i < j < before.len() implies (#[trigger] before[i]).id
            != (#[trigger] before[j]).id by {
            assert(before[i] == rows[i] && before[j] == rows[j]);
        }
        lemma_listed_once(before, kind);
        let shorter = pending_of(before, kind);
        let list = pending_of(rows, kind);
        assert forall|i: int| 0 <= i < shorter.len() implies (#[trigger] shorter[i]).0
            != rows[n].id by {
            assert(shorter.contains(shorter[i]));
            law_pending_lists_the_waiting(before, kind, shorter[i]);
            let k = choose|k: int|
                0 <= k < before.len() && is_pending(#[trigger] before[k], kind) && shorter[i] == (
                    before[k].id,
                    before[k].lid,
                    before[k].head_id,
                    before[k].reference,
                );
            assert(rows[k].id != rows[n].id);
        }
        assert forall|i: int, j: int| 0 <= i < list.len() && 0 <= j < list.len() && i
            != j implies list[i] != list[j] by {
            if i < shorter.len() {
                assert(list[i] == shorter[i]);
            }
            if j < shorter.len() {
                assert(list[j] == shorter[j]);
            }
        }
    }
}

// ── the walk of the upgrades ─────────────────────────

/// The table at the end of a walk that stands at position `at`. `yes` and `now` are what
/// the check of each position says, and when.
pub open spec fn walked(
    rows: Seq<AnchorRowModel>,
    at: int,
    yes: spec_fn(int) -> bool,
    now: spec_fn(int) -> Seq<char>,
) -> Seq<AnchorRowModel>
    decreases rows.len() - at,
{
    if at < 0 || at >= rows.len() {
        rows
    } else {
        let next = next_waiting(rows, at + 1);
        proof {
            lemma_next_waiting(rows, at + 1);
        }
        walked(rows.update(at, upgraded_row(rows[at], yes(at), now(at))), next, yes, now)
    }
}

/// The walk goes on at an anchor that waits, or ends, and passes over none that waits.
pub proof fn lemma_next_waiting(rows: Seq<AnchorRowModel>, from: int)
    requires
        0 <= from <= rows.len(),
    ensures
        from <= next_waiting(rows, from) <= rows.len(),
        next_waiting(rows, from) < rows.len() ==> is_pending(
            rows[next_waiting(rows, from)],
            "ots"@,
        ),
        forall|i: int|
            from <= i < next_waiting(rows, from) ==> !is_pending(#[trigger] rows[i], "ots"@),
    decreases rows.len() - from,
{
    if from < rows.len() && !is_pending(rows[from], "ots"@) {
        lemma_next_waiting(rows, from + 1);
    }
}

proof fn lemma_next_waiting_same(a: Seq<AnchorRowModel>, b: Seq<AnchorRowModel>, from: int)
    requires
        0 <= from <= a.len(),
        a.len() == b.len(),
        forall|i: int| from <= i < a.len() ==> a[i] == b[i],
    ensures
        next_waiting(a, from) == next_waiting(b, from),
    decreases a.len() - from,
{
    if from < a.len() {
        assert(a[from] == b[from]);
        lemma_next_waiting_same(a, b, from + 1);
    }
}

proof fn lemma_walked(
    rows: Seq<AnchorRowModel>,
    from: int,
    yes: spec_fn(int) -> bool,
    now: spec_fn(int) -> Seq<char>,
)
    requires
        0 <= from <= rows.len(),
    ensures
        walked(rows, next_waiting(rows, from), yes, now) == Seq::new(
            rows.len(),
            |i: int|
                if i < from {
                    rows[i]
                } else {
                    upgraded_row(rows[i], yes(i), now(i))
                },
        ),
    decreases rows.len() - from,
{
    let at = next_waiting(rows, from);
    lemma_next_waiting(rows, from);
    let wanted = Seq::new(
        rows.len(),
        |i: int|
            if i < from {
                rows[i]
            } else {
                upgraded_row(rows[i], yes(i), now(i))
            },
    );
    if at < rows.len() {
        let later = rows.update(at, upgraded_row(rows[at], yes(at), now(at)));
        lemma_next_waiting(rows, at + 1);
        lemma_next_waiting_same(rows, later, at + 1);
        lemma_walked(later, at + 1, yes, now);
        let end = walked(later, next_waiting(later, at + 1), yes, now);
        assert forall|i: int| 0 <= i < rows.len() implies end[i] == wanted[i] by {
            if from <= i < at {
                assert(!is_pending(rows[i], "ots"@));
            }
        }
        assert(end =~= wanted);
    } else {
        assert forall|i: int| 0 <= i < rows.len() implies rows[i] == wanted[i] by {
            if from <= i {
                assert(!is_pending(rows[i], "ots"@));
            }
        }
        assert(rows =~= wanted);
    }
}

/// A whole walk confirms exactly the OpenTimestamps anchors that waited and whose check
/// says yes. Every other row stays, and no check that fails stops the others.
pub proof fn law_walk_confirms_exactly_the_attested(
    rows: Seq<AnchorRowModel>,
    yes: spec_fn(int) -> bool,
    now: spec_fn(int) -> Seq<char>,
)
    ensures
        walked(rows, next_waiting(rows, 0), yes, now).len() == rows.len(),
        forall|i: int|
            0 <= i < rows.len() ==> #[trigger] walked(rows, next_waiting(rows, 0), yes, now)[i] == (
            if is_pending(rows[i], "ots"@) && yes(i) {
                confirmed(rows[i], "bitcoin"@, now(i))
            } else {
                rows[i]
            }),
{
    lemma_walked(rows, 0, yes, now);
}

// ── what is shown ────────────────────────────────────

/// Whether an entry says of a row what is known of it.
pub open spec fn tells(entry: AnchorModel, row: AnchorRowModel) -> bool {
    &&& entry.kind == row.kind
    &&& entry.reference == row.reference
    &&& entry.status == row.status
    &&& entry.created_at == row.created_at
    &&& entry.confirmed_at == row.confirmed_at
}

/// An anchor waits exactly when it has the kind that is asked for and is pending.
pub proof fn law_what_waits(row: AnchorRowModel, kind: Seq<char>)
    ensures
        is_pending(row, kind) <==> row.kind == kind && row.status == "pending"@,
{
}

/// A recorded anchor is kept as it was given, under its number, and not confirmed.
pub proof fn law_recorded_as_given(new: NewAnchorModel, id: int)
    ensures
        recorded(new, id).id == id,
        recorded(new, id).lid == new.lid,
        recorded(new, id).head_id == new.head_id,
        recorded(new, id).kind == new.kind,
        recorded(new, id).reference == new.reference,
        recorded(new, id).status == new.status,
        recorded(new, id).created_at == new.created_at,
        recorded(new, id).confirmed_at is None,
{
}

/// How the anchors of a work grow: by each row of the work, and by no other.
pub proof fn law_anchors_of_a_work_grow(
    rows: Seq<AnchorRowModel>,
    row: AnchorRowModel,
    lid: Seq<char>,
)
    ensures
        anchors_of(Seq::<AnchorRowModel>::empty(), lid).len() == 0,
        row.lid == lid ==> anchors_of(rows.push(row), lid) == anchors_of(rows, lid).push(row),
        row.lid != lid ==> anchors_of(rows.push(row), lid) == anchors_of(rows, lid),
{
    assert(rows.push(row).drop_last() =~= rows);
}

proof fn lemma_row_is_among(rows: Seq<AnchorRowModel>, lid: Seq<char>, k: int) -> (i: int)
    requires
        0 <= k < rows.len(),
        rows[k].lid == lid,
    ensures
        0 <= i < anchors_of(rows, lid).len(),
        anchors_of(rows, lid)[i] == rows[k],
    decreases rows.len(),
{
    if k == rows.len() - 1 {
        anchors_of(rows, lid).len() - 1
    } else {
        assert(rows.drop_last()[k] == rows[k]);
        lemma_row_is_among(rows.drop_last(), lid, k)
    }
}

proof fn lemma_is_a_row(rows: Seq<AnchorRowModel>, lid: Seq<char>, i: int) -> (k: int)
    requires
        0 <= i < anchors_of(rows, lid).len(),
    ensures
        0 <= k < rows.len(),
        rows[k] == anchors_of(rows, lid)[i],
        rows[k].lid == lid,
    decreases rows.len(),
{
    let shorter = anchors_of(rows.drop_last(), lid);
    if i < shorter.len() {
        let k = lemma_is_a_row(rows.drop_last(), lid, i);
        assert(rows.drop_last()[k] == rows[k]);
        k
    } else {
        rows.len() - 1
    }
}

proof fn lemma_shown_at(rows: Seq<AnchorRowModel>, lid: Seq<char>, p: int)
    requires
        0 <= p < anchors_of(rows, lid).len(),
    ensures
        ({
            let mine = anchors_of(rows, lid);
            let m = ascending(anchor_ids(mine))[p];
            &&& 0 <= m < mine.len()
            &&& p < shown_anchors(rows, lid).len()
            &&& shown_anchors(rows, lid)[p] == shown(mine[m])
        }),
{
    law_ascending(anchor_ids(anchors_of(rows, lid)));
}

/// What is shown of a work tells of each of its rows.
pub proof fn law_every_anchor_is_told(rows: Seq<AnchorRowModel>, k: int)
    requires
        0 <= k < rows.len(),
    ensures
        exists|p: int|
            0 <= p < shown_anchors(rows, rows[k].lid).len() && tells(
                #[trigger] shown_anchors(rows, rows[k].lid)[p],
                rows[k],
            ),
{
    let lid = rows[k].lid;
    let m = lemma_row_is_among(rows, lid, k);
    let order = ascending(anchor_ids(anchors_of(rows, lid)));
    law_ascending(anchor_ids(anchors_of(rows, lid)));
    law_every_position_is_listed(anchor_ids(anchors_of(rows, lid)), m);
    let p = choose|p: int| 0 <= p < order.len() && order[p] == m;
    lemma_shown_at(rows, lid, p);
    assert(tells(shown_anchors(rows, lid)[p], rows[k]));
}

/// Every entry that is shown of a work tells of one of its rows, and there are as many
/// entries as the work has anchors.
pub proof fn law_every_entry_tells_of_an_anchor(
    rows: Seq<AnchorRowModel>,
    lid: Seq<char>,
    p: int,
)
    ensures
        shown_anchors(rows, lid).len() == anchors_of(rows, lid).len(),
        0 <= p < shown_anchors(rows, lid).len() ==> exists|k: int|
            0 <= k < rows.len() && (#[trigger] rows[k]).lid == lid && tells(
                shown_anchors(rows, lid)[p],
                rows[k],
            ),
{
    if 0 <= p < shown_anchors(rows, lid).len() {
        lemma_shown_at(rows, lid, p);
        let k = lemma_is_a_row(rows, lid, ascending(anchor_ids(anchors_of(rows, lid)))[p]);
        assert(tells(shown_anchors(rows, lid)[p], rows[k]));
    }
}

/// Once an anchor was confirmed at a time, what is shown of its work has an entry with the
/// status `confirmed`, the new reference and exactly that time, and still tells of every
/// other anchor of the work what it told before.
pub proof fn law_confirmation_is_shown(
    rows: Seq<AnchorRowModel>,
    k: int,
    reference: Seq<char>,
    now: Seq<char>,
)
    requires
        0 <= k < rows.len(),
    ensures
        ({
            let lid = rows[k].lid;
            let after = rows.update(k, confirmed(rows[k], reference, now));
            let list = shown_anchors(after, lid);
            &&& exists|p: int|
                0 <= p < list.len() && (#[trigger] list[p]).kind == rows[k].kind && list[p].reference
                    == reference && list[p].status == "confirmed"@ && list[p].created_at
                    == rows[k].created_at && list[p].confirmed_at == Some(now)
            &&& forall|j: int|
                0 <= j < rows.len() && j != k && (#[trigger] rows[j]).lid == lid ==> exists|p: int|
                    0 <= p < list.len() && tells(#[trigger] list[p], rows[j])
        }),
{
    let lid = rows[k].lid;
    let after = rows.update(k, confirmed(rows[k], reference, now));
    let list = shown_anchors(after, lid);
    law_every_anchor_is_told(after, k);
    law_confirmed_waits_no_more(rows[k], reference, now, rows[k].kind);
    assert(after[k].lid == lid);
    let p = choose|p: int| 0 <= p < list.len() && tells(#[trigger] list[p], after[k]);
    assert(list[p].confirmed_at == Some(now));
    assert forall|j: int| 0 <= j < rows.len() && j != k && (#[trigger] rows[j]).lid
        == lid implies exists|p: int| 0 <= p < list.len() && tells(#[trigger] list[p], rows[j]) by {
        assert(after[j] == rows[j]);
        law_every_anchor_is_told(after, j);
    }
}

/// The entries that are shown of a work stand in the order of the numbers of its anchors.
pub proof fn law_anchors_are_in_order(rows: Seq<AnchorRowModel>, lid: Seq<char>)
    ensures
        exists|ordered: Seq<AnchorRowModel>| #[trigger]
            in_order(ordered) && ordered.len() == shown_anchors(rows, lid).len() && (forall|p: int|
                0 <= p < ordered.len() ==> (#[trigger] ordered[p]).lid == lid && rows.contains(
                    ordered[p],
                ) && tells(shown_anchors(rows, lid)[p], ordered[p])),
{
    let mine = anchors_of(rows, lid);
    let keys = anchor_ids(mine);
    let order = ascending(keys);
    law_ascending(keys);
    let ordered = Seq::new(mine.len(), |p: int| mine[order[p]]);
    assert forall|p: int, q: int| 0 <= p < q < ordered.len() implies (#[trigger] ordered[p]).id <= (
    #[trigger] ordered[q]).id by {
        assert(keys[order[p]] <= keys[order[q]]);
        assert(0 <= order[p] < mine.len() && 0 <= order[q] < mine.len());
    }
    assert(in_order(ordered));
    assert forall|p: int| 0 <= p < ordered.len() implies (#[trigger] ordered[p]).lid == lid
        && rows.contains(ordered[p]) && tells(shown_anchors(rows, lid)[p], ordered[p]) by {
        lemma_shown_at(rows, lid, p);
        let k = lemma_is_a_row(rows, lid, order[p]);
        assert(rows[k] == ordered[p]);
    }
}

/// Whether the numbers of anchors ascend.
pub open spec fn in_order(rows: Seq<AnchorRowModel>) -> bool {
    forall|p: int, q: int|
        0 <= p < q < rows.len() ==> (#[trigger] rows[p]).id <= (#[trigger] rows[q]).id
}

/// How the list of those that wait grows: by an anchor of the kind that is pending, with
/// its number, work, head and reference, and by no other.
pub proof fn law_pending_grows(rows: Seq<AnchorRowModel>, row: AnchorRowModel, kind: Seq<char>)
    ensures
        pending_of(Seq::<AnchorRowModel>::empty(), kind).len() == 0,
        row.kind == kind && row.status == "pending"@ ==> pending_of(rows.push(row), kind)
            == pending_of(rows, kind).push((row.id, row.lid, row.head_id, row.reference)),
        !(row.kind == kind && row.status == "pending"@) ==> pending_of(rows.push(row), kind)
            == pending_of(rows, kind),
{
    assert(rows.push(row).drop_last() =~= rows);
}

} // verus!
