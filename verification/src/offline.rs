//! Offline verification of a ledger file: its lines, and what is said of the outcome.

use crate::ledger::{error_models, ChainError, ChainErrorModel, ChainReport};
use crate::text::{
    decimal, decimal_text, join2, join3, numbered_lines, split_lines, trim, trimmed,
};
use vstd::prelude::*;
use vstd::utf8::*;

verus! {

/// What numbered lines stand for.
pub open spec fn line_models(lines: Seq<(usize, String)>) -> Seq<(nat, Seq<char>)> {
    Seq::new(lines.len(), |i: int| (lines[i].0 as nat, lines[i].1@))
}

/// Every line was begun by a line feed, but the first.
proof fn lemma_split_len(text: Seq<char>)
    ensures
        1 <= split_lines(text).len() <= text.len() + 1,
        split_lines(text).last().len() > 0 ==> split_lines(text).len() <= text.len(),
    decreases text.len(),
{
    if text.len() > 0 {
        lemma_split_len(text.drop_last());
    }
}

/// The numbers of the lines that are not blank, and the lines without the white space
/// around them. Each is to hold one record.
pub fn ledger_lines(text: &str) -> (r: Vec<(usize, String)>)
    ensures
        line_models(r@) == numbered_lines(split_lines(text@)),
{
    let mut out: Vec<(usize, String)> = Vec::new();
    let mut line = String::new();
    // how many lines are complete
    let mut done: usize = 0;
    let total = text.unicode_len();
    assert(text@.take(0) =~= seq![]);
    assert(split_lines(text@.take(0)) =~= seq![Seq::<char>::empty()]);
    assert(line_models(out@) =~= numbered_lines(split_lines(text@.take(0)).drop_last()));
    for c in it: text.chars()
        invariant
            it.seq() == text@,
            total == text@.len(),
            done + 1 == split_lines(text@.take(it.index() as int)).len(),
            line@ == split_lines(text@.take(it.index() as int)).last(),
            line_models(out@) == numbered_lines(
                split_lines(text@.take(it.index() as int)).drop_last(),
            ),
    {
        let ghost i = it.index();
        let ghost now = text@.take(i as int);
        let ghost next = text@.take(i + 1);
        assert(next.drop_last() =~= now);
        assert(next.last() == c);
        proof {
            lemma_split_len(now);
        }
        if c == '\n' {
            let t = trim(line.as_str());
            let ghost before = out@;
            assert(split_lines(next).drop_last() =~= split_lines(now));
            if !t.is_empty() {
                out.push((done + 1, t.to_owned()));
                assert(line_models(out@) =~= line_models(before).push(
                    ((done + 1) as nat, trimmed(line@)),
                ));
            }
            done = done + 1;
            line = String::new();
        } else {
            line.push(c);
            assert(split_lines(next).drop_last() =~= split_lines(now).drop_last());
        }
    }
    assert(text@.take(total as int) =~= text@);
    let t = trim(line.as_str());
    let ghost before = out@;
    proof {
        lemma_split_len(text@);
    }
    if !t.is_empty() {
        out.push((done + 1, t.to_owned()));
        assert(line_models(out@) =~= line_models(before).push(((done + 1) as nat, trimmed(line@))));
    }
    out
}

/// The message on a line that holds no record.
pub fn parse_failure(number: usize, error: &str) -> (r: String)
    ensures
        r@ == "line "@ + decimal_text(number as nat) + ": parse error: "@ + error@,
{
    let n = decimal(number);
    let head = join2("line ", n.as_str());
    join3(head.as_str(), ": parse error: ", error)
}

/// The beginning of an id: as many characters as take at most 28 bytes.
pub open spec fn short_text(id: Seq<char>) -> Seq<char>
    decreases id.len(),
{
    if encode_utf8(id).len() <= 28 || id.len() == 0 {
        id
    } else {
        short_text(id.drop_last())
    }
}

/// A further character adds its bytes at the end.
proof fn lemma_encode_push(s: Seq<char>, c: char)
    ensures
        encode_utf8(s.push(c)) == encode_utf8(s) + encode_scalar(c as u32),
    decreases s.len(),
{
    let all = s.push(c);
    if s.len() == 0 {
        assert(all.drop_first() =~= s);
        assert(encode_utf8(s) =~= seq![]);
        assert(encode_utf8(all) =~= encode_scalar(c as u32));
        assert(encode_utf8(s) + encode_scalar(c as u32) =~= encode_scalar(c as u32));
    } else {
        lemma_encode_push(s.drop_first(), c);
        assert(all.drop_first() =~= s.drop_first().push(c));
        assert(encode_utf8(all) =~= encode_utf8(s) + encode_scalar(c as u32));
    }
}

/// A beginning that fits, and that its next character would make too long, is the one
/// that an id is shortened to.
proof fn lemma_short_text(id: Seq<char>, n: int)
    requires
        0 <= n <= id.len(),
        encode_utf8(id.take(n)).len() <= 28,
        n < id.len() ==> encode_utf8(id.take(n + 1)).len() > 28,
    ensures
        short_text(id) == id.take(n),
    decreases id.len(),
{
    if n == id.len() {
        assert(id.take(n) =~= id);
    } else {
        let front = id.drop_last();
        lemma_too_long(id, n + 1);
        assert(front.take(n) =~= id.take(n));
        if n < front.len() {
            assert(front.take(n + 1) =~= id.take(n + 1));
        }
        lemma_short_text(front, n);
    }
}

/// A text is too long when a beginning of it is.
proof fn lemma_too_long(id: Seq<char>, n: int)
    requires
        0 <= n <= id.len(),
        encode_utf8(id.take(n)).len() > 28,
    ensures
        encode_utf8(id).len() > 28,
    decreases id.len() - n,
{
    if n == id.len() {
        assert(id.take(n) =~= id);
    } else {
        lemma_encode_push(id.take(n), id[n]);
        assert(id.take(n + 1) =~= id.take(n).push(id[n]));
        lemma_too_long(id, n + 1);
    }
}

/// The beginning of an id: as many characters as take at most 28 bytes.
pub fn short_id(id: &str) -> (r: String)
    ensures
        r@ == short_text(id@),
        encode_utf8(r@).len() <= 28,
        r@.is_prefix_of(id@),
{
    let mut out = String::new();
    let mut full: bool = false;
    let ghost mut n: int = 0;
    assert(id@.take(0) =~= seq![]);
    for c in it: id.chars()
        invariant
            it.seq() == id@,
            0 <= n <= it.index(),
            !full ==> n == it.index(),
            out@ == id@.take(n),
            encode_utf8(out@).len() <= 28,
            full ==> n < id@.len() && encode_utf8(id@.take(n + 1)).len() > 28,
    {
        if !full {
            let mut more = out.clone();
            more.push(c);
            assert(more@ =~= id@.take(n + 1));
            if more.as_str().as_bytes().len() <= 28 {
                out = more;
                proof {
                    n = n + 1;
                }
            } else {
                full = true;
            }
        }
    }
    proof {
        lemma_short_text(id@, n);
    }
    out
}

/// What the verifier prints, and the code it exits with.
#[derive(Debug)]
pub struct Verdict {
    pub lines: Vec<String>,
    pub exit_code: i32,
}

/// What lines of text stand for.
pub open spec fn text_models(lines: Seq<String>) -> Seq<Seq<char>> {
    Seq::new(lines.len(), |i: int| lines[i]@)
}

/// The line on one flaw.
pub open spec fn flaw_line(error: ChainErrorModel) -> Seq<char> {
    "  [#"@ + decimal_text(error.index as nat) + "] "@ + short_text(error.id) + " — "@
        + error.message
}

/// The lines on the flaws.
pub open spec fn flaw_lines(errors: Seq<ChainErrorModel>) -> Seq<Seq<char>> {
    errors.map_values(|e: ChainErrorModel| flaw_line(e))
}

/// What the verifier prints.
pub open spec fn verdict_lines(records: nat, ok: bool, errors: Seq<ChainErrorModel>) -> Seq<
    Seq<char>,
> {
    let count = "records: "@ + decimal_text(records);
    if ok {
        seq![
            count,
            "RESULT: OK intact — every version's content, chain link and signature verifies"@,
        ]
    } else {
        seq![count, "RESULT: TAMPERING DETECTED"@] + flaw_lines(errors)
    }
}

fn flaw_text(error: &ChainError) -> (r: String)
    ensures
        r@ == flaw_line(error@),
{
    let n = decimal(error.index);
    let mut s = join3("  [#", n.as_str(), "] ");
    s.append(short_id(error.id.as_str()).as_str());
    s.append(" — ");
    s.append(error.message.as_str());
    s
}

/// What the verifier says of a report: code 0 for an intact chain, 1 otherwise.
pub fn verdict(report: &ChainReport) -> (r: Verdict)
    ensures
        text_models(r.lines@) == verdict_lines(
            report.records as nat,
            report.ok,
            error_models(report.errors@),
        ),
        r.exit_code == (if report.ok {
            0int
        } else {
            1int
        }),
{
    let n = decimal(report.records);
    let mut lines: Vec<String> = Vec::new();
    lines.push(join2("records: ", n.as_str()));
    if report.ok {
        lines.push(
            "RESULT: OK intact — every version's content, chain link and signature verifies".to_owned(),
        );
        assert(text_models(lines@) =~= verdict_lines(
            report.records as nat,
            true,
            error_models(report.errors@),
        ));
        return Verdict { lines, exit_code: 0 };
    }
    lines.push("RESULT: TAMPERING DETECTED".to_owned());
    let ghost head = text_models(lines@);
    let ghost wanted = flaw_lines(error_models(report.errors@));
    let mut i: usize = 0;
    assert(head + wanted.take(0) =~= head);
    while i < report.errors.len()
        invariant
            i <= report.errors.len(),
            wanted == flaw_lines(error_models(report.errors@)),
            wanted.len() == report.errors.len(),
            text_models(lines@) == head + wanted.take(i as int),
        decreases report.errors.len() - i,
    {
        let ghost before = lines@;
        let line = flaw_text(&report.errors[i]);
        lines.push(line);
        assert(wanted[i as int] == line@);
        assert(text_models(lines@) =~= text_models(before).push(line@));
        assert(head + wanted.take(i + 1) =~= (head + wanted.take(i as int)).push(wanted[i as int]));
        i = i + 1;
    }
    assert(wanted.take(i as int) =~= wanted);
    assert(head =~= seq![
        "records: "@ + decimal_text(report.records as nat),
        "RESULT: TAMPERING DETECTED"@,
    ]);
    Verdict { lines, exit_code: 1 }
}

} // verus!
