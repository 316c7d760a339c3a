//! What holds of texts, paths, lines and the words of the offline verifier.

use crate::base58::{base58_digit, base58_value, is_base58_digit};
use crate::ledger::ChainErrorModel;
use crate::offline::{flaw_line, flaw_lines, short_text, verdict_lines};
use crate::outside::{hex_digit, hex_value, is_hex_digit};
use crate::store::joined_lines;
use crate::text::{
    decimal_text, is_white_space, joined_path, numbered_lines, occurs_in, split_lines,
    trimmed, trimmed_end, trimmed_start,
};
use vstd::prelude::*;
use vstd::utf8::*;

verus! {

// ── numbers ──────────────────────────────────────────

/// The number that decimal digits stand for.
pub open spec fn decimal_number(s: Seq<char>) -> int
    decreases s.len(),
{
    if s.len() == 0 {
        0
    } else {
        10 * decimal_number(s.drop_last()) + (s.last() as int - '0' as int)
    }
}

/// A number in decimal is made of digits, stands for the number, and has no leading zero
/// unless it is zero; so different numbers are written differently.
pub proof fn law_decimal(n: nat)
    ensures
        decimal_number(decimal_text(n)) == n,
        decimal_text(n).len() > 0,
        n > 0 ==> decimal_text(n)[0] != '0',
        n == 0 ==> decimal_text(n) == seq!['0'],
        forall|i: int| 0 <= i < decimal_text(n).len() ==> '0' <= #[trigger] decimal_text(n)[i] <= '9',
    decreases n,
{
    let s = decimal_text(n);
    if n < 10 {
        assert(s.drop_last() =~= seq![]);
        assert(decimal_number(s.drop_last()) == 0);
        assert(s.last() as int == n + 48);
    } else {
        law_decimal(n / 10);
        let front = decimal_text(n / 10);
        assert(s.drop_last() =~= front);
        assert(s.last() as int == n % 10 + 48);
        assert(s[0] == front[0]);
        assert forall|i: int| 0 <= i < s.len() implies '0' <= #[trigger] s[i] <= '9' by {
            if i < front.len() {
                assert(s[i] == front[i]);
            }
        }
    }
}

// ── white space and parts ────────────────────────────

proof fn lemma_trimmed_start(s: Seq<char>) -> (n: int)
    ensures
        0 <= n <= s.len(),
        trimmed_start(s) == s.skip(n),
        forall|i: int| 0 <= i < n ==> is_white_space(#[trigger] s[i]),
        n < s.len() ==> !is_white_space(s[n]),
    decreases s.len(),
{
    if s.len() > 0 && is_white_space(s[0]) {
        let rest = s.drop_first();
        let m = lemma_trimmed_start(rest);
        assert(rest.skip(m) =~= s.skip(m + 1));
        assert forall|i: int| 0 <= i < m + 1 implies is_white_space(#[trigger] s[i]) by {
            if i > 0 {
                assert(rest[i - 1] == s[i]);
            }
        }
        if m + 1 < s.len() {
            assert(rest[m] == s[m + 1]);
        }
        m + 1
    } else {
        assert(s.skip(0) =~= s);
        0
    }
}

proof fn lemma_trimmed_end(s: Seq<char>) -> (n: int)
    ensures
        0 <= n <= s.len(),
        trimmed_end(s) == s.take(n),
        forall|i: int| n <= i < s.len() ==> is_white_space(#[trigger] s[i]),
        n > 0 ==> !is_white_space(s[n - 1]),
    decreases s.len(),
{
    if s.len() > 0 && is_white_space(s.last()) {
        let front = s.drop_last();
        let m = lemma_trimmed_end(front);
        assert(front.take(m) =~= s.take(m));
        assert forall|i: int| m <= i < s.len() implies is_white_space(#[trigger] s[i]) by {
            if i < front.len() {
                assert(front[i] == s[i]);
            }
        }
        m
    } else {
        assert(s.take(s.len() as int) =~= s);
        s.len() as int
    }
}

/// A trimmed text is the middle of the text: there is nothing but white space before and
/// behind it, and none at its own ends.
pub proof fn law_trimmed(s: Seq<char>)
    ensures
        exists|a: int, b: int|
            0 <= a <= b <= s.len() && trimmed(s) == #[trigger] s.subrange(a, b) && (forall|i: int|
                0 <= i < a || b <= i < s.len() ==> is_white_space(#[trigger] s[i])),
        trimmed(s).len() > 0 ==> !is_white_space(trimmed(s)[0]) && !is_white_space(
            trimmed(s)[trimmed(s).len() - 1],
        ),
{
    let a = lemma_trimmed_start(s);
    let rest = s.skip(a);
    let n = lemma_trimmed_end(rest);
    let b = a + n;
    assert(rest.take(n) =~= s.subrange(a, b));
    assert forall|i: int| 0 <= i < a || b <= i < s.len() implies is_white_space(
        #[trigger] s[i],
    ) by {
        if b <= i < s.len() {
            assert(rest[i - a] == s[i]);
        }
    }
    if n > 0 {
        assert(trimmed(s)[0] == s[a]);
        assert(trimmed(s)[n - 1] == rest[n - 1]);
    }
}

/// A part occurs in a text exactly when the text is something before it, the part, and
/// something behind it.
pub proof fn law_occurs_in(part: Seq<char>, s: Seq<char>)
    ensures
        occurs_in(part, s) <==> exists|before: Seq<char>, after: Seq<char>|
            s == #[trigger] (before + part + after),
{
    if occurs_in(part, s) {
        let i = choose|i: int|
            0 <= i && i + part.len() <= s.len() && #[trigger] s.subrange(i, i + part.len()) == part;
        assert(s =~= s.take(i) + s.subrange(i, i + part.len()) + s.skip(i + part.len()));
        assert(s == s.take(i) + part + s.skip(i + part.len()));
    }
    if exists|before: Seq<char>, after: Seq<char>| s == #[trigger] (before + part + after) {
        let (before, after) = choose|before: Seq<char>, after: Seq<char>|
            s == #[trigger] (before + part + after);
        let i = before.len() as int;
        assert(s.subrange(i, i + part.len()) =~= part);
    }
}

// ── paths ────────────────────────────────────────────

/// An absolute part is its own path. Any other is put behind its directory, with exactly
/// one separator between them unless the directory is empty.
pub proof fn law_joined_path(base: Seq<char>, part: Seq<char>)
    ensures
        part.len() > 0 && part[0] == '/' ==> joined_path(base, part) == part,
        !(part.len() > 0 && part[0] == '/') && base.len() == 0 ==> joined_path(base, part) == part,
        !(part.len() > 0 && part[0] == '/') && base.len() > 0 && base[base.len() - 1] == '/'
            ==> joined_path(base, part) == base + part,
        !(part.len() > 0 && part[0] == '/') && base.len() > 0 && base[base.len() - 1] != '/'
            ==> joined_path(base, part) == base + "/"@ + part,
{
    reveal_strlit("/");
    assert("/"@ =~= seq!['/']);
    if base.len() == 0 {
        assert(base + part =~= part);
    }
}

// ── lines ────────────────────────────────────────────

proof fn lemma_split_shape(text: Seq<char>)
    ensures
        split_lines(text).len() >= 1,
        forall|i: int|
            0 <= i < split_lines(text).len() ==> !(#[trigger] split_lines(text)[i]).contains('\n'),
    decreases text.len(),
{
    let lines = split_lines(text);
    if text.len() > 0 {
        let before = split_lines(text.drop_last());
        lemma_split_shape(text.drop_last());
        assert forall|i: int| 0 <= i < lines.len() implies !(#[trigger] lines[i]).contains(
            '\n',
        ) by {
            if i < before.len() {
                assert(!before[i].contains('\n'));
                if i == before.len() - 1 && text.last() != '\n' {
                    let line = before.last().push(text.last());
                    assert(lines[i] == line);
                    assert forall|j: int| 0 <= j < line.len() implies line[j] != '\n' by {
                        if j < before.last().len() {
                            assert(before.last().contains(before.last()[j]));
                        }
                    }
                }
            }
        }
    }
}

/// The lines of a text hold no line feed, and joining them by line feeds gives the text
/// back.
pub proof fn law_lines_make_the_text(text: Seq<char>)
    ensures
        split_lines(text).len() >= 1,
        forall|i: int|
            0 <= i < split_lines(text).len() ==> !(#[trigger] split_lines(text)[i]).contains('\n'),
        joined_lines(split_lines(text)) == text,
    decreases text.len(),
{
    lemma_split_shape(text);
    let lines = split_lines(text);
    if text.len() == 0 {
        assert(joined_lines(lines) =~= text);
    } else {
        let front = text.drop_last();
        let before = split_lines(front);
        law_lines_make_the_text(front);
        assert(text =~= front.push(text.last()));
        if text.last() == '\n' {
            assert(lines.drop_last() =~= before);
            assert(joined_lines(lines) =~= text);
        } else {
            assert(lines.drop_last() =~= before.drop_last());
            if before.len() == 1 {
                assert(joined_lines(before) == before[0]);
                assert(joined_lines(lines) =~= text);
            } else {
                assert(joined_lines(before) == joined_lines(before.drop_last()) + seq!['\n']
                    + before.last());
                assert(joined_lines(lines) =~= text);
            }
        }
    }
}

/// How the numbered lines grow: a blank line counts but is passed over, and any other is
/// listed without the white space around it, under its number, counted from one.
pub proof fn law_numbered_lines_grow(lines: Seq<Seq<char>>, line: Seq<char>)
    ensures
        numbered_lines(Seq::<Seq<char>>::empty()).len() == 0,
        trimmed(line).len() == 0 ==> numbered_lines(lines.push(line)) == numbered_lines(lines),
        trimmed(line).len() > 0 ==> numbered_lines(lines.push(line)) == numbered_lines(lines).push(
            ((lines.len() + 1) as nat, trimmed(line)),
        ),
{
    assert(lines.push(line).drop_last() =~= lines);
}

// ── the words of the verifier ────────────────────────

/// A shortened id is the longest beginning of the id, in whole characters, that takes at
/// most 28 bytes; an id that takes no more is not shortened.
pub proof fn law_short_id(id: Seq<char>)
    ensures
        short_text(id).is_prefix_of(id),
        encode_utf8(short_text(id)).len() <= 28,
        encode_utf8(id).len() <= 28 ==> short_text(id) == id,
        short_text(id).len() < id.len() ==> encode_utf8(
            id.take(short_text(id).len() as int + 1),
        ).len() > 28,
    decreases id.len(),
{
    if id.len() == 0 {
        assert(encode_utf8(id) =~= seq![]);
    } else if encode_utf8(id).len() > 28 {
        let front = id.drop_last();
        law_short_id(front);
        let n = short_text(front).len() as int;
        if n < front.len() {
            assert(front.take(n + 1) =~= id.take(n + 1));
        } else {
            assert(id.take(n + 1) =~= id);
        }
    }
}

/// What is said of a flaw: its position, the beginning of its id, and its message.
pub proof fn law_line_of_a_flaw(error: ChainErrorModel)
    requires
        error.index >= 0,
    ensures
        flaw_line(error) == "  [#"@ + decimal_text(error.index as nat) + "] "@ + short_text(error.id)
            + " — "@ + error.message,
{
}

/// What the verifier says: first how many records there are, then the result, and behind a
/// bad one a line for each flaw, in the order of the report.
pub proof fn law_words_of_the_verifier(records: nat, ok: bool, errors: Seq<ChainErrorModel>)
    ensures
        ({
            let lines = verdict_lines(records, ok, errors);
            &&& lines[0] == "records: "@ + decimal_text(records)
            &&& ok ==> lines.len() == 2 && lines[1]
                == "RESULT: OK intact — every version's content, chain link and signature verifies"@
            &&& !ok ==> lines.len() == 2 + errors.len() && lines[1] == "RESULT: TAMPERING DETECTED"@
            &&& !ok ==> forall|k: int|
                0 <= k < errors.len() ==> #[trigger] lines[k + 2] == flaw_line(errors[k])
        }),
{
    let lines = verdict_lines(records, ok, errors);
    if !ok {
        assert forall|k: int| 0 <= k < errors.len() implies #[trigger] lines[k + 2] == flaw_line(
            errors[k],
        ) by {
            assert(flaw_lines(errors)[k] == flaw_line(errors[k]));
        }
    }
}

// ── digits ───────────────────────────────────────────

/// What counts as a hexadecimal digit, and its value: ten digits and six letters of either
/// case, which count the same.
pub proof fn law_hex_digits(c: char)
    ensures
        is_hex_digit(c) <==> ('0' <= c <= '9' || 'a' <= c <= 'f' || 'A' <= c <= 'F'),
        is_hex_digit(c) ==> 0 <= hex_value(c) < 16,
        hex_value('0') == 0 && hex_value('9') == 9,
        hex_value('a') == 10 && hex_value('f') == 15,
        hex_value('A') == 10 && hex_value('F') == 15,
        forall|n: int| 0 <= n < 16 ==> hex_value(#[trigger] hex_digit(n)) == n,
{
}

/// What counts as a base58 digit: the digits and letters of ASCII without the four that
/// are easily mistaken.
pub proof fn law_base58_digits(c: char)
    ensures
        is_base58_digit(c) <==> ('0' <= c <= '9' || 'a' <= c <= 'z' || 'A' <= c <= 'Z') && c != '0'
            && c != 'I' && c != 'O' && c != 'l',
        forall|n: int|
            0 <= n < 58 ==> is_base58_digit(#[trigger] base58_digit(n)) && base58_value(
                base58_digit(n),
            ) == n,
{
}

} // verus!
