//! Base58 in the Bitcoin alphabet: what a text in it stands for.
//!
//! A byte sequence is read as one number, the first byte the highest, and written with
//! 58 digits; every zero byte at its beginning becomes a `1` of its own.

use vstd::prelude::*;

verus! {

/// Whether `c` belongs to the alphabet: digits and letters without `0`, `I`, `O` and `l`.
pub open spec fn is_base58_digit(c: char) -> bool {
    ||| '1' <= c <= '9'
    ||| 'A' <= c <= 'Z' && c != 'I' && c != 'O'
    ||| 'a' <= c <= 'z' && c != 'l'
}

/// Whether every character of `s` belongs to the alphabet.
pub open spec fn is_base58_text(s: Seq<char>) -> bool {
    forall|i: int| 0 <= i < s.len() ==> is_base58_digit(#[trigger] s[i])
}

/// The digit for a number below 58.
pub open spec fn base58_digit(n: int) -> char {
    if n < 9 {
        (n + 49) as char
    } else if n < 17 {
        (n + 56) as char
    } else if n < 22 {
        (n + 57) as char
    } else if n < 33 {
        (n + 58) as char
    } else if n < 44 {
        (n + 64) as char
    } else {
        (n + 65) as char
    }
}

/// The value of a digit.
pub open spec fn base58_value(c: char) -> int {
    if c <= '9' {
        c as int - 49
    } else if c <= 'H' {
        c as int - 56
    } else if c <= 'N' {
        c as int - 57
    } else if c <= 'Z' {
        c as int - 58
    } else if c <= 'k' {
        c as int - 64
    } else {
        c as int - 65
    }
}

/// The number that bytes stand for, the first byte the highest.
pub open spec fn byte_number(bytes: Seq<u8>) -> int
    decreases bytes.len(),
{
    if bytes.len() == 0 {
        0
    } else {
        256 * byte_number(bytes.drop_last()) + bytes.last()
    }
}

/// The number that base58 digits stand for, the first digit the highest.
pub open spec fn digit_number(s: Seq<char>) -> int
    decreases s.len(),
{
    if s.len() == 0 {
        0
    } else {
        58 * digit_number(s.drop_last()) + base58_value(s.last())
    }
}

/// The base58 digits of a number, without leading zeros; none for zero.
pub open spec fn number_digits(n: int) -> Seq<char>
    decreases n,
{
    if n <= 0 {
        seq![]
    } else {
        number_digits(n / 58).push(base58_digit(n % 58))
    }
}

/// The bytes of a number, without leading zeros; none for zero.
pub open spec fn number_bytes(n: int) -> Seq<u8>
    decreases n,
{
    if n <= 0 {
        seq![]
    } else {
        number_bytes(n / 256).push((n % 256) as u8)
    }
}

/// How often `x` stands at the beginning of a sequence.
pub open spec fn leading<T>(s: Seq<T>, x: T) -> nat
    decreases s.len(),
{
    if s.len() > 0 && s[0] == x {
        1 + leading(s.drop_first(), x)
    } else {
        0
    }
}

/// The sequence of `n` times `x`.
pub open spec fn repeated<T>(x: T, n: nat) -> Seq<T> {
    Seq::new(n, |i: int| x)
}

/// The base58 text of a byte sequence.
pub open spec fn base58_text(bytes: Seq<u8>) -> Seq<char> {
    repeated('1', leading(bytes, 0u8)) + number_digits(byte_number(bytes))
}

/// The bytes that a base58 text stands for.
pub open spec fn base58_bytes(s: Seq<char>) -> Seq<u8> {
    repeated(0u8, leading(s, '1')) + number_bytes(digit_number(s))
}

// ── numbers and their digits ─────────────────────────

proof fn lemma_digit(n: int)
    requires
        0 <= n < 58,
    ensures
        is_base58_digit(base58_digit(n)),
        base58_value(base58_digit(n)) == n,
        base58_digit(n) == '1' <==> n == 0,
{
}

proof fn lemma_byte_number_bound(bytes: Seq<u8>)
    ensures
        byte_number(bytes) >= 0,
    decreases bytes.len(),
{
    if bytes.len() > 0 {
        lemma_byte_number_bound(bytes.drop_last());
    }
}

/// Reading the digits of a number gives the number back. They are in the alphabet, and
/// the first of them is not zero.
proof fn lemma_number_digits(n: int)
    requires
        n >= 0,
    ensures
        digit_number(number_digits(n)) == n,
        is_base58_text(number_digits(n)),
        n > 0 ==> number_digits(n).len() > 0 && number_digits(n)[0] != '1',
    decreases n,
{
    if n > 0 {
        lemma_number_digits(n / 58);
        lemma_digit(n % 58);
        let front = number_digits(n / 58);
        let all = number_digits(n);
        assert(all.drop_last() =~= front);
        assert forall|i: int| 0 <= i < all.len() implies is_base58_digit(#[trigger] all[i]) by {
            if i < front.len() {
                assert(all[i] == front[i]);
            }
        }
        if n < 58 {
            assert(front.len() == 0);
        } else {
            assert(all[0] == front[0]);
        }
    }
}

/// Writing the number of bytes gives the bytes back, if the first of them is not zero.
proof fn lemma_number_bytes(bytes: Seq<u8>)
    requires
        bytes.len() > 0 ==> bytes[0] != 0,
    ensures
        number_bytes(byte_number(bytes)) == bytes,
        bytes.len() > 0 ==> byte_number(bytes) > 0,
    decreases bytes.len(),
{
    if bytes.len() > 0 {
        let front = bytes.drop_last();
        lemma_number_bytes(front);
        lemma_byte_number_bound(front);
        let n = byte_number(bytes);
        assert(n / 256 == byte_number(front) && n % 256 == bytes.last());
        if front.len() == 0 {
            assert(bytes.last() == bytes[0]);
        }
        assert(n > 0);
        assert(number_bytes(n) =~= bytes);
    } else {
        assert(number_bytes(byte_number(bytes)) =~= bytes);
    }
}

proof fn lemma_leading_zeros(zeros: nat, rest: Seq<u8>)
    ensures
        byte_number(repeated(0u8, zeros) + rest) == byte_number(rest),
    decreases zeros + rest.len(),
{
    let all = repeated(0u8, zeros) + rest;
    if rest.len() > 0 {
        lemma_leading_zeros(zeros, rest.drop_last());
        assert(all.drop_last() =~= repeated(0u8, zeros) + rest.drop_last());
    } else if zeros > 0 {
        lemma_leading_zeros((zeros - 1) as nat, rest);
        assert(all.drop_last() =~= repeated(0u8, (zeros - 1) as nat) + rest);
        assert(all.last() == 0);
    } else {
        assert(all =~= rest);
    }
}

proof fn lemma_leading_ones(ones: nat, rest: Seq<char>)
    ensures
        digit_number(repeated('1', ones) + rest) == digit_number(rest),
    decreases ones + rest.len(),
{
    let all = repeated('1', ones) + rest;
    if rest.len() > 0 {
        lemma_leading_ones(ones, rest.drop_last());
        assert(all.drop_last() =~= repeated('1', ones) + rest.drop_last());
    } else if ones > 0 {
        lemma_leading_ones((ones - 1) as nat, rest);
        assert(all.drop_last() =~= repeated('1', (ones - 1) as nat) + rest);
        assert(all.last() == '1');
    } else {
        assert(all =~= rest);
    }
}

proof fn lemma_leading<T>(x: T, n: nat, rest: Seq<T>)
    requires
        rest.len() > 0 ==> rest[0] != x,
    ensures
        leading(repeated(x, n) + rest, x) == n,
    decreases n,
{
    let all = repeated(x, n) + rest;
    if n > 0 {
        lemma_leading(x, (n - 1) as nat, rest);
        assert(all.drop_first() =~= repeated(x, (n - 1) as nat) + rest);
        assert(all[0] == x);
    } else {
        assert(all =~= rest);
    }
}

/// A sequence is what it begins with, repeated, and a rest that begins otherwise.
proof fn lemma_leading_split<T>(s: Seq<T>, x: T)
    ensures
        leading(s, x) <= s.len(),
        s == repeated(x, leading(s, x)) + s.skip(leading(s, x) as int),
        leading(s, x) < s.len() ==> s[leading(s, x) as int] != x,
    decreases s.len(),
{
    if s.len() > 0 && s[0] == x {
        let rest = s.drop_first();
        lemma_leading_split(rest, x);
        let n = leading(s, x);
        assert forall|i: int| 0 <= i < s.len() implies s[i] == (repeated(x, n) + s.skip(
            n as int,
        ))[i] by {
            if 0 < i < n {
                assert(rest[i - 1] == repeated(x, leading(rest, x))[i - 1]);
            }
        }
        assert(s =~= repeated(x, n) + s.skip(n as int));
        if n < s.len() {
            assert(s[n as int] == rest[n - 1]);
        }
    } else {
        assert(s =~= repeated(x, 0) + s.skip(0));
    }
}

/// The base58 text of bytes is in the alphabet, and the bytes can be read from it again,
/// so different bytes have different texts.
pub proof fn law_base58_round_trip(bytes: Seq<u8>)
    ensures
        is_base58_text(base58_text(bytes)),
        base58_bytes(base58_text(bytes)) == bytes,
{
    let zeros = leading(bytes, 0u8);
    let rest = bytes.skip(zeros as int);
    lemma_leading_split(bytes, 0u8);
    lemma_leading_zeros(zeros, rest);
    lemma_number_bytes(rest);
    lemma_byte_number_bound(rest);
    let n = byte_number(bytes);
    let digits = number_digits(n);
    lemma_number_digits(n);
    lemma_leading_ones(zeros, digits);
    lemma_leading('1', zeros, digits);
    let text = base58_text(bytes);
    assert forall|i: int| 0 <= i < text.len() implies is_base58_digit(#[trigger] text[i]) by {
        if i >= zeros {
            assert(text[i] == digits[i - zeros]);
        }
    }
    assert(base58_bytes(text) =~= repeated(0u8, zeros) + rest);
}

// ── lengths ──────────────────────────────────────────

/// `b` to the power of `k`.
pub open spec fn power(b: int, k: nat) -> int
    decreases k,
{
    if k == 0 {
        1
    } else {
        b * power(b, (k - 1) as nat)
    }
}

proof fn lemma_power_positive(b: int, k: nat)
    requires
        b > 0,
    ensures
        power(b, k) > 0,
    decreases k,
{
    if k > 0 {
        lemma_power_positive(b, (k - 1) as nat);
        assert(b * power(b, (k - 1) as nat) > 0) by (nonlinear_arith)
            requires
                b > 0,
                power(b, (k - 1) as nat) > 0,
        ;
    }
}

proof fn lemma_byte_number_size(bytes: Seq<u8>)
    ensures
        0 <= byte_number(bytes) < power(256, bytes.len()),
        bytes.len() > 0 && bytes[0] != 0 ==> byte_number(bytes) >= power(
            256,
            (bytes.len() - 1) as nat,
        ),
    decreases bytes.len(),
{
    if bytes.len() > 0 {
        let front = bytes.drop_last();
        lemma_byte_number_size(front);
        if front.len() == 0 {
            assert(bytes.last() == bytes[0]);
            assert(power(256, 0) == 1);
        } else {
            assert(front[0] == bytes[0]);
        }
    }
}

proof fn lemma_digits_at_most(n: int, k: nat)
    requires
        0 <= n < power(58, k),
    ensures
        number_digits(n).len() <= k,
    decreases k,
{
    if n > 0 {
        if k == 0 {
            assert(power(58, 0) == 1);
        } else {
            lemma_digits_at_most(n / 58, (k - 1) as nat);
        }
    }
}

proof fn lemma_digits_at_least(n: int, k: nat)
    requires
        n >= power(58, k),
    ensures
        number_digits(n).len() > k,
    decreases k,
{
    lemma_power_positive(58, k);
    if k > 0 {
        lemma_digits_at_least(n / 58, (k - 1) as nat);
    }
}

proof fn lemma_power_order(k: nat)
    ensures
        power(58, k) <= power(256, k),
    decreases k,
{
    if k > 0 {
        lemma_power_order((k - 1) as nat);
        lemma_power_positive(58, (k - 1) as nat);
    }
}

/// Sixteen bytes or fewer need at most six digits more than they are.
proof fn lemma_power_room(k: nat)
    requires
        k <= 16,
    ensures
        power(256, k) <= power(58, k + 6),
    decreases 16 - k,
{
    if k == 16 {
        reveal_with_fuel(power, 23);
    } else {
        lemma_power_room(k + 1);
        lemma_power_positive(58, k + 6);
        assert(power(256, k + 1) == 256 * power(256, k));
        assert(power(58, k + 7) == 58 * power(58, k + 6));
    }
}

/// The base58 text of sixteen bytes has 16 to 22 characters.
pub proof fn law_base58_length(bytes: Seq<u8>)
    requires
        bytes.len() == 16,
    ensures
        16 <= base58_text(bytes).len() <= 22,
{
    let zeros = leading(bytes, 0u8);
    let rest = bytes.skip(zeros as int);
    lemma_leading_split(bytes, 0u8);
    lemma_leading_zeros(zeros, rest);
    lemma_byte_number_size(rest);
    lemma_power_room(rest.len());
    lemma_digits_at_most(byte_number(rest), rest.len() + 6);
    if rest.len() > 0 {
        let k = (rest.len() - 1) as nat;
        lemma_power_order(k);
        lemma_digits_at_least(byte_number(rest), k);
    }
}

proof fn lemma_digit_number_size(s: Seq<char>)
    requires
        is_base58_text(s),
    ensures
        0 <= digit_number(s) < power(58, s.len()),
    decreases s.len(),
{
    if s.len() > 0 {
        let front = s.drop_last();
        assert forall|i: int| 0 <= i < front.len() implies is_base58_digit(#[trigger] front[i]) by {
            assert(s[i] == front[i]);
        }
        lemma_digit_number_size(front);
        assert(is_base58_digit(s[s.len() - 1]));
        assert(0 <= base58_value(s.last()) < 58);
    }
}

proof fn lemma_bytes_at_most(n: int, k: nat)
    requires
        0 <= n < power(256, k),
    ensures
        number_bytes(n).len() <= k,
    decreases k,
{
    if n > 0 {
        if k == 0 {
            assert(power(256, 0) == 1);
        } else {
            lemma_bytes_at_most(n / 256, (k - 1) as nat);
        }
    }
}

/// A base58 text stands for no more bytes than it has characters.
pub proof fn law_base58_bytes_length(s: Seq<char>)
    requires
        is_base58_text(s),
    ensures
        base58_bytes(s).len() <= s.len(),
{
    let ones = leading(s, '1');
    let rest = s.skip(ones as int);
    lemma_leading_split(s, '1');
    lemma_leading_ones(ones, rest);
    assert forall|i: int| 0 <= i < rest.len() implies is_base58_digit(#[trigger] rest[i]) by {
        assert(rest[i] == s[i + ones]);
    }
    lemma_digit_number_size(rest);
    lemma_power_order(rest.len());
    lemma_bytes_at_most(digit_number(rest), rest.len());
}

} // verus!
