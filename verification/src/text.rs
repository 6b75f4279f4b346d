//! Text primitives of the wire forms: fixed ASCII pieces, decimal numbers,
//! lists of numbers and hexadecimal strings. Each piece has a writer, the
//! byte string that the writer appends, and a reader that recovers the
//! value from those bytes.

use crate::peer::{hex_digit, hex_text};
use vstd::prelude::*;

verus! {

/// The bytes of a string of ASCII characters.
pub open spec fn ascii(chars: Seq<char>) -> Seq<u8> {
    Seq::new(chars.len(), |i: int| chars[i] as u8)
}

/// Whether `piece` stands in `s` at position `pos`.
pub open spec fn has_at(s: Seq<u8>, pos: int, piece: Seq<u8>) -> bool {
    0 <= pos && pos + piece.len() <= s.len() && s.subrange(pos, pos + piece.len()) == piece
}

/// A concatenation stands at a position exactly when its parts stand there
/// one after the other.
pub proof fn lemma_has_at_concat(s: Seq<u8>, pos: int, a: Seq<u8>, b: Seq<u8>)
    ensures
        has_at(s, pos, a + b) <==> has_at(s, pos, a) && has_at(s, pos + a.len(), b),
{
    if has_at(s, pos, a + b) {
        assert(s.subrange(pos, pos + a.len()) =~= (a + b).subrange(0, a.len() as int));
        assert((a + b).subrange(0, a.len() as int) =~= a);
        assert(s.subrange(pos + a.len(), pos + a.len() + b.len()) =~= (a + b).subrange(
            a.len() as int,
            (a + b).len() as int,
        ));
        assert((a + b).subrange(a.len() as int, (a + b).len() as int) =~= b);
    }
    if has_at(s, pos, a) && has_at(s, pos + a.len(), b) {
        assert(s.subrange(pos, pos + (a + b).len()) =~= s.subrange(pos, pos + a.len()) + s.subrange(
            pos + a.len(),
            pos + a.len() + b.len(),
        ));
    }
}

/// The bytes of a piece that stands in `s` are bytes of `s`.
pub proof fn lemma_has_at_index(s: Seq<u8>, pos: int, piece: Seq<u8>, i: int)
    requires
        has_at(s, pos, piece),
        0 <= i < piece.len(),
    ensures
        s[pos + i] == piece[i],
{
    assert(s.subrange(pos, pos + piece.len())[i] == s[pos + i]);
}

/// Appends the bytes of an ASCII string.
pub(crate) fn push_ascii(out: &mut Vec<u8>, s: &str)
    requires
        s.is_ascii(),
    ensures
        final(out)@ == old(out)@ + ascii(s@),
{
    broadcast use vstd::string::is_ascii_spec_bytes;

    let bytes = s.as_bytes();
    let mut i: usize = 0;
    while i < bytes.len()
        invariant
            i <= bytes@.len(),
            bytes@ == ascii(s@),
            out@ == old(out)@ + ascii(s@).take(i as int),
        decreases bytes@.len() - i,
    {
        out.push(bytes[i]);
        i += 1;
        assert(out@ =~= old(out)@ + ascii(s@).take(i as int));
    }
    assert(ascii(s@).take(i as int) =~= ascii(s@));
}

/// Where the ASCII string `lit` ends, if it stands in `bytes` at `pos`.
pub(crate) fn skip_ascii(bytes: &[u8], pos: usize, lit: &str) -> (end: Option<usize>)
    requires
        lit.is_ascii(),
    ensures
        end is Some <==> has_at(bytes@, pos as int, ascii(lit@)),
        end matches Some(e) ==> e == pos + ascii(lit@).len() && e <= bytes@.len(),
{
    broadcast use vstd::string::is_ascii_spec_bytes;

    let want = lit.as_bytes();
    let total = bytes.len();
    if pos > total || want.len() > total - pos {
        return None;
    }
    let mut i: usize = 0;
    while i < want.len()
        invariant
            i <= want@.len(),
            want@ == ascii(lit@),
            total == bytes@.len(),
            pos + want@.len() <= total,
            forall|k: int| 0 <= k < i ==> bytes@[pos + k] == want@[k],
        decreases want@.len() - i,
    {
        if bytes[pos + i] != want[i] {
            proof {
                if has_at(bytes@, pos as int, want@) {
                    lemma_has_at_index(bytes@, pos as int, want@, i as int);
                }
            }
            return None;
        }
        i += 1;
    }
    assert(bytes@.subrange(pos as int, pos + want@.len()) =~= want@);
    Some(pos + want.len())
}

/// Whether the ASCII string `lit` stands in `bytes` at `pos`.
pub(crate) fn expect_ascii(bytes: &[u8], pos: usize, lit: &str) -> (found: bool)
    requires
        lit.is_ascii(),
    ensures
        found == has_at(bytes@, pos as int, ascii(lit@)),
{
    skip_ascii(bytes, pos, lit).is_some()
}

/// The characters that the bytes of an ASCII text stand for.
pub open spec fn chars_of(bytes: Seq<u8>) -> Seq<char> {
    Seq::new(bytes.len(), |i: int| bytes[i] as char)
}

/// The string of the characters that the bytes stand for.
pub(crate) fn ascii_string(bytes: &[u8]) -> (text: String)
    ensures
        text@ == chars_of(bytes@),
{
    let mut text = String::new();
    let mut i: usize = 0;
    while i < bytes.len()
        invariant
            i <= bytes@.len(),
            text@ == chars_of(bytes@.take(i as int)),
        decreases bytes@.len() - i,
    {
        text.push(bytes[i] as char);
        i += 1;
        assert(text@ =~= chars_of(bytes@.take(i as int)));
    }
    assert(bytes@.take(i as int) =~= bytes@);
    text
}

/// Whether a byte is an ASCII decimal digit.
pub open spec fn is_digit(b: u8) -> bool {
    48 <= b <= 57
}

/// The decimal digits of a number, without leading zeros.
pub open spec fn dec_digits(n: nat) -> Seq<u8>
    decreases n,
{
    if n < 10 {
        seq![(48 + n) as u8]
    } else {
        dec_digits(n / 10).push((48 + n % 10) as u8)
    }
}

/// The decimal text of an integer: a minus sign before the digits of a
/// negative one.
pub open spec fn int_text(n: int) -> Seq<u8> {
    if n < 0 {
        seq![45u8] + dec_digits((-n) as nat)
    } else {
        dec_digits(n as nat)
    }
}

/// Appends the decimal digits of `n`.
pub(crate) fn write_nat(out: &mut Vec<u8>, n: u64)
    ensures
        final(out)@ == old(out)@ + dec_digits(n as nat),
    decreases n,
{
    if n >= 10 {
        write_nat(out, n / 10);
    }
    out.push(48 + (n % 10) as u8);
    proof {
        if n >= 10 {
            assert(out@ =~= old(out)@ + dec_digits(n as nat));
        } else {
            assert(out@ =~= old(out)@ + dec_digits(n as nat));
        }
    }
}

/// Appends the decimal text of `n`.
pub(crate) fn write_int(out: &mut Vec<u8>, n: i64)
    requires
        n > i64::MIN,
    ensures
        final(out)@ == old(out)@ + int_text(n as int),
{
    if n < 0 {
        out.push(45);
        write_nat(out, (-n) as u64);
        assert(out@ =~= old(out)@ + int_text(n as int));
    } else {
        write_nat(out, n as u64);
    }
}

/// Reads digits from `pos` on, continuing the number `acc`, as long as the
/// number stays within `max`.
pub open spec fn parse_digits(s: Seq<u8>, pos: int, acc: nat, max: nat) -> Option<(nat, int)>
    decreases s.len() - pos,
{
    if 0 <= pos < s.len() && is_digit(s[pos]) {
        let v = acc * 10 + (s[pos] - 48) as nat;
        if v > max {
            None
        } else {
            parse_digits(s, pos + 1, v, max)
        }
    } else {
        Some((acc, pos))
    }
}

/// Reads a number of at least one digit at `pos`: its value and where it
/// ends.
pub open spec fn parse_nat(s: Seq<u8>, pos: int, max: nat) -> Option<(nat, int)> {
    if 0 <= pos < s.len() && is_digit(s[pos]) {
        parse_digits(s, pos, 0, max)
    } else {
        None
    }
}

/// Reads an integer between `-low` and `max` at `pos`.
pub open spec fn parse_int(s: Seq<u8>, pos: int, low: nat, max: nat) -> Option<(int, int)> {
    if 0 <= pos < s.len() && s[pos] == 45 {
        match parse_nat(s, pos + 1, low) {
            Some((v, end)) => Some((-(v as int), end)),
            None => None,
        }
    } else {
        match parse_nat(s, pos, max) {
            Some((v, end)) => Some((v as int, end)),
            None => None,
        }
    }
}

/// A successful read ends after its start and within the text.
pub proof fn lemma_parse_digits_end(s: Seq<u8>, pos: int, acc: nat, max: nat)
    requires
        0 <= pos <= s.len(),
    ensures
        parse_digits(s, pos, acc, max) matches Some((v, end)) ==> pos <= end <= s.len() && v <= max
            + acc,
    decreases s.len() - pos,
{
    if pos < s.len() && is_digit(s[pos]) {
        let v = acc * 10 + (s[pos] - 48) as nat;
        if v <= max {
            lemma_parse_digits_end(s, pos + 1, v, max);
            if let Some((w, end)) = parse_digits(s, pos + 1, v, max) {
                lemma_parse_digits_bound(s, pos + 1, v, max);
            }
        }
    }
}

/// A successful read stays within `max` once it has read a digit.
pub proof fn lemma_parse_digits_bound(s: Seq<u8>, pos: int, acc: nat, max: nat)
    requires
        0 <= pos <= s.len(),
        acc <= max,
    ensures
        parse_digits(s, pos, acc, max) matches Some((v, end)) ==> v <= max,
    decreases s.len() - pos,
{
    if pos < s.len() && is_digit(s[pos]) {
        let v = acc * 10 + (s[pos] - 48) as nat;
        if v <= max {
            lemma_parse_digits_bound(s, pos + 1, v, max);
        }
    }
}

/// A number that was read is within `max` and ends after its start.
pub proof fn lemma_parse_nat_end(s: Seq<u8>, pos: int, max: nat)
    ensures
        parse_nat(s, pos, max) matches Some((v, end)) ==> pos < end <= s.len() && v <= max,
{
    if 0 <= pos < s.len() && is_digit(s[pos]) {
        let v = (s[pos] - 48) as nat;
        if v <= max {
            lemma_parse_digits_end(s, pos + 1, v, max);
            lemma_parse_digits_bound(s, pos + 1, v, max);
        }
    }
}

/// Reads a number of at least one digit at `pos`.
pub(crate) fn read_nat(bytes: &[u8], pos: usize, max: u64) -> (r: Option<(u64, usize)>)
    requires
        max <= 0xFFFF_FFFF_FFFF,
    ensures
        match r {
            Some((v, end)) => parse_nat(bytes@, pos as int, max as nat) == Some((v as nat, end as int))
                && pos < end <= bytes@.len() && v <= max,
            None => parse_nat(bytes@, pos as int, max as nat) is None,
        },
{
    if pos >= bytes.len() || bytes[pos] < 48 || bytes[pos] > 57 {
        return None;
    }
    let mut acc: u64 = 0;
    let mut i: usize = pos;
    while i < bytes.len() && 48 <= bytes[i] && bytes[i] <= 57
        invariant
            pos <= i <= bytes@.len(),
            acc <= max <= 0xFFFF_FFFF_FFFF,
            parse_digits(bytes@, pos as int, 0, max as nat) == parse_digits(
                bytes@,
                i as int,
                acc as nat,
                max as nat,
            ),
        decreases bytes@.len() - i,
    {
        let v: u64 = acc * 10 + (bytes[i] - 48) as u64;
        if v > max {
            return None;
        }
        acc = v;
        i += 1;
    }
    proof {
        lemma_parse_nat_end(bytes@, pos as int, max as nat);
    }
    Some((acc, i))
}

/// Reads an integer between `-low` and `max` at `pos`.
pub(crate) fn read_int(bytes: &[u8], pos: usize, low: u64, max: u64) -> (r: Option<(i64, usize)>)
    requires
        low <= 0xFFFF_FFFF_FFFF,
        max <= 0xFFFF_FFFF_FFFF,
    ensures
        match r {
            Some((v, end)) => parse_int(bytes@, pos as int, low as nat, max as nat) == Some(
                (v as int, end as int),
            ) && pos < end <= bytes@.len() && -low <= v <= max,
            None => parse_int(bytes@, pos as int, low as nat, max as nat) is None,
        },
{
    if pos < bytes.len() && bytes[pos] == 45 {
        match read_nat(bytes, pos + 1, low) {
            Some((v, end)) => Some((-(v as i64), end)),
            None => None,
        }
    } else {
        match read_nat(bytes, pos, max) {
            Some((v, end)) => Some((v as i64, end)),
            None => None,
        }
    }
}

/// The number that a string of digits continues `acc` to.
pub open spec fn digits_fold(acc: nat, digits: Seq<u8>) -> nat
    decreases digits.len(),
{
    if digits.len() == 0 {
        acc
    } else {
        digits_fold(acc * 10 + (digits[0] - 48) as nat, digits.drop_first())
    }
}

/// Whether all bytes are digits.
pub open spec fn all_digits(digits: Seq<u8>) -> bool {
    forall|i: int| 0 <= i < digits.len() ==> is_digit(#[trigger] digits[i])
}

proof fn lemma_digits_fold_grows(acc: nat, digits: Seq<u8>)
    requires
        all_digits(digits),
    ensures
        digits_fold(acc, digits) >= acc,
    decreases digits.len(),
{
    if digits.len() > 0 {
        assert(is_digit(digits[0]));
        let rest = digits.drop_first();
        assert forall|i: int| 0 <= i < rest.len() implies is_digit(#[trigger] rest[i]) by {
            assert(rest[i] == digits[i + 1]);
        }
        lemma_digits_fold_grows(acc * 10 + (digits[0] - 48) as nat, rest);
    }
}

proof fn lemma_digits_fold_push(acc: nat, digits: Seq<u8>, last: u8)
    ensures
        digits_fold(acc, digits.push(last)) == digits_fold(acc, digits) * 10 + (last - 48) as nat,
    decreases digits.len(),
{
    if digits.len() == 0 {
        assert(digits.push(last).drop_first() =~= Seq::<u8>::empty());
        assert(digits_fold(acc * 10 + (last - 48) as nat, Seq::<u8>::empty()) == acc * 10 + (last
            - 48) as nat);
    } else {
        assert(digits.push(last).drop_first() =~= digits.drop_first().push(last));
        lemma_digits_fold_push(acc * 10 + (digits[0] - 48) as nat, digits.drop_first(), last);
    }
}

/// The digits of a number are digits, at least one, and stand for the
/// number.
pub proof fn lemma_dec_digits(n: nat)
    ensures
        dec_digits(n).len() >= 1,
        all_digits(dec_digits(n)),
        digits_fold(0, dec_digits(n)) == n,
    decreases n,
{
    if n < 10 {
        let d = dec_digits(n);
        assert(d.drop_first() =~= Seq::<u8>::empty());
        assert(digits_fold(0, d) == digits_fold((d[0] - 48) as nat, d.drop_first()));
    } else {
        lemma_dec_digits(n / 10);
        lemma_digits_fold_push(0, dec_digits(n / 10), (48 + n % 10) as u8);
    }
}

proof fn lemma_parse_digit_string(s: Seq<u8>, pos: int, acc: nat, max: nat, digits: Seq<u8>)
    requires
        has_at(s, pos, digits),
        all_digits(digits),
        pos + digits.len() == s.len() || !is_digit(s[pos + digits.len()]),
        digits_fold(acc, digits) <= max,
    ensures
        parse_digits(s, pos, acc, max) == Some((digits_fold(acc, digits), pos + digits.len())),
    decreases digits.len(),
{
    if digits.len() > 0 {
        lemma_has_at_index(s, pos, digits, 0);
        assert(is_digit(digits[0]));
        let rest = digits.drop_first();
        let v = acc * 10 + (digits[0] - 48) as nat;
        assert forall|i: int| 0 <= i < rest.len() implies is_digit(#[trigger] rest[i]) by {
            assert(rest[i] == digits[i + 1]);
        }
        lemma_digits_fold_grows(v, rest);
        assert(s.subrange(pos + 1, pos + 1 + rest.len()) =~= rest) by {
            assert forall|i: int| 0 <= i < rest.len() implies s[pos + 1 + i] == rest[i] by {
                lemma_has_at_index(s, pos, digits, i + 1);
            }
        }
        lemma_parse_digit_string(s, pos + 1, v, max, rest);
    }
}

/// Reading where the digits of `n` stand, with no digit after them, gives
/// `n` back.
pub proof fn lemma_parse_nat_dec(s: Seq<u8>, pos: int, n: nat, max: nat)
    requires
        n <= max,
        has_at(s, pos, dec_digits(n)),
        pos + dec_digits(n).len() == s.len() || !is_digit(s[pos + dec_digits(n).len()]),
    ensures
        parse_nat(s, pos, max) == Some((n, pos + dec_digits(n).len())),
{
    lemma_dec_digits(n);
    lemma_has_at_index(s, pos, dec_digits(n), 0);
    assert(is_digit(dec_digits(n)[0]));
    lemma_parse_digit_string(s, pos, 0, max, dec_digits(n));
}

/// Reading where the text of the integer `n` stands, with no digit after
/// it, gives `n` back.
pub proof fn lemma_parse_int_text(s: Seq<u8>, pos: int, n: int, low: nat, max: nat)
    requires
        -low <= n <= max,
        has_at(s, pos, int_text(n)),
        pos + int_text(n).len() == s.len() || !is_digit(s[pos + int_text(n).len()]),
    ensures
        parse_int(s, pos, low, max) == Some((n, pos + int_text(n).len())),
{
    if n < 0 {
        let digits = dec_digits((-n) as nat);
        lemma_has_at_concat(s, pos, seq![45u8], digits);
        lemma_has_at_index(s, pos, seq![45u8], 0);
        lemma_parse_nat_dec(s, pos + 1, (-n) as nat, low);
    } else {
        lemma_dec_digits(n as nat);
        lemma_has_at_index(s, pos, dec_digits(n as nat), 0);
        assert(is_digit(dec_digits(n as nat)[0]));
        lemma_parse_nat_dec(s, pos, n as nat, max);
    }
}

/// The numbers of a list of bytes.
pub open spec fn nats_of_u8(xs: Seq<u8>) -> Seq<nat> {
    xs.map_values(|x: u8| x as nat)
}

/// The numbers of a list of 32-bit numbers.
pub open spec fn nats_of_u32(xs: Seq<u32>) -> Seq<nat> {
    xs.map_values(|x: u32| x as nat)
}

/// The numbers of a list in decimal, separated by commas.
pub open spec fn num_list(xs: Seq<nat>) -> Seq<u8>
    decreases xs.len(),
{
    if xs.len() == 0 {
        Seq::empty()
    } else if xs.len() == 1 {
        dec_digits(xs[0])
    } else {
        dec_digits(xs[0]) + seq![44u8] + num_list(xs.drop_first())
    }
}

/// The text of a list with one more number at its end.
pub proof fn lemma_num_list_push(xs: Seq<nat>, x: nat)
    ensures
        num_list(xs.push(x)) == if xs.len() == 0 {
            dec_digits(x)
        } else {
            num_list(xs) + seq![44u8] + dec_digits(x)
        },
    decreases xs.len(),
{
    if xs.len() == 0 {
    } else if xs.len() == 1 {
        assert(xs.push(x).drop_first() =~= seq![x]);
        assert(seq![x].len() == 1);
        assert(num_list(seq![x]) == dec_digits(x));
    } else {
        assert(xs.push(x).drop_first() =~= xs.drop_first().push(x));
        lemma_num_list_push(xs.drop_first(), x);
        assert(dec_digits(xs[0]) + seq![44u8] + (num_list(xs.drop_first()) + seq![44u8] + dec_digits(
            x,
        )) =~= dec_digits(xs[0]) + seq![44u8] + num_list(xs.drop_first()) + seq![44u8] + dec_digits(
            x,
        ));
    }
}

/// Appends the bytes of a list in decimal, separated by commas.
pub(crate) fn write_u8_list(out: &mut Vec<u8>, xs: &[u8])
    ensures
        final(out)@ == old(out)@ + num_list(nats_of_u8(xs@)),
{
    let mut i: usize = 0;
    while i < xs.len()
        invariant
            i <= xs@.len(),
            out@ == old(out)@ + num_list(nats_of_u8(xs@.take(i as int))),
        decreases xs@.len() - i,
    {
        proof {
            lemma_num_list_push(nats_of_u8(xs@.take(i as int)), xs@[i as int] as nat);
            assert(nats_of_u8(xs@.take(i as int)).push(xs@[i as int] as nat) =~= nats_of_u8(
                xs@.take(i as int + 1),
            ));
        }
        let ghost before = out@;
        if i > 0 {
            out.push(44);
        }
        write_nat(out, xs[i] as u64);
        i += 1;
        assert(out@ =~= old(out)@ + num_list(nats_of_u8(xs@.take(i as int))));
    }
    assert(xs@.take(i as int) =~= xs@);
}

/// Appends the numbers of a list in decimal, separated by commas.
pub(crate) fn write_u32_list(out: &mut Vec<u8>, xs: &[u32])
    ensures
        final(out)@ == old(out)@ + num_list(nats_of_u32(xs@)),
{
    let mut i: usize = 0;
    while i < xs.len()
        invariant
            i <= xs@.len(),
            out@ == old(out)@ + num_list(nats_of_u32(xs@.take(i as int))),
        decreases xs@.len() - i,
    {
        proof {
            lemma_num_list_push(nats_of_u32(xs@.take(i as int)), xs@[i as int] as nat);
            assert(nats_of_u32(xs@.take(i as int)).push(xs@[i as int] as nat) =~= nats_of_u32(
                xs@.take(i as int + 1),
            ));
        }
        if i > 0 {
            out.push(44);
        }
        write_nat(out, xs[i] as u64);
        i += 1;
        assert(out@ =~= old(out)@ + num_list(nats_of_u32(xs@.take(i as int))));
    }
    assert(xs@.take(i as int) =~= xs@);
}

/// Reads numbers separated by commas from `pos` on, after those in `acc`.
pub open spec fn parse_nums(s: Seq<u8>, pos: int, max: nat, acc: Seq<nat>) -> Option<
    (Seq<nat>, int),
>
    decreases s.len() - pos,
{
    match parse_nat(s, pos, max) {
        None => None,
        Some((v, end)) => if pos < end < s.len() && s[end] == 44 {
            parse_nums(s, end + 1, max, acc.push(v))
        } else {
            Some((acc.push(v), end))
        },
    }
}

/// Reads the numbers of a list up to its closing bracket, which stays
/// unread.
pub open spec fn parse_num_list(s: Seq<u8>, pos: int, max: nat) -> Option<(Seq<nat>, int)> {
    if 0 <= pos < s.len() && s[pos] == 93 {
        Some((Seq::empty(), pos))
    } else {
        parse_nums(s, pos, max, Seq::empty())
    }
}

/// Reads the numbers of a list up to its closing bracket.
pub(crate) fn read_num_list(bytes: &[u8], pos: usize, max: u32) -> (r: Option<(Vec<u32>, usize)>)
    ensures
        match r {
            Some((xs, end)) => parse_num_list(bytes@, pos as int, max as nat) == Some(
                (nats_of_u32(xs@), end as int),
            ) && pos <= end <= bytes@.len() && forall|i: int|
                0 <= i < xs@.len() ==> #[trigger] xs@[i] <= max,
            None => parse_num_list(bytes@, pos as int, max as nat) is None,
        },
{
    let mut xs: Vec<u32> = Vec::new();
    if pos < bytes.len() && bytes[pos] == 93 {
        assert(nats_of_u32(xs@) =~= Seq::<nat>::empty());
        return Some((xs, pos));
    }
    let mut at: usize = pos;
    assert(nats_of_u32(xs@) =~= Seq::<nat>::empty());
    loop
        invariant
            pos <= at <= bytes@.len() || at == pos,
            !(pos < bytes@.len() && bytes@[pos as int] == 93),
            parse_nums(bytes@, pos as int, max as nat, Seq::empty()) == parse_nums(
                bytes@,
                at as int,
                max as nat,
                nats_of_u32(xs@),
            ),
            forall|i: int| 0 <= i < xs@.len() ==> #[trigger] xs@[i] <= max,
        decreases bytes@.len() - at,
    {
        match read_nat(bytes, at, max as u64) {
            None => {
                return None;
            },
            Some((v, end)) => {
                let ghost before = nats_of_u32(xs@);
                xs.push(v as u32);
                assert(nats_of_u32(xs@) =~= before.push(v as nat));
                if end < bytes.len() && bytes[end] == 44 {
                    at = end + 1;
                } else {
                    return Some((xs, end));
                }
            },
        }
    }
}

proof fn lemma_parse_nums_list(s: Seq<u8>, pos: int, max: nat, acc: Seq<nat>, xs: Seq<nat>)
    requires
        xs.len() >= 1,
        forall|i: int| 0 <= i < xs.len() ==> #[trigger] xs[i] <= max,
        has_at(s, pos, num_list(xs)),
        pos + num_list(xs).len() < s.len(),
        s[pos + num_list(xs).len()] == 93,
    ensures
        parse_nums(s, pos, max, acc) == Some((acc + xs, pos + num_list(xs).len())),
    decreases xs.len(),
{
    let first = dec_digits(xs[0]);
    lemma_dec_digits(xs[0]);
    if xs.len() == 1 {
        lemma_parse_nat_dec(s, pos, xs[0], max);
        assert(acc.push(xs[0]) =~= acc + xs);
    } else {
        let rest = xs.drop_first();
        lemma_has_at_concat(s, pos, first + seq![44u8], num_list(rest));
        lemma_has_at_concat(s, pos, first, seq![44u8]);
        lemma_has_at_index(s, pos + first.len(), seq![44u8], 0);
        lemma_parse_nat_dec(s, pos, xs[0], max);
        assert forall|i: int| 0 <= i < rest.len() implies #[trigger] rest[i] <= max by {
            assert(rest[i] == xs[i + 1]);
        }
        lemma_parse_nums_list(s, pos + first.len() + 1, max, acc.push(xs[0]), rest);
        assert(acc.push(xs[0]) + rest =~= acc + xs);
    }
}

/// Reading where the text of a list stands, with the closing bracket after
/// it, gives the list back.
pub proof fn lemma_parse_num_list(s: Seq<u8>, pos: int, max: nat, xs: Seq<nat>)
    requires
        forall|i: int| 0 <= i < xs.len() ==> #[trigger] xs[i] <= max,
        has_at(s, pos, num_list(xs)),
        pos + num_list(xs).len() < s.len(),
        s[pos + num_list(xs).len()] == 93,
    ensures
        parse_num_list(s, pos, max) == Some((xs, pos + num_list(xs).len())),
{
    if xs.len() == 0 {
        assert(xs =~= Seq::<nat>::empty());
    } else {
        lemma_dec_digits(xs[0]);
        if xs.len() == 1 {
            lemma_has_at_index(s, pos, num_list(xs), 0);
        } else {
            lemma_has_at_concat(s, pos, dec_digits(xs[0]) + seq![44u8], num_list(xs.drop_first()));
            lemma_has_at_concat(s, pos, dec_digits(xs[0]), seq![44u8]);
            lemma_has_at_index(s, pos, dec_digits(xs[0]), 0);
        }
        assert(is_digit(dec_digits(xs[0])[0]));
        lemma_parse_nums_list(s, pos, max, Seq::empty(), xs);
        assert(Seq::<nat>::empty() + xs =~= xs);
    }
}

/// The bytes of a list of numbers that all fit a byte.
pub(crate) fn narrow_to_bytes(xs: &Vec<u32>) -> (bytes: Vec<u8>)
    requires
        forall|i: int| 0 <= i < xs@.len() ==> #[trigger] xs@[i] <= 255,
    ensures
        nats_of_u8(bytes@) == nats_of_u32(xs@),
{
    let mut bytes: Vec<u8> = Vec::new();
    let mut i: usize = 0;
    while i < xs.len()
        invariant
            i <= xs@.len(),
            forall|k: int| 0 <= k < xs@.len() ==> #[trigger] xs@[k] <= 255,
            bytes@.len() == i,
            forall|k: int| 0 <= k < i ==> bytes@[k] as nat == xs@[k] as nat,
        decreases xs@.len() - i,
    {
        bytes.push(xs[i] as u8);
        i += 1;
    }
    assert(nats_of_u8(bytes@) =~= nats_of_u32(xs@));
    bytes
}

/// The value of a hexadecimal digit; zero for any other byte.
pub open spec fn hex_value(b: u8) -> int {
    if 48 <= b <= 57 {
        b - 48
    } else if 97 <= b <= 102 {
        b - 87
    } else {
        0
    }
}

/// Appends the bytes in lower-case hexadecimal, two digits each.
pub(crate) fn write_hex(out: &mut Vec<u8>, bytes: &[u8])
    ensures
        final(out)@ == old(out)@ + ascii(hex_text(bytes@)),
{
    let mut i: usize = 0;
    while i < bytes.len()
        invariant
            i <= bytes@.len(),
            out@ == old(out)@ + ascii(hex_text(bytes@.take(i as int))),
        decreases bytes@.len() - i,
    {
        let hi = bytes[i] / 16;
        let lo = bytes[i] % 16;
        out.push(if hi < 10 { 48 + hi } else { 87 + hi });
        out.push(if lo < 10 { 48 + lo } else { 87 + lo });
        i += 1;
        assert(out@ =~= old(out)@ + ascii(hex_text(bytes@.take(i as int))));
    }
    assert(bytes@.take(i as int) =~= bytes@);
}

/// Reads `count` bytes written as two hexadecimal digits each.
pub open spec fn parse_hex(s: Seq<u8>, pos: int, count: nat) -> Option<(Seq<u8>, int)> {
    if 0 <= pos && pos + 2 * count <= s.len() {
        Some(
            (
                Seq::new(
                    count,
                    |i: int| (hex_value(s[pos + 2 * i]) * 16 + hex_value(s[pos + 2 * i + 1])) as u8,
                ),
                pos + 2 * count,
            ),
        )
    } else {
        None
    }
}

fn hex_value_of(b: u8) -> (v: u8)
    ensures
        v == hex_value(b),
        v < 16,
{
    if 48 <= b && b <= 57 {
        b - 48
    } else if 97 <= b && b <= 102 {
        b - 87
    } else {
        0
    }
}

/// Reads `count` bytes written as two hexadecimal digits each.
pub(crate) fn read_hex(bytes: &[u8], pos: usize, count: usize) -> (r: Option<(Vec<u8>, usize)>)
    requires
        count <= 0xFFFF,
    ensures
        match r {
            Some((out, end)) => parse_hex(bytes@, pos as int, count as nat) == Some((out@, end as int))
                && end == pos + 2 * count && end <= bytes@.len() && out@.len() == count,
            None => parse_hex(bytes@, pos as int, count as nat) is None,
        },
{
    let total = bytes.len();
    if pos > total || 2 * count > total - pos {
        return None;
    }
    let mut out: Vec<u8> = Vec::new();
    let mut i: usize = 0;
    while i < count
        invariant
            i <= count <= 0xFFFF,
            total == bytes@.len(),
            pos + 2 * count <= total,
            out@.len() == i,
            forall|k: int|
                0 <= k < i ==> out@[k] == (hex_value(bytes@[pos + 2 * k]) * 16 + hex_value(
                    bytes@[pos + 2 * k + 1],
                )) as u8,
        decreases count - i,
    {
        let hi = hex_value_of(bytes[pos + 2 * i]);
        let lo = hex_value_of(bytes[pos + 2 * i + 1]);
        out.push(hi * 16 + lo);
        i += 1;
    }
    assert(out@ =~= parse_hex(bytes@, pos as int, count as nat)->Some_0.0);
    Some((out, pos + 2 * count))
}

/// Reading where the hexadecimal text of some bytes stands gives the bytes
/// back.
pub proof fn lemma_parse_hex_text(s: Seq<u8>, pos: int, bytes: Seq<u8>)
    requires
        has_at(s, pos, ascii(hex_text(bytes))),
    ensures
        parse_hex(s, pos, bytes.len()) == Some((bytes, pos + 2 * bytes.len())),
{
    let text = ascii(hex_text(bytes));
    let read = parse_hex(s, pos, bytes.len())->Some_0.0;
    assert forall|i: int| 0 <= i < bytes.len() implies read[i] == bytes[i] by {
        lemma_has_at_index(s, pos, text, 2 * i);
        lemma_has_at_index(s, pos, text, 2 * i + 1);
        let hi = bytes[i] as int / 16;
        let lo = bytes[i] as int % 16;
        assert(text[2 * i] == hex_digit(hi) as u8);
        assert(text[2 * i + 1] == hex_digit(lo) as u8);
    }
    assert(read =~= bytes);
}

} // verus!
