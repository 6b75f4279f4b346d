//! Variable-length numbers of the binary form of a ticket: seven bits per
//! byte, least significant first, the high bit set on every byte but the
//! last.

use crate::text::{has_at, lemma_has_at_concat, lemma_has_at_index};
use vstd::prelude::*;

verus! {

/// The bytes of a number.
pub open spec fn varint(n: nat) -> Seq<u8>
    decreases n,
{
    if n < 128 {
        seq![n as u8]
    } else {
        seq![(n % 128 + 128) as u8] + varint(n / 128)
    }
}

/// Appends the bytes of a number.
pub(crate) fn write_varint(out: &mut Vec<u8>, n: u64)
    ensures
        final(out)@ == old(out)@ + varint(n as nat),
{
    let mut rest: u64 = n;
    let ghost mut done: Seq<u8> = Seq::empty();
    assert(old(out)@ + done =~= old(out)@);
    while rest >= 128
        invariant
            out@ == old(out)@ + done,
            done + varint(rest as nat) == varint(n as nat),
        decreases rest,
    {
        let b: u8 = (rest % 128 + 128) as u8;
        out.push(b);
        proof {
            assert(done.push(b) + varint((rest / 128) as nat) =~= done + varint(rest as nat));
            assert(out@ =~= old(out)@ + done.push(b));
            done = done.push(b);
        }
        rest = rest / 128;
    }
    out.push(rest as u8);
    assert(out@ =~= old(out)@ + (done + varint(rest as nat)));
}

/// Reads a number of at most `max` from `pos` on, continuing the number
/// `acc` with bytes that count `scale` each.
pub open spec fn parse_varint_from(s: Seq<u8>, pos: int, acc: nat, scale: nat, max: nat) -> Option<
    (nat, int),
>
    decreases s.len() - pos,
{
    if !(0 <= pos < s.len()) || scale > max {
        None
    } else {
        let v = acc + (s[pos] % 128) as nat * scale;
        if v > max {
            None
        } else if s[pos] < 128 {
            Some((v, pos + 1))
        } else {
            parse_varint_from(s, pos + 1, v, scale * 128, max)
        }
    }
}

/// Reads a number of at most `max` at `pos`: its value and where it ends.
pub open spec fn parse_varint(s: Seq<u8>, pos: int, max: nat) -> Option<(nat, int)> {
    parse_varint_from(s, pos, 0, 1, max)
}

/// Reads a number of at most `max` at `pos`.
pub(crate) fn read_varint(bytes: &[u8], pos: usize, max: u64) -> (r: Option<(u64, usize)>)
    ensures
        match r {
            Some((v, end)) => parse_varint(bytes@, pos as int, max as nat) == Some(
                (v as nat, end as int),
            ) && pos < end <= bytes@.len() && v <= max,
            None => parse_varint(bytes@, pos as int, max as nat) is None,
        },
{
    let total = bytes.len();
    let mut acc: u128 = 0;
    let mut scale: u128 = 1;
    let mut at: usize = pos;
    loop
        invariant
            pos <= at,
            total == bytes@.len(),
            acc <= max,
            scale <= 0x1_0000_0000_0000_0000 * 128,
            parse_varint(bytes@, pos as int, max as nat) == parse_varint_from(
                bytes@,
                at as int,
                acc as nat,
                scale as nat,
                max as nat,
            ),
        decreases total - at,
    {
        if at >= total || scale > max as u128 {
            return None;
        }
        let b = bytes[at];
        assert((b % 128) as nat * scale as nat <= 127 * 0x1_0000_0000_0000_0000) by (nonlinear_arith)
            requires
                b % 128 <= 127,
                scale <= 0x1_0000_0000_0000_0000,
        ;
        let v: u128 = acc + (b % 128) as u128 * scale;
        if v > max as u128 {
            return None;
        }
        if b < 128 {
            return Some((v as u64, at + 1));
        }
        acc = v;
        scale = scale * 128;
        at = at + 1;
    }
}

/// Reading where the bytes of `n` stand continues a number by `n` times
/// the scale.
pub proof fn lemma_parse_varint_from(s: Seq<u8>, pos: int, acc: nat, scale: nat, max: nat, n: nat)
    requires
        has_at(s, pos, varint(n)),
        acc + n * scale <= max,
        scale >= 1,
        n >= 1 || scale <= max,
    ensures
        parse_varint_from(s, pos, acc, scale, max) == Some((acc + n * scale, pos + varint(n).len())),
    decreases n,
{
    lemma_has_at_index(s, pos, varint(n), 0);
    if n >= 1 {
        assert(scale <= n * scale) by (nonlinear_arith)
            requires
                n >= 1,
        ;
    }
    if n < 128 {
        assert(s[pos] == n as u8);
    } else {
        let first = (n % 128 + 128) as u8;
        assert(varint(n)[0] == first);
        assert(first % 128 == n % 128);
        let v = acc + (n % 128) * scale;
        assert((n % 128) * scale + (n / 128) * (scale * 128) == n * scale) by (nonlinear_arith);
        assert((n % 128) * scale <= n * scale) by (nonlinear_arith);
        lemma_has_at_concat(s, pos, seq![first], varint(n / 128));
        lemma_parse_varint_from(s, pos + 1, v, scale * 128, max, n / 128);
    }
}

/// Reading where the bytes of `n` stand gives `n` back.
pub proof fn lemma_parse_varint(s: Seq<u8>, pos: int, max: nat, n: nat)
    requires
        has_at(s, pos, varint(n)),
        n <= max,
        max >= 1,
    ensures
        parse_varint(s, pos, max) == Some((n, pos + varint(n).len())),
{
    assert(n * 1 == n) by (nonlinear_arith);
    lemma_parse_varint_from(s, pos, 0, 1, max, n);
}

} // verus!
