//! Quoted strings of the wire forms: the escaping of their bytes and its
//! inverse.

use crate::text::{has_at, hex_value, lemma_has_at_concat, lemma_has_at_index};
use vstd::prelude::*;
use vstd::utf8::{decode_utf8, encode_utf8, valid_utf8};

verus! {

/// How one byte of a string is written between the quotes: a quote, a
/// backslash and the control characters are escaped, every other byte
/// stands for itself.
pub open spec fn esc_byte(b: u8) -> Seq<u8> {
    if b == 34 {
        seq![92u8, 34u8]
    } else if b == 92 {
        seq![92u8, 92u8]
    } else if b == 8 {
        seq![92u8, 98u8]
    } else if b == 12 {
        seq![92u8, 102u8]
    } else if b == 10 {
        seq![92u8, 110u8]
    } else if b == 13 {
        seq![92u8, 114u8]
    } else if b == 9 {
        seq![92u8, 116u8]
    } else if b < 32 {
        seq![92u8, 117u8, 48u8, 48u8, low_hex(b / 16), low_hex(b % 16)]
    } else {
        seq![b]
    }
}

/// The lower-case hexadecimal digit of a value below sixteen.
pub open spec fn low_hex(n: u8) -> u8 {
    if n < 10 {
        (48 + n) as u8
    } else {
        (87 + n) as u8
    }
}

/// The bytes of a string as they are written between the quotes.
pub open spec fn esc_bytes(bytes: Seq<u8>) -> Seq<u8>
    decreases bytes.len(),
{
    if bytes.len() == 0 {
        Seq::empty()
    } else {
        esc_byte(bytes[0]) + esc_bytes(bytes.drop_first())
    }
}

/// A string in quotes: its UTF-8 bytes, escaped.
pub open spec fn json_string(chars: Seq<char>) -> Seq<u8> {
    seq![34u8] + esc_bytes(encode_utf8(chars)) + seq![34u8]
}

/// The escaped form of a string with one more byte at its end.
pub proof fn lemma_esc_bytes_push(bytes: Seq<u8>, b: u8)
    ensures
        esc_bytes(bytes.push(b)) == esc_bytes(bytes) + esc_byte(b),
    decreases bytes.len(),
{
    if bytes.len() == 0 {
        assert(bytes.push(b).drop_first() =~= Seq::<u8>::empty());
        assert(esc_bytes(Seq::<u8>::empty()) =~= Seq::<u8>::empty());
        assert(esc_bytes(bytes.push(b)) =~= esc_byte(b));
        assert(esc_bytes(bytes) + esc_byte(b) =~= esc_byte(b));
    } else {
        assert(bytes.push(b).drop_first() =~= bytes.drop_first().push(b));
        lemma_esc_bytes_push(bytes.drop_first(), b);
        assert(esc_byte(bytes[0]) + (esc_bytes(bytes.drop_first()) + esc_byte(b)) =~= esc_byte(
            bytes[0],
        ) + esc_bytes(bytes.drop_first()) + esc_byte(b));
    }
}

fn low_hex_of(n: u8) -> (d: u8)
    requires
        n < 16,
    ensures
        d == low_hex(n),
{
    if n < 10 {
        48 + n
    } else {
        87 + n
    }
}

fn push_escaped(out: &mut Vec<u8>, b: u8)
    ensures
        final(out)@ == old(out)@ + esc_byte(b),
{
    if b == 34 || b == 92 {
        out.push(92);
        out.push(b);
    } else if b == 8 {
        out.push(92);
        out.push(98);
    } else if b == 12 {
        out.push(92);
        out.push(102);
    } else if b == 10 {
        out.push(92);
        out.push(110);
    } else if b == 13 {
        out.push(92);
        out.push(114);
    } else if b == 9 {
        out.push(92);
        out.push(116);
    } else if b < 32 {
        out.push(92);
        out.push(117);
        out.push(48);
        out.push(48);
        out.push(low_hex_of(b / 16));
        out.push(low_hex_of(b % 16));
    } else {
        out.push(b);
    }
    assert(out@ =~= old(out)@ + esc_byte(b));
}

/// Appends a string in quotes.
pub(crate) fn write_json_string(out: &mut Vec<u8>, s: &str)
    ensures
        final(out)@ == old(out)@ + json_string(s@),
{
    let bytes = s.as_bytes();
    out.push(34);
    let mut i: usize = 0;
    while i < bytes.len()
        invariant
            i <= bytes@.len(),
            bytes@ == encode_utf8(s@),
            out@ == old(out)@ + seq![34u8] + esc_bytes(bytes@.take(i as int)),
        decreases bytes@.len() - i,
    {
        proof {
            lemma_esc_bytes_push(bytes@.take(i as int), bytes@[i as int]);
            assert(bytes@.take(i as int).push(bytes@[i as int]) =~= bytes@.take(i as int + 1));
        }
        push_escaped(out, bytes[i]);
        i += 1;
        assert(out@ =~= old(out)@ + seq![34u8] + esc_bytes(bytes@.take(i as int)));
    }
    assert(bytes@.take(i as int) =~= bytes@);
    out.push(34);
    assert(out@ =~= old(out)@ + json_string(s@));
}

/// The byte that a one-letter escape stands for.
pub open spec fn unesc_char(c: u8) -> u8 {
    if c == 98 {
        8
    } else if c == 102 {
        12
    } else if c == 110 {
        10
    } else if c == 114 {
        13
    } else if c == 116 {
        9
    } else {
        c
    }
}

/// Reads escaped bytes from `pos` up to and including the closing quote,
/// after those in `acc`.
pub open spec fn parse_escaped(s: Seq<u8>, pos: int, acc: Seq<u8>) -> Option<(Seq<u8>, int)>
    decreases s.len() - pos,
{
    if !(0 <= pos < s.len()) {
        None
    } else if s[pos] == 34 {
        Some((acc, pos + 1))
    } else if s[pos] == 92 {
        if pos + 1 >= s.len() {
            None
        } else if s[pos + 1] == 117 {
            if pos + 6 > s.len() {
                None
            } else {
                parse_escaped(
                    s,
                    pos + 6,
                    acc.push((hex_value(s[pos + 4]) * 16 + hex_value(s[pos + 5])) as u8),
                )
            }
        } else {
            parse_escaped(s, pos + 2, acc.push(unesc_char(s[pos + 1])))
        }
    } else {
        parse_escaped(s, pos + 1, acc.push(s[pos]))
    }
}

/// Reads a string in quotes at `pos`: its characters and where it ends.
pub open spec fn parse_json_string(s: Seq<u8>, pos: int) -> Option<(Seq<char>, int)> {
    if 0 <= pos < s.len() && s[pos] == 34 {
        match parse_escaped(s, pos + 1, Seq::empty()) {
            Some((bytes, end)) => if valid_utf8(bytes) {
                Some((decode_utf8(bytes), end))
            } else {
                None
            },
            None => None,
        }
    } else {
        None
    }
}

/// The string with the given UTF-8 encoding, if the bytes are one
/// (`String::from_utf8`, which fails exactly on bytes that are not valid
/// UTF-8).
#[verifier::external_body]
pub(crate) fn string_from_utf8(bytes: Vec<u8>) -> (r: Option<String>)
    ensures
        r is Some <==> valid_utf8(bytes@),
        r matches Some(s) ==> s@ == decode_utf8(bytes@),
{
    String::from_utf8(bytes).ok()
}

fn hex_value_of(b: u8) -> (v: u8)
    ensures
        v == hex_value(b),
        v < 16,
{
    if 48 <= b && b <= 57 {
        b - 48
    } else if 97 <= b && b <= 102 {
        b - 87
    } else {
        0
    }
}

fn unesc_char_of(c: u8) -> (b: u8)
    ensures
        b == unesc_char(c),
{
    if c == 98 {
        8
    } else if c == 102 {
        12
    } else if c == 110 {
        10
    } else if c == 114 {
        13
    } else if c == 116 {
        9
    } else {
        c
    }
}

/// Reads a string in quotes at `pos`.
pub(crate) fn read_json_string(bytes: &[u8], pos: usize) -> (r: Option<(String, usize)>)
    ensures
        match r {
            Some((text, end)) => parse_json_string(bytes@, pos as int) == Some((text@, end as int))
                && pos < end <= bytes@.len(),
            None => parse_json_string(bytes@, pos as int) is None,
        },
{
    let total = bytes.len();
    if pos >= total || bytes[pos] != 34 {
        return None;
    }
    let mut acc: Vec<u8> = Vec::new();
    let mut at: usize = pos + 1;
    loop
        invariant
            pos < at <= total,
            total == bytes@.len(),
            bytes@[pos as int] == 34,
            parse_escaped(bytes@, pos + 1, Seq::empty()) == parse_escaped(bytes@, at as int, acc@),
        decreases total - at,
    {
        if at >= total {
            return None;
        }
        let b = bytes[at];
        if b == 34 {
            let end = at + 1;
            return match string_from_utf8(acc) {
                Some(text) => Some((text, end)),
                None => None,
            };
        } else if b == 92 {
            if total - at < 2 {
                return None;
            }
            let c = bytes[at + 1];
            if c == 117 {
                if total - at < 6 {
                    return None;
                }
                let hi = hex_value_of(bytes[at + 4]);
                let lo = hex_value_of(bytes[at + 5]);
                acc.push(hi * 16 + lo);
                at = at + 6;
            } else {
                acc.push(unesc_char_of(c));
                at = at + 2;
            }
        } else {
            acc.push(b);
            at = at + 1;
        }
    }
}

proof fn lemma_parse_escaped_bytes(s: Seq<u8>, pos: int, acc: Seq<u8>, bytes: Seq<u8>)
    requires
        has_at(s, pos, esc_bytes(bytes) + seq![34u8]),
    ensures
        parse_escaped(s, pos, acc) == Some((acc + bytes, pos + esc_bytes(bytes).len() + 1)),
    decreases bytes.len(),
{
    if bytes.len() == 0 {
        lemma_has_at_index(s, pos, esc_bytes(bytes) + seq![34u8], 0);
        assert(acc + bytes =~= acc);
    } else {
        let b = bytes[0];
        let rest = bytes.drop_first();
        let head = esc_byte(b);
        assert(esc_bytes(bytes) + seq![34u8] =~= head + (esc_bytes(rest) + seq![34u8]));
        lemma_has_at_concat(s, pos, head, esc_bytes(rest) + seq![34u8]);
        lemma_has_at_index(s, pos, head, 0);
        if head.len() >= 2 {
            lemma_has_at_index(s, pos, head, 1);
        }
        if head.len() == 6 {
            lemma_has_at_index(s, pos, head, 4);
            lemma_has_at_index(s, pos, head, 5);
            assert(hex_value(low_hex(b / 16)) * 16 + hex_value(low_hex(b % 16)) == b);
        }
        lemma_parse_escaped_bytes(s, pos + head.len(), acc.push(b), rest);
        assert(acc.push(b) + rest =~= acc + bytes);
    }
}

/// Reading where a quoted string stands gives the string back.
pub proof fn lemma_parse_json_string(s: Seq<u8>, pos: int, chars: Seq<char>)
    requires
        has_at(s, pos, json_string(chars)),
    ensures
        parse_json_string(s, pos) == Some((chars, pos + json_string(chars).len())),
{
    let bytes = encode_utf8(chars);
    assert(json_string(chars) =~= seq![34u8] + (esc_bytes(bytes) + seq![34u8]));
    lemma_has_at_concat(s, pos, seq![34u8], esc_bytes(bytes) + seq![34u8]);
    lemma_has_at_index(s, pos, seq![34u8], 0);
    lemma_parse_escaped_bytes(s, pos + 1, Seq::empty(), bytes);
    assert(Seq::<u8>::empty() + bytes =~= bytes);
    vstd::utf8::encode_utf8_valid_utf8(chars);
    vstd::utf8::encode_utf8_decode_utf8(chars);
}

} // verus!
