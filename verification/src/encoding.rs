//! Byte-level encodings shared by the assembler: hexadecimal strings,
//! little-endian integers and the ledger's variable-length integer.

use vstd::prelude::*;

verus! {

/// The lower-case hexadecimal digit for a value below 16.
pub open spec fn spec_hex_digit(n: u8) -> char
    recommends
        n < 16,
{
    if n == 0 {
        '0'
    } else if n == 1 {
        '1'
    } else if n == 2 {
        '2'
    } else if n == 3 {
        '3'
    } else if n == 4 {
        '4'
    } else if n == 5 {
        '5'
    } else if n == 6 {
        '6'
    } else if n == 7 {
        '7'
    } else if n == 8 {
        '8'
    } else if n == 9 {
        '9'
    } else if n == 10 {
        'a'
    } else if n == 11 {
        'b'
    } else if n == 12 {
        'c'
    } else if n == 13 {
        'd'
    } else if n == 14 {
        'e'
    } else {
        'f'
    }
}

/// Lower-case hexadecimal rendering of a byte sequence, two digits per byte.
pub open spec fn spec_hex(bytes: Seq<u8>) -> Seq<char>
    decreases bytes.len(),
{
    if bytes.len() == 0 {
        Seq::<char>::empty()
    } else {
        seq![spec_hex_digit(bytes.first() / 16), spec_hex_digit(bytes.first() % 16)]
            + spec_hex(bytes.drop_first())
    }
}

/// The value of one hexadecimal digit; `None` when the character is no digit.
pub open spec fn spec_hex_val(c: char) -> Option<u8> {
    let v = c as int;
    if 48 <= v <= 57 {
        Some((v - 48) as u8)
    } else if 97 <= v <= 102 {
        Some((v - 87) as u8)
    } else if 65 <= v <= 70 {
        Some((v - 55) as u8)
    } else {
        None
    }
}

/// Bytes denoted by a hexadecimal string; `None` on odd length or a stray
/// character. Upper- and lower-case digits are both accepted.
pub open spec fn spec_hex_decode(s: Seq<char>) -> Option<Seq<u8>>
    decreases s.len(),
{
    if s.len() == 0 {
        Some(Seq::<u8>::empty())
    } else if s.len() == 1 {
        None
    } else {
        match (spec_hex_val(s[0]), spec_hex_val(s[1])) {
            (Some(hi), Some(lo)) => match spec_hex_decode(s.skip(2)) {
                Some(rest) => Some(seq![(hi * 16 + lo) as u8] + rest),
                None => None,
            },
            _ => None,
        }
    }
}

/// Appends the hexadecimal digit for `n` to `out`.
fn push_hex_digit(out: &mut String, n: u8)
    requires
        n < 16,
    ensures
        final(out)@ == old(out)@ + seq![spec_hex_digit(n)],
{
    proof {
        reveal_strlit("0");
        reveal_strlit("1");
        reveal_strlit("2");
        reveal_strlit("3");
        reveal_strlit("4");
        reveal_strlit("5");
        reveal_strlit("6");
        reveal_strlit("7");
        reveal_strlit("8");
        reveal_strlit("9");
        reveal_strlit("a");
        reveal_strlit("b");
        reveal_strlit("c");
        reveal_strlit("d");
        reveal_strlit("e");
        reveal_strlit("f");
    }
    match n {
        0 => out.append("0"),
        1 => out.append("1"),
        2 => out.append("2"),
        3 => out.append("3"),
        4 => out.append("4"),
        5 => out.append("5"),
        6 => out.append("6"),
        7 => out.append("7"),
        8 => out.append("8"),
        9 => out.append("9"),
        10 => out.append("a"),
        11 => out.append("b"),
        12 => out.append("c"),
        13 => out.append("d"),
        14 => out.append("e"),
        _ => out.append("f"),
    }
}

/// Renders bytes as a lower-case hexadecimal string.
pub fn hex_encode(bytes: &Vec<u8>) -> (r: String)
    ensures
        r@ == spec_hex(bytes@),
{
    let mut out = String::new();
    let n = bytes.len();
    assert(bytes@.skip(0) == bytes@);
    for i in 0..n
        invariant
            n == bytes@.len(),
            spec_hex(bytes@) == out@ + spec_hex(bytes@.skip(i as int)),
    {
        let b = bytes[i];
        push_hex_digit(&mut out, b / 16);
        push_hex_digit(&mut out, b % 16);
        proof {
            assert(bytes@.skip(i as int).drop_first() == bytes@.skip(i + 1));
            assert(spec_hex(bytes@) == out@ + spec_hex(bytes@.skip(i + 1)));
        }
    }
    assert(bytes@.skip(n as int) =~= Seq::<u8>::empty());
    assert(out@ =~= out@ + spec_hex(bytes@.skip(n as int)));
    out
}

/// The value of one hexadecimal digit given as an ASCII byte.
fn hex_val_ascii(b: u8) -> (r: Option<u8>)
    ensures
        r == spec_hex_val(b as char),
{
    if 48 <= b && b <= 57 {
        Some(b - 48)
    } else if 97 <= b && b <= 102 {
        Some(b - 87)
    } else if 65 <= b && b <= 70 {
        Some(b - 55)
    } else {
        None
    }
}

/// Decodes a hexadecimal string into bytes. Returns `None` exactly when the
/// string is no well-formed hexadecimal rendering.
pub fn hex_decode(s: &str) -> (r: Option<Vec<u8>>)
    ensures
        match r {
            Some(v) => spec_hex_decode(s@) == Some(v@),
            None => spec_hex_decode(s@) is None,
        },
{
    if !s.is_ascii() {
        proof {
            let ghost sv = s@;
            assert(exists|i: int| 0 <= i < sv.len() && !('\0' <= #[trigger] sv[i] <= '\u{7f}'));
            let ghost j = choose|i: int|
                0 <= i < sv.len() && !('\0' <= #[trigger] sv[i] <= '\u{7f}');
            lemma_hex_decode_bad_char(sv, j);
        }
        return None;
    }
    let n = s.unicode_len();
    if n % 2 != 0 {
        proof {
            lemma_hex_decode_odd(s@);
        }
        return None;
    }
    let mut out: Vec<u8> = Vec::new();
    let mut i: usize = 0;
    assert(s@.skip(0) == s@);
    while i < n
        invariant
            s.is_ascii(),
            n == s@.len(),
            n % 2 == 0,
            i % 2 == 0,
            i <= n,
            spec_hex_decode(s@) matches Some(whole) ==> spec_hex_decode(s@.skip(i as int))
                matches Some(rest) && whole == out@ + rest,
            spec_hex_decode(s@.skip(i as int)) is Some ==> spec_hex_decode(s@) is Some,
        decreases n - i,
    {
        let hi = s.get_ascii(i);
        let lo = s.get_ascii(i + 1);
        match (hex_val_ascii(hi), hex_val_ascii(lo)) {
            (Some(h), Some(l)) => {
                assert((s@[i as int] as int) < 128 && (s@[i + 1] as int) < 128);
                assert((s@[i as int] as u8) as char == s@[i as int]) by {
                    lemma_ascii_char_byte(s@[i as int]);
                }
                assert((s@[i + 1] as u8) as char == s@[i + 1]) by {
                    lemma_ascii_char_byte(s@[i + 1]);
                }
                out.push(h * 16 + l);
                proof {
                    let ghost tail = s@.skip(i as int);
                    assert(tail.len() >= 2);
                    assert(tail[0] == s@[i as int] && tail[1] == s@[i + 1]);
                    assert(tail.skip(2) == s@.skip(i + 2));
                }
                i = i + 2;
            },
            _ => {
                proof {
                    let ghost tail = s@.skip(i as int);
                    assert(tail[0] == s@[i as int] && tail[1] == s@[i + 1]);
                    assert((s@[i as int] as u8) as char == s@[i as int]) by {
                        lemma_ascii_char_byte(s@[i as int]);
                    }
                    assert((s@[i + 1] as u8) as char == s@[i + 1]) by {
                        lemma_ascii_char_byte(s@[i + 1]);
                    }
                    assert(spec_hex_decode(tail) is None);
                }
                return None;
            },
        }
    }
    assert(s@.skip(n as int) =~= Seq::<char>::empty());
    assert(out@ =~= out@ + Seq::<u8>::empty());
    Some(out)
}

/// An ASCII character survives the round trip through its byte value.
proof fn lemma_ascii_char_byte(c: char)
    requires
        '\0' <= c <= '\u{7f}',
    ensures
        (c as u8) as char == c,
{
}

/// A string of odd length is no hexadecimal rendering.
proof fn lemma_hex_decode_odd(s: Seq<char>)
    requires
        s.len() % 2 == 1,
    ensures
        spec_hex_decode(s) is None,
    decreases s.len(),
{
    if s.len() > 1 {
        lemma_hex_decode_odd(s.skip(2));
    }
}

/// A string holding a character that is no hexadecimal digit decodes to nothing.
proof fn lemma_hex_decode_bad_char(s: Seq<char>, j: int)
    requires
        0 <= j < s.len(),
        spec_hex_val(s[j]) is None,
    ensures
        spec_hex_decode(s) is None,
    decreases s.len(),
{
    if s.len() == 1 {
    } else if j >= 2 {
        assert(s.skip(2)[j - 2] == s[j]);
        lemma_hex_decode_bad_char(s.skip(2), j - 2);
    }
}

/// Each hexadecimal digit decodes to the value it renders.
proof fn lemma_hex_digit_val(n: u8)
    requires
        n < 16,
    ensures
        spec_hex_val(spec_hex_digit(n)) == Some(n),
{
}

/// Decoding inverts encoding: the hexadecimal rendering of any byte
/// sequence decodes back to exactly that sequence.
pub proof fn lemma_hex_roundtrip(bytes: Seq<u8>)
    ensures
        spec_hex_decode(spec_hex(bytes)) == Some(bytes),
    decreases bytes.len(),
{
    if bytes.len() == 0 {
        assert(spec_hex(bytes) =~= Seq::<char>::empty());
    } else {
        let b = bytes.first();
        let s = spec_hex(bytes);
        lemma_hex_digit_val(b / 16);
        lemma_hex_digit_val(b % 16);
        lemma_hex_roundtrip(bytes.drop_first());
        assert(s[0] == spec_hex_digit(b / 16) && s[1] == spec_hex_digit(b % 16));
        assert(s.skip(2) =~= spec_hex(bytes.drop_first()));
        assert((b / 16) * 16 + b % 16 == b);
        assert(seq![b] + bytes.drop_first() =~= bytes);
    }
}

/// Little-endian rendering of a 16-bit value.
pub open spec fn spec_u16_le(v: u16) -> Seq<u8> {
    seq![(v & 0xff) as u8, ((v >> 8) & 0xff) as u8]
}

/// Little-endian rendering of a 32-bit value.
pub open spec fn spec_u32_le(v: u32) -> Seq<u8> {
    seq![
        (v & 0xff) as u8,
        ((v >> 8) & 0xff) as u8,
        ((v >> 16) & 0xff) as u8,
        ((v >> 24) & 0xff) as u8,
    ]
}

/// Little-endian rendering of a 64-bit value.
pub open spec fn spec_u64_le(v: u64) -> Seq<u8> {
    seq![
        (v & 0xff) as u8,
        ((v >> 8) & 0xff) as u8,
        ((v >> 16) & 0xff) as u8,
        ((v >> 24) & 0xff) as u8,
        ((v >> 32) & 0xff) as u8,
        ((v >> 40) & 0xff) as u8,
        ((v >> 48) & 0xff) as u8,
        ((v >> 56) & 0xff) as u8,
    ]
}

/// The ledger's variable-length count: one byte below 0xfd, otherwise a
/// marker byte followed by the value in 2, 4 or 8 little-endian bytes.
pub open spec fn spec_varint(v: u64) -> Seq<u8> {
    if v < 0xfd {
        seq![v as u8]
    } else if v <= 0xffff {
        seq![0xfdu8] + spec_u16_le(v as u16)
    } else if v <= 0xffffffff {
        seq![0xfeu8] + spec_u32_le(v as u32)
    } else {
        seq![0xffu8] + spec_u64_le(v)
    }
}

/// Appends the little-endian bytes of a 32-bit value.
pub fn push_u32_le(out: &mut Vec<u8>, v: u32)
    ensures
        final(out)@ == old(out)@ + spec_u32_le(v),
{
    out.push((v & 0xff) as u8);
    out.push(((v >> 8) & 0xff) as u8);
    out.push(((v >> 16) & 0xff) as u8);
    out.push(((v >> 24) & 0xff) as u8);
    assert(final(out)@ =~= old(out)@ + spec_u32_le(v));
}

/// Appends the little-endian bytes of a 64-bit value.
pub fn push_u64_le(out: &mut Vec<u8>, v: u64)
    ensures
        final(out)@ == old(out)@ + spec_u64_le(v),
{
    out.push((v & 0xff) as u8);
    out.push(((v >> 8) & 0xff) as u8);
    out.push(((v >> 16) & 0xff) as u8);
    out.push(((v >> 24) & 0xff) as u8);
    out.push(((v >> 32) & 0xff) as u8);
    out.push(((v >> 40) & 0xff) as u8);
    out.push(((v >> 48) & 0xff) as u8);
    out.push(((v >> 56) & 0xff) as u8);
    assert(final(out)@ =~= old(out)@ + spec_u64_le(v));
}

/// Appends the variable-length rendering of a count.
pub fn push_varint(out: &mut Vec<u8>, v: u64)
    ensures
        final(out)@ == old(out)@ + spec_varint(v),
{
    if v < 0xfd {
        out.push(v as u8);
        assert(final(out)@ =~= old(out)@ + spec_varint(v));
    } else if v <= 0xffff {
        out.push(0xfd);
        out.push((v & 0xff) as u8);
        out.push(((v >> 8) & 0xff) as u8);
        assert((v as u16) & 0xff == (v & 0xff) as u16 && ((v as u16) >> 8) & 0xff == ((v >> 8)
            & 0xff) as u16) by (bit_vector)
            requires
                v <= 0xffff,
        ;
        assert(final(out)@ =~= old(out)@ + spec_varint(v));
    } else if v <= 0xffffffff {
        out.push(0xfe);
        out.push((v & 0xff) as u8);
        out.push(((v >> 8) & 0xff) as u8);
        out.push(((v >> 16) & 0xff) as u8);
        out.push(((v >> 24) & 0xff) as u8);
        assert((v as u32) & 0xff == (v & 0xff) as u32 && ((v as u32) >> 8) & 0xff == ((v >> 8)
            & 0xff) as u32 && ((v as u32) >> 16) & 0xff == ((v >> 16) & 0xff) as u32 && ((
        v as u32) >> 24) & 0xff == ((v >> 24) & 0xff) as u32) by (bit_vector)
            requires
                v <= 0xffffffff,
        ;
        assert(final(out)@ =~= old(out)@ + spec_varint(v));
    } else {
        out.push(0xff);
        push_u64_le(out, v);
        assert(final(out)@ =~= old(out)@ + spec_varint(v));
    }
}

} // verus!
