//! Recognising one UTF-8 encoded character in a byte stream that arrives in pieces.

use vstd::prelude::*;
use vstd::utf8::*;

verus! {

/// Whether `p` is a non-empty, proper start of the encoding of some character.
pub open spec fn partial_scalar(p: Seq<u8>) -> bool {
    p.len() > 0 && exists|s: Seq<u8>|
        #[trigger] valid_first_scalar(s) && p.len() < length_of_first_scalar(s) && s.take(
            p.len() as int,
        ) == p
}

/// Whether `p` is exactly the encoding of one character.
pub open spec fn whole_scalar(p: Seq<u8>) -> bool {
    valid_first_scalar(p) && length_of_first_scalar(p) == p.len()
}

/// The second byte of a three-byte encoding, given the first.
pub open spec fn second_of_three(b1: u8, b2: u8) -> bool {
    0x80 <= b2 <= 0xbf && (b1 == 0xe0 ==> b2 >= 0xa0) && (b1 == 0xed ==> b2 <= 0x9f)
}

/// The second byte of a four-byte encoding, given the first.
pub open spec fn second_of_four(b1: u8, b2: u8) -> bool {
    0x80 <= b2 <= 0xbf && (b1 == 0xf0 ==> b2 >= 0x90) && (b1 == 0xf4 ==> b2 <= 0x8f)
}

/// The proper starts of encodings, byte by byte.
spec fn partial_table(p: Seq<u8>) -> bool {
    ||| p.len() == 1 && 0xc2 <= p[0] <= 0xf4
    ||| p.len() == 2 && 0xe0 <= p[0] <= 0xef && second_of_three(p[0], p[1])
    ||| p.len() == 2 && 0xf0 <= p[0] <= 0xf4 && second_of_four(p[0], p[1])
    ||| p.len() == 3 && 0xf0 <= p[0] <= 0xf4 && second_of_four(p[0], p[1]) && 0x80 <= p[2] <= 0xbf
}

proof fn width_2_range(b1: u8, b2: u8)
    by (bit_vector)
    requires
        0xc0 <= b1 <= 0xdf,
        0x80 <= b2 <= 0xbf,
    ensures
        (codepoint_width_2(b1, b2) >= 0x80) == (b1 >= 0xc2),
        codepoint_width_2(b1, b2) < 0xd800,
{
}

proof fn width_3_range(b1: u8, b2: u8, b3: u8)
    by (bit_vector)
    requires
        0xe0 <= b1 <= 0xef,
        0x80 <= b2 <= 0xbf,
        0x80 <= b3 <= 0xbf,
    ensures
        (codepoint_width_3(b1, b2, b3) >= 0x800) == (b1 != 0xe0 || b2 >= 0xa0),
        (0xd800 <= codepoint_width_3(b1, b2, b3) && codepoint_width_3(b1, b2, b3) <= 0xdfff) == (b1
            == 0xed && b2 > 0x9f),
{
}

proof fn width_4_range(b1: u8, b2: u8, b3: u8, b4: u8)
    by (bit_vector)
    requires
        0xf0 <= b1 <= 0xf7,
        0x80 <= b2 <= 0xbf,
        0x80 <= b3 <= 0xbf,
        0x80 <= b4 <= 0xbf,
    ensures
        (codepoint_width_4(b1, b2, b3, b4) >= 0x10000) == (b1 != 0xf0 || b2 >= 0x90),
        (codepoint_width_4(b1, b2, b3, b4) <= 0x10ffff) == (b1 < 0xf4 || (b1 == 0xf4 && b2
            <= 0x8f)),
{
}

/// A valid first character has bytes in the ranges of its width.
proof fn first_scalar_ranges(s: Seq<u8>)
    requires
        valid_first_scalar(s),
    ensures
        length_of_first_scalar(s) == 2 ==> 0xc2 <= s[0] <= 0xdf,
        length_of_first_scalar(s) == 3 ==> 0xe0 <= s[0] <= 0xef && second_of_three(s[0], s[1]),
        length_of_first_scalar(s) == 4 ==> 0xf0 <= s[0] <= 0xf4 && second_of_four(s[0], s[1])
            && 0x80 <= s[2] <= 0xbf,
{
    if is_leading_byte_width_1(s[0]) {
    } else if is_leading_byte_width_2(s[0]) {
        width_2_range(s[0], s[1]);
    } else if is_leading_byte_width_3(s[0]) {
        width_3_range(s[0], s[1], s[2]);
    } else {
        width_4_range(s[0], s[1], s[2], s[3]);
    }
}

/// The proper starts of encodings are exactly those of the table.
proof fn partial_scalar_table(p: Seq<u8>)
    ensures
        partial_scalar(p) == partial_table(p),
{
    if partial_scalar(p) {
        let s = choose|s: Seq<u8>| #[trigger]
            valid_first_scalar(s) && p.len() < length_of_first_scalar(s) && s.take(p.len() as int)
                == p;
        first_scalar_ranges(s);
        assert(p[0] == s[0]);
        assert(p.len() >= 2 ==> p[1] == s[1]);
        assert(p.len() >= 3 ==> p[2] == s[2]);
    }
    if partial_table(p) {
        if p.len() == 1 && p[0] <= 0xdf {
            let s = p.push(0x80u8);
            width_2_range(s[0], s[1]);
            assert(s.take(1) =~= p);
            assert(valid_first_scalar(s));
        } else if p.len() == 1 && p[0] <= 0xef {
            let b2: u8 = if p[0] == 0xe0 {
                0xa0u8
            } else {
                0x80u8
            };
            let s = p.push(b2).push(0x80u8);
            width_3_range(s[0], s[1], s[2]);
            assert(s.take(1) =~= p);
            assert(valid_first_scalar(s));
        } else if p.len() == 1 {
            let b2: u8 = if p[0] == 0xf0 {
                0x90u8
            } else {
                0x80u8
            };
            let s = p.push(b2).push(0x80u8).push(0x80u8);
            width_4_range(s[0], s[1], s[2], s[3]);
            assert(s.take(1) =~= p);
            assert(valid_first_scalar(s));
        } else if p.len() == 2 && p[0] <= 0xef {
            let s = p.push(0x80u8);
            width_3_range(s[0], s[1], s[2]);
            assert(s.take(2) =~= p);
            assert(valid_first_scalar(s));
        } else if p.len() == 2 {
            let s = p.push(0x80u8).push(0x80u8);
            width_4_range(s[0], s[1], s[2], s[3]);
            assert(s.take(2) =~= p);
            assert(valid_first_scalar(s));
        } else {
            let s = p.push(0x80u8);
            width_4_range(s[0], s[1], s[2], s[3]);
            assert(s.take(3) =~= p);
            assert(valid_first_scalar(s));
        }
    }
}

/// Whether `p` is a non-empty, proper start of the encoding of some character.
pub fn is_partial_scalar(p: &Vec<u8>) -> (r: bool)
    ensures
        r == partial_scalar(p@),
{
    proof {
        partial_scalar_table(p@);
    }
    if p.len() == 0 || p.len() > 3 {
        return false;
    }
    let b1: u8 = p[0];
    if p.len() == 1 {
        return b1 >= 0xc2 && b1 <= 0xf4;
    }
    let b2: u8 = p[1];
    if b1 >= 0xe0 && b1 <= 0xef {
        p.len() == 2 && b2 >= 0x80 && b2 <= 0xbf && (b1 != 0xe0 || b2 >= 0xa0) && (b1 != 0xed || b2
            <= 0x9f)
    } else if b1 >= 0xf0 && b1 <= 0xf4 {
        b2 >= 0x80 && b2 <= 0xbf && (b1 != 0xf0 || b2 >= 0x90) && (b1 != 0xf4 || b2 <= 0x8f) && (
        p.len() == 2 || (p[2] >= 0x80 && p[2] <= 0xbf))
    } else {
        false
    }
}

/// Reads `bytes` as UTF-8.
///
/// Trusted: `core::str::from_utf8` gives the text that `bytes` encode when they are valid UTF-8,
/// and an error otherwise.
#[verifier::external_body]
pub(crate) fn decode_text(bytes: &[u8]) -> (r: Option<&str>)
    ensures
        r is Some <==> valid_utf8(bytes@),
        r matches Some(text) ==> text@ == decode_utf8(bytes@),
{
    core::str::from_utf8(bytes).ok()
}

/// A non-empty text after a partial character is valid only as that one whole character.
pub proof fn extended_partial(pending: Seq<u8>, b: u8)
    requires
        pending.len() == 0 || partial_scalar(pending),
    ensures
        valid_utf8(pending.push(b)) == whole_scalar(pending.push(b)),
        whole_scalar(pending.push(b)) ==> decode_utf8(pending.push(b)) == seq![
            decode_first_scalar(pending.push(b)) as char,
        ],
{
    let p = pending.push(b);
    partial_scalar_table(pending);
    if valid_utf8(p) {
        assert(valid_first_scalar(p));
        assert(length_of_first_scalar(p) == p.len()) by {
            if pending.len() > 0 {
                assert(p[0] == pending[0]);
                first_scalar_ranges(p);
            }
        }
    }
    if whole_scalar(p) {
        assert(pop_first_scalar(p) =~= Seq::<u8>::empty());
        assert(valid_utf8(pop_first_scalar(p)));
        assert(decode_utf8(pop_first_scalar(p)) =~= Seq::<char>::empty());
        assert(decode_utf8(p) =~= seq![decode_first_scalar(p) as char]);
    }
}

/// The encoding of the character that a whole encoding stands for is that encoding.
pub proof fn whole_scalar_encodes(p: Seq<u8>)
    requires
        whole_scalar(p),
    ensures
        encode_scalar((decode_first_scalar(p) as char) as u32) == p,
{
    assert(pop_first_scalar(p) =~= Seq::<u8>::empty());
    assert(valid_utf8(pop_first_scalar(p)));
    assert(valid_utf8(p));
    decode_utf8_first_scalar(p);
    assert(take_first_scalar(p) =~= p);
}

} // verus!
