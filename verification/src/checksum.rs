//! tmux's 16-bit layout checksum.
//!
//! tmux validates a layout string through a CRC-like 16-bit sum over the
//! bytes of the layout body: starting from 0, for each byte `b` the sum `c`
//! becomes `((c >> 1) | ((c & 1) << 15)) + b`, all modulo 2^16.  The final
//! sum is rendered as four lowercase hex digits and prefixed to the body
//! with a comma.
//!
//! The functions here work on character codes; every body the layout engine
//! emits is ASCII, where character codes and bytes coincide.

use vstd::prelude::*;

verus! {

/// One step of the checksum: rotate the 16-bit sum right by one bit, then
/// add the next character code, modulo 2^16.
pub open spec fn csum_step(c: int, b: int) -> int {
    ((c % 2) * 32768 + c / 2 + b) % 65536
}

/// The checksum of a whole body, folding `csum_step` over the characters
/// from first to last, starting at 0.
pub open spec fn layout_checksum_spec(s: Seq<char>) -> int
    decreases s.len(),
{
    if s.len() == 0 {
        0
    } else {
        csum_step(layout_checksum_spec(s.drop_last()), s.last() as int)
    }
}

/// Computes the layout checksum of `s`.
pub fn layout_checksum(s: &str) -> (r: u16)
    ensures
        r as int == layout_checksum_spec(s@),
{
    let len = s.unicode_len();
    let mut i: usize = 0;
    let mut acc: u16 = 0;
    while i < len
        invariant
            i <= len,
            len == s@.len(),
            acc as int == layout_checksum_spec(s@.subrange(0, i as int)),
        decreases len - i,
    {
        let c = s.get_char(i);
        let b: u32 = c as u32;
        let shifted: u32 = (acc as u32 % 2) * 32768 + acc as u32 / 2;
        let next: u32 = (shifted + b) % 65536;
        proof {
            assert(s@.subrange(0, i + 1 as int).drop_last() =~= s@.subrange(0, i as int));
            assert(s@.subrange(0, i + 1 as int).last() == s@[i as int]);
        }
        acc = next as u16;
        i = i + 1;
    }
    proof {
        assert(s@.subrange(0, len as int) =~= s@);
    }
    acc
}

/// The character for a single hexadecimal digit value.
pub open spec fn hex_digit_char(d: int) -> char {
    seq!['0', '1', '2', '3', '4', '5', '6', '7', '8', '9', 'a', 'b', 'c', 'd', 'e', 'f'][d]
}

/// Four lowercase hex digits of a 16-bit value, most significant first.
pub open spec fn hex4(c: int) -> Seq<char> {
    seq![
        hex_digit_char(c / 4096 % 16),
        hex_digit_char(c / 256 % 16),
        hex_digit_char(c / 16 % 16),
        hex_digit_char(c % 16),
    ]
}

/// The one-character string for a hexadecimal digit value.
fn hex_digit_str(d: u16) -> (r: &'static str)
    requires
        d < 16,
    ensures
        r@ == seq![hex_digit_char(d as int)],
{
    proof {
        reveal_strlit("0");
        reveal_strlit("1");
        reveal_strlit("2");
        reveal_strlit("3");
        reveal_strlit("4");
        reveal_strlit("5");
        reveal_strlit("6");
        reveal_strlit("7");
        reveal_strlit("8");
        reveal_strlit("9");
        reveal_strlit("a");
        reveal_strlit("b");
        reveal_strlit("c");
        reveal_strlit("d");
        reveal_strlit("e");
        reveal_strlit("f");
    }
    if d == 0 {
        "0"
    } else if d == 1 {
        "1"
    } else if d == 2 {
        "2"
    } else if d == 3 {
        "3"
    } else if d == 4 {
        "4"
    } else if d == 5 {
        "5"
    } else if d == 6 {
        "6"
    } else if d == 7 {
        "7"
    } else if d == 8 {
        "8"
    } else if d == 9 {
        "9"
    } else if d == 10 {
        "a"
    } else if d == 11 {
        "b"
    } else if d == 12 {
        "c"
    } else if d == 13 {
        "d"
    } else if d == 14 {
        "e"
    } else {
        "f"
    }
}

/// Prefixes `body` with its four-hex-digit checksum and a comma, producing
/// the full string that `select-layout` accepts.
pub fn layout_with_checksum(body: &str) -> (r: String)
    ensures
        r@ == hex4(layout_checksum_spec(body@)) + seq![','] + body@,
{
    let c = layout_checksum(body);
    let mut s = String::new();
    s.append(hex_digit_str(c / 4096 % 16));
    s.append(hex_digit_str(c / 256 % 16));
    s.append(hex_digit_str(c / 16 % 16));
    s.append(hex_digit_str(c % 16));
    proof {
        reveal_strlit(",");
    }
    s.append(",");
    s.append(body);
    proof {
        assert(s@ =~= hex4(layout_checksum_spec(body@)) + seq![','] + body@);
    }
    s
}

} // verus!
