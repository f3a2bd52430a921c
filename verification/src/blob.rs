//! The text-safe binary-to-text layer of the cache blob: each 4-byte group
//! becomes five characters of an 85-character alphabet, read as base-85
//! digits of the group's big-endian 32-bit value. The alphabet holds only
//! printable characters, never whitespace, so encoded chunks survive being
//! joined with and split on whitespace.

use vstd::prelude::*;
use vstd::string::StrSliceExecFns;
use vstd::string::StringExecFns;
use zero85::{FromZ85, ToZ85};
use std::io::Read;
use crate::codec::{parse_u64, read_exact, read_u64, ser_u64};

verus! {

/// The character standing for one base-85 digit.
#[verifier::opaque]
pub open spec fn z85_char_of(d: int) -> char {
    if d == 0 {
        '0'
    } else if d == 1 {
        '1'
    } else if d == 2 {
        '2'
    } else if d == 3 {
        '3'
    } else if d == 4 {
        '4'
    } else if d == 5 {
        '5'
    } else if d == 6 {
        '6'
    } else if d == 7 {
        '7'
    } else if d == 8 {
        '8'
    } else if d == 9 {
        '9'
    } else if d == 10 {
        'a'
    } else if d == 11 {
        'b'
    } else if d == 12 {
        'c'
    } else if d == 13 {
        'd'
    } else if d == 14 {
        'e'
    } else if d == 15 {
        'f'
    } else if d == 16 {
        'g'
    } else if d == 17 {
        'h'
    } else if d == 18 {
        'i'
    } else if d == 19 {
        'j'
    } else if d == 20 {
        'k'
    } else if d == 21 {
        'l'
    } else if d == 22 {
        'm'
    } else if d == 23 {
        'n'
    } else if d == 24 {
        'o'
    } else if d == 25 {
        'p'
    } else if d == 26 {
        'q'
    } else if d == 27 {
        'r'
    } else if d == 28 {
        's'
    } else if d == 29 {
        't'
    } else if d == 30 {
        'u'
    } else if d == 31 {
        'v'
    } else if d == 32 {
        'w'
    } else if d == 33 {
        'x'
    } else if d == 34 {
        'y'
    } else if d == 35 {
        'z'
    } else if d == 36 {
        'A'
    } else if d == 37 {
        'B'
    } else if d == 38 {
        'C'
    } else if d == 39 {
        'D'
    } else if d == 40 {
        'E'
    } else if d == 41 {
        'F'
    } else if d == 42 {
        'G'
    } else if d == 43 {
        'H'
    } else if d == 44 {
        'I'
    } else if d == 45 {
        'J'
    } else if d == 46 {
        'K'
    } else if d == 47 {
        'L'
    } else if d == 48 {
        'M'
    } else if d == 49 {
        'N'
    } else if d == 50 {
        'O'
    } else if d == 51 {
        'P'
    } else if d == 52 {
        'Q'
    } else if d == 53 {
        'R'
    } else if d == 54 {
        'S'
    } else if d == 55 {
        'T'
    } else if d == 56 {
        'U'
    } else if d == 57 {
        'V'
    } else if d == 58 {
        'W'
    } else if d == 59 {
        'X'
    } else if d == 60 {
        'Y'
    } else if d == 61 {
        'Z'
    } else if d == 62 {
        '.'
    } else if d == 63 {
        '-'
    } else if d == 64 {
        ':'
    } else if d == 65 {
        '+'
    } else if d == 66 {
        '='
    } else if d == 67 {
        '^'
    } else if d == 68 {
        '!'
    } else if d == 69 {
        '/'
    } else if d == 70 {
        '*'
    } else if d == 71 {
        '?'
    } else if d == 72 {
        '&'
    } else if d == 73 {
        '<'
    } else if d == 74 {
        '>'
    } else if d == 75 {
        '('
    } else if d == 76 {
        ')'
    } else if d == 77 {
        '['
    } else if d == 78 {
        ']'
    } else if d == 79 {
        '{'
    } else if d == 80 {
        '}'
    } else if d == 81 {
        '@'
    } else if d == 82 {
        '%'
    } else if d == 83 {
        '$'
    } else {
        '#'
    }
}

/// The base-85 digit of one character, or -1 outside the alphabet.
#[verifier::opaque]
pub open spec fn z85_digit_of(c: char) -> int {
    if c == '0' {
        0
    } else if c == '1' {
        1
    } else if c == '2' {
        2
    } else if c == '3' {
        3
    } else if c == '4' {
        4
    } else if c == '5' {
        5
    } else if c == '6' {
        6
    } else if c == '7' {
        7
    } else if c == '8' {
        8
    } else if c == '9' {
        9
    } else if c == 'a' {
        10
    } else if c == 'b' {
        11
    } else if c == 'c' {
        12
    } else if c == 'd' {
        13
    } else if c == 'e' {
        14
    } else if c == 'f' {
        15
    } else if c == 'g' {
        16
    } else if c == 'h' {
        17
    } else if c == 'i' {
        18
    } else if c == 'j' {
        19
    } else if c == 'k' {
        20
    } else if c == 'l' {
        21
    } else if c == 'm' {
        22
    } else if c == 'n' {
        23
    } else if c == 'o' {
        24
    } else if c == 'p' {
        25
    } else if c == 'q' {
        26
    } else if c == 'r' {
        27
    } else if c == 's' {
        28
    } else if c == 't' {
        29
    } else if c == 'u' {
        30
    } else if c == 'v' {
        31
    } else if c == 'w' {
        32
    } else if c == 'x' {
        33
    } else if c == 'y' {
        34
    } else if c == 'z' {
        35
    } else if c == 'A' {
        36
    } else if c == 'B' {
        37
    } else if c == 'C' {
        38
    } else if c == 'D' {
        39
    } else if c == 'E' {
        40
    } else if c == 'F' {
        41
    } else if c == 'G' {
        42
    } else if c == 'H' {
        43
    } else if c == 'I' {
        44
    } else if c == 'J' {
        45
    } else if c == 'K' {
        46
    } else if c == 'L' {
        47
    } else if c == 'M' {
        48
    } else if c == 'N' {
        49
    } else if c == 'O' {
        50
    } else if c == 'P' {
        51
    } else if c == 'Q' {
        52
    } else if c == 'R' {
        53
    } else if c == 'S' {
        54
    } else if c == 'T' {
        55
    } else if c == 'U' {
        56
    } else if c == 'V' {
        57
    } else if c == 'W' {
        58
    } else if c == 'X' {
        59
    } else if c == 'Y' {
        60
    } else if c == 'Z' {
        61
    } else if c == '.' {
        62
    } else if c == '-' {
        63
    } else if c == ':' {
        64
    } else if c == '+' {
        65
    } else if c == '=' {
        66
    } else if c == '^' {
        67
    } else if c == '!' {
        68
    } else if c == '/' {
        69
    } else if c == '*' {
        70
    } else if c == '?' {
        71
    } else if c == '&' {
        72
    } else if c == '<' {
        73
    } else if c == '>' {
        74
    } else if c == '(' {
        75
    } else if c == ')' {
        76
    } else if c == '[' {
        77
    } else if c == ']' {
        78
    } else if c == '{' {
        79
    } else if c == '}' {
        80
    } else if c == '@' {
        81
    } else if c == '%' {
        82
    } else if c == '$' {
        83
    } else if c == '#' {
        84
    } else {
        -1
    }
}

/// The digit of one character, computed.
pub fn z85_digit(c: char) -> (r: i8)
    ensures
        r as int == z85_digit_of(c),
{
    proof {
        reveal(z85_digit_of);
    }
    match c {
        '0' => 0,
        '1' => 1,
        '2' => 2,
        '3' => 3,
        '4' => 4,
        '5' => 5,
        '6' => 6,
        '7' => 7,
        '8' => 8,
        '9' => 9,
        'a' => 10,
        'b' => 11,
        'c' => 12,
        'd' => 13,
        'e' => 14,
        'f' => 15,
        'g' => 16,
        'h' => 17,
        'i' => 18,
        'j' => 19,
        'k' => 20,
        'l' => 21,
        'm' => 22,
        'n' => 23,
        'o' => 24,
        'p' => 25,
        'q' => 26,
        'r' => 27,
        's' => 28,
        't' => 29,
        'u' => 30,
        'v' => 31,
        'w' => 32,
        'x' => 33,
        'y' => 34,
        'z' => 35,
        'A' => 36,
        'B' => 37,
        'C' => 38,
        'D' => 39,
        'E' => 40,
        'F' => 41,
        'G' => 42,
        'H' => 43,
        'I' => 44,
        'J' => 45,
        'K' => 46,
        'L' => 47,
        'M' => 48,
        'N' => 49,
        'O' => 50,
        'P' => 51,
        'Q' => 52,
        'R' => 53,
        'S' => 54,
        'T' => 55,
        'U' => 56,
        'V' => 57,
        'W' => 58,
        'X' => 59,
        'Y' => 60,
        'Z' => 61,
        '.' => 62,
        '-' => 63,
        ':' => 64,
        '+' => 65,
        '=' => 66,
        '^' => 67,
        '!' => 68,
        '/' => 69,
        '*' => 70,
        '?' => 71,
        '&' => 72,
        '<' => 73,
        '>' => 74,
        '(' => 75,
        ')' => 76,
        '[' => 77,
        ']' => 78,
        '{' => 79,
        '}' => 80,
        '@' => 81,
        '%' => 82,
        '$' => 83,
        '#' => 84,
        _ => -1,
    }
}

/// Every digit's character reads back as that digit, and every character of
/// the alphabet is printable and is not whitespace.
pub proof fn lemma_z85_alphabet(d: int)
    requires
        0 <= d < 85,
    ensures
        z85_digit_of(z85_char_of(d)) == d,
        33 <= z85_char_of(d) as int <= 126,
{
    reveal(z85_char_of);
    reveal(z85_digit_of);
}


/// The big-endian 32-bit value of one 4-byte group.
pub open spec fn group_val(b: Seq<u8>) -> int {
    ((b[0] * 256 + b[1]) * 256 + b[2]) * 256 + b[3]
}

/// The five base-85 digits of one group value, most significant first.
pub open spec fn z85_encode_group(v: int) -> Seq<char> {
    let d4 = v % 85;
    let r1 = v / 85;
    let d3 = r1 % 85;
    let r2 = r1 / 85;
    let d2 = r2 % 85;
    let r3 = r2 / 85;
    let d1 = r3 % 85;
    let r4 = r3 / 85;
    let d0 = r4 % 85;
    seq![z85_char_of(d0), z85_char_of(d1), z85_char_of(d2), z85_char_of(d3), z85_char_of(d4)]
}

/// The value read back from five base-85 digits.
pub open spec fn z85_group_val(s: Seq<char>) -> int {
    (((z85_digit_of(s[0]) * 85 + z85_digit_of(s[1])) * 85 + z85_digit_of(s[2])) * 85
        + z85_digit_of(s[3])) * 85 + z85_digit_of(s[4])
}

/// The four big-endian bytes of one group value.
pub open spec fn group_bytes(v: int) -> Seq<u8> {
    let b3 = v % 256;
    let r1 = v / 256;
    let b2 = r1 % 256;
    let r2 = r1 / 256;
    let b1 = r2 % 256;
    let r3 = r2 / 256;
    let b0 = r3 % 256;
    seq![b0 as u8, b1 as u8, b2 as u8, b3 as u8]
}

/// The whole encoding: five characters per 4-byte group, in order.
#[verifier::opaque]
pub open spec fn z85_encode_spec(b: Seq<u8>) -> Seq<char>
    decreases b.len(),
{
    if b.len() < 4 {
        Seq::empty()
    } else {
        z85_encode_group(group_val(b.take(4))) + z85_encode_spec(b.skip(4))
    }
}

/// One 5-character group the decoder accepts without wrapping: all
/// characters carry digits and the value fits 32 bits.
pub open spec fn z85_group_ok(s: Seq<char>) -> bool {
    (forall|i: int| 0 <= i < 5 ==> z85_digit_of(#[trigger] s[i]) >= 0) && z85_group_val(s)
        < 0x1_0000_0000
}

/// A chunk the decoder accepts: nonempty, a whole number of 5-character
/// groups, each in range.
#[verifier::opaque]
pub open spec fn z85_valid(s: Seq<char>) -> bool
    decreases s.len(),
{
    if s.len() == 0 || s.len() % 5 != 0 {
        s.len() == 0
    } else {
        z85_group_ok(s.take(5)) && z85_valid(s.skip(5))
    }
}

/// The bytes a valid chunk decodes to.
#[verifier::opaque]
pub open spec fn z85_decode_valid(s: Seq<char>) -> Seq<u8>
    decreases s.len(),
{
    if s.len() < 5 {
        Seq::empty()
    } else {
        group_bytes(z85_group_val(s.take(5))) + z85_decode_valid(s.skip(5))
    }
}

/// Relies on the to_z85 encoder (zero85): each 4-byte group, read as a
/// big-endian 32-bit value, becomes five base-85 digits of the documented
/// alphabet, most significant first.
#[verifier::external_body]
fn z85_encode_chunk(b: &Vec<u8>) -> (r: String)
    requires
        b@.len() > 0,
        b@.len() % 4 == 0,
    ensures
        r@ == z85_encode_spec(b@),
{
    match b.as_slice().to_z85() {
        Ok(s) => s,
        Err(_) => String::new(),
    }
}

/// Relies on the from_z85 decoder (zero85): five base-85 digits of the
/// documented alphabet become the four big-endian bytes of their 32-bit
/// value. Inputs outside `z85_valid` are never handed to it.
#[verifier::external_body]
fn z85_decode_chunk(s: &str) -> (r: Vec<u8>)
    requires
        z85_valid(s@),
        s@.len() > 0,
    ensures
        r@ == z85_decode_valid(s@),
{
    match s.from_z85() {
        Ok(v) => v,
        Err(_) => Vec::new(),
    }
}

/// Decides whether the decoder accepts a chunk.
pub fn z85_check(s: &str) -> (r: bool)
    ensures
        r == z85_valid(s@),
{
    proof {
        reveal(z85_valid);
    }
    let len = s.unicode_len();
    if len % 5 != 0 {
        proof {
            reveal(z85_valid);
            if s@.len() != 0 {
                assert(!z85_valid(s@));
            }
        }
        return len == 0;
    }
    let mut i: usize = 0;
    proof {
        assert(s@.skip(0) =~= s@);
    }
    while i < len
        invariant
            i <= len,
            len == s@.len(),
            len % 5 == 0,
            i % 5 == 0,
            z85_valid(s@) == z85_valid(s@.skip(i as int)),
        decreases len - i,
    {
        let ghost rem = s@.skip(i as int);
        proof {
            reveal(z85_valid);
        }
        let d0 = z85_digit(s.get_char(i));
        let d1 = z85_digit(s.get_char(i + 1));
        let d2 = z85_digit(s.get_char(i + 2));
        let d3 = z85_digit(s.get_char(i + 3));
        let d4 = z85_digit(s.get_char(i + 4));
        proof {
            assert(rem.len() >= 5 && rem.len() % 5 == 0);
            assert(rem.take(5)[0] == s@[i as int]);
            assert(rem.take(5)[1] == s@[i + 1]);
            assert(rem.take(5)[2] == s@[i + 2]);
            assert(rem.take(5)[3] == s@[i + 3]);
            assert(rem.take(5)[4] == s@[i + 4]);
            assert(rem.skip(5) =~= s@.skip(i + 5));
        }
        if d0 < 0 || d1 < 0 || d2 < 0 || d3 < 0 || d4 < 0 {
            proof {
                assert(!z85_group_ok(rem.take(5)));
            }
            return false;
        }
        let v: u64 = (((((d0 as u64) * 85 + (d1 as u64)) * 85 + (d2 as u64)) * 85 + (d3 as u64))
            * 85) + (d4 as u64);
        proof {
            assert(v == z85_group_val(rem.take(5)));
        }
        if v >= 0x1_0000_0000 {
            proof {
                assert(!z85_group_ok(rem.take(5)));
            }
            return false;
        }
        i += 5;
    }
    proof {
        reveal(z85_valid);
        assert(s@.skip(len as int) =~= Seq::<char>::empty());
    }
    true
}

/// Decoding a valid encoding yields the original bytes, and every encoding
/// of a whole number of groups is valid.
#[verifier::rlimit(100)]
pub proof fn lemma_z85_roundtrip(b: Seq<u8>)
    requires
        b.len() % 4 == 0,
    ensures
        z85_encode_spec(b).len() == b.len() / 4 * 5,
        z85_valid(z85_encode_spec(b)),
        z85_decode_valid(z85_encode_spec(b)) == b,
    decreases b.len(),
{
    reveal(z85_encode_spec);
    reveal(z85_valid);
    reveal(z85_decode_valid);
    if b.len() == 0 {
        assert(z85_encode_spec(b) =~= Seq::<char>::empty());
        assert(z85_decode_valid(z85_encode_spec(b)) =~= b);
    } else {
        let g = b.take(4);
        let v = group_val(g);
        lemma_group_val_range(g);
        lemma_z85_group_roundtrip(v);
        lemma_group_bytes_val(g);
        lemma_z85_roundtrip(b.skip(4));
        let e = z85_encode_group(v);
        let rest = z85_encode_spec(b.skip(4));
        let whole = e + rest;
        assert(z85_encode_spec(b) == whole);
        assert(whole.len() % 5 == 0);
        assert(whole.take(5) =~= e);
        assert(whole.skip(5) =~= rest);
        assert(z85_valid(whole));
        assert(z85_decode_valid(whole) == group_bytes(z85_group_val(e)) + z85_decode_valid(rest));
        assert(z85_decode_valid(whole) =~= b);
    }
}

/// Every character of an encoding is printable and is not whitespace.
#[verifier::rlimit(100)]
pub proof fn lemma_z85_printable(b: Seq<u8>)
    requires
        b.len() % 4 == 0,
    ensures
        forall|i: int|
            0 <= i < z85_encode_spec(b).len() ==> 33 <= (#[trigger] z85_encode_spec(b)[i]) as int
                <= 126,
    decreases b.len(),
{
    reveal(z85_encode_spec);
    if b.len() == 0 {
    } else {
        let g = b.take(4);
        let v = group_val(g);
        lemma_group_val_range(g);
        lemma_z85_group_roundtrip(v);
        lemma_z85_printable(b.skip(4));
        let e = z85_encode_group(v);
        let rest = z85_encode_spec(b.skip(4));
        let whole = e + rest;
        assert(z85_encode_spec(b) == whole);
        assert forall|i: int| 0 <= i < whole.len() implies 33 <= (#[trigger] whole[i]) as int
            <= 126 by {
            if i < 5 {
                assert(whole[i] == e[i]);
            } else {
                assert(whole[i] == rest[i - 5]);
            }
        }
    }
}

/// A 4-byte group's value fits 32 bits.
proof fn lemma_group_val_range(g: Seq<u8>)
    requires
        g.len() == 4,
    ensures
        0 <= group_val(g) < 0x1_0000_0000,
{
}

/// The five digits of a 32-bit value read back as that value, each digit in
/// range and each character printable.
proof fn lemma_z85_group_roundtrip(v: int)
    requires
        0 <= v < 0x1_0000_0000,
    ensures
        z85_group_ok(z85_encode_group(v)),
        z85_group_val(z85_encode_group(v)) == v,
        forall|i: int|
            0 <= i < 5 ==> 33 <= (#[trigger] z85_encode_group(v)[i]) as int <= 126,
{
    let d4 = v % 85;
    let r1 = v / 85;
    let d3 = r1 % 85;
    let r2 = r1 / 85;
    let d2 = r2 % 85;
    let r3 = r2 / 85;
    let d1 = r3 % 85;
    let r4 = r3 / 85;
    let d0 = r4 % 85;
    vstd::arithmetic::div_mod::lemma_fundamental_div_mod(v, 85);
    vstd::arithmetic::div_mod::lemma_fundamental_div_mod(r1, 85);
    vstd::arithmetic::div_mod::lemma_fundamental_div_mod(r2, 85);
    vstd::arithmetic::div_mod::lemma_fundamental_div_mod(r3, 85);
    assert(r4 < 85) by (nonlinear_arith)
        requires
            0 <= v < 0x1_0000_0000 && r1 == v / 85 && r2 == r1 / 85 && r3 == r2 / 85 && r4 == r3
                / 85,
    ;
    assert(r4 % 85 == r4) by (nonlinear_arith)
        requires
            0 <= r4 < 85,
    ;
    lemma_z85_alphabet(d0);
    lemma_z85_alphabet(d1);
    lemma_z85_alphabet(d2);
    lemma_z85_alphabet(d3);
    lemma_z85_alphabet(d4);
}

/// The four bytes of a group value read back as that value.
proof fn lemma_group_bytes_val(g: Seq<u8>)
    requires
        g.len() == 4,
    ensures
        group_bytes(group_val(g)) == g,
{
    let v = group_val(g);
    assert(v % 256 == g[3] && v / 256 == (g[0] * 256 + g[1]) * 256 + g[2]) by {
        vstd::arithmetic::div_mod::lemma_fundamental_div_mod_converse(
            v,
            256,
            (g[0] * 256 + g[1]) * 256 + g[2],
            g[3] as int,
        );
    }
    let r1 = v / 256;
    assert(r1 % 256 == g[2] && r1 / 256 == g[0] * 256 + g[1]) by {
        vstd::arithmetic::div_mod::lemma_fundamental_div_mod_converse(
            r1,
            256,
            g[0] * 256 + g[1],
            g[2] as int,
        );
    }
    let r2 = r1 / 256;
    assert(r2 % 256 == g[1] && r2 / 256 == g[0]) by {
        vstd::arithmetic::div_mod::lemma_fundamental_div_mod_converse(
            r2,
            256,
            g[0] as int,
            g[1] as int,
        );
    }
    let r3 = r2 / 256;
    assert(r3 % 256 == g[0]) by {
        vstd::arithmetic::div_mod::lemma_fundamental_div_mod_converse(r3, 256, 0, g[0] as int);
    }
    assert(group_bytes(v) =~= g);
}


/// What decompressing a byte sequence yields: the inflated payload, or
/// nothing when the bytes are not a well-formed compressed stream.
pub uninterp spec fn gz_unzip_of(b: Seq<u8>) -> Option<Seq<u8>>;

/// Relies on flate2's read-side gzip encoder: its output is a stream that
/// the matching decoder inflates back to exactly the input bytes.
#[verifier::external_body]
pub(crate) fn gz_compress(b: &Vec<u8>) -> (r: Vec<u8>)
    ensures
        gz_unzip_of(r@) == Some(b@),
{
    let mut out: Vec<u8> = Vec::new();
    let mut enc = flate2::read::GzEncoder::new(b.as_slice(), flate2::Compression::best());
    match enc.read_to_end(&mut out) {
        Ok(_) => out,
        Err(_) => out,
    }
}

/// Relies on flate2's read-side gzip decoder: a deterministic function of
/// the input bytes, failing exactly on malformed streams.
#[verifier::external_body]
pub(crate) fn gz_decompress(b: &Vec<u8>) -> (r: Option<Vec<u8>>)
    ensures
        match r {
            Some(v) => gz_unzip_of(b@) == Some(v@),
            None => gz_unzip_of(b@) is None,
        },
{
    let mut out: Vec<u8> = Vec::new();
    let mut dec = flate2::read::GzDecoder::new(b.as_slice());
    match dec.read_to_end(&mut out) {
        Ok(_) => Some(out),
        Err(_) => None,
    }
}

/// `n` zero bytes.
pub open spec fn zero_bytes(n: int) -> Seq<u8> {
    Seq::new(n as nat, |i: int| 0u8)
}

/// The framed form of a compressed stream: its 64-bit length, the stream,
/// and zero padding rounding the whole up to a multiple of 4 bytes.
pub open spec fn frame(c: Seq<u8>) -> Seq<u8> {
    ser_u64(c.len() as u64) + c + zero_bytes((4 - c.len() % 4) % 4)
}

/// Reading a framed stream back: the length prefix bounds the stream;
/// padding is ignored.
pub open spec fn unframe(b: Seq<u8>) -> Option<Seq<u8>> {
    match parse_u64(b, 0) {
        None => None,
        Some((n, p)) => if p + n <= b.len() {
            Some(b.subrange(p, p + n))
        } else {
            None
        },
    }
}

/// Unframing a framed stream yields the stream.
pub proof fn lemma_frame_roundtrip(c: Seq<u8>)
    requires
        c.len() < 0x1_0000_0000_0000_0000,
    ensures
        unframe(frame(c)) == Some(c),
        frame(c).len() % 4 == 0,
        frame(c).len() > 0,
{
    let b = frame(c);
    assert(b.subrange(0, 8) =~= ser_u64(c.len() as u64));
    crate::codec::lemma_parse_u64(b, 0, c.len() as u64);
    assert(b.subrange(8, 8 + c.len() as int) =~= c);
}

/// A framed stream cut into chunks of at most 32 bytes, in order.
pub open spec fn chunks32(b: Seq<u8>) -> Seq<Seq<u8>>
    decreases b.len(),
{
    if b.len() == 0 {
        Seq::empty()
    } else if b.len() <= 32 {
        seq![b]
    } else {
        seq![b.take(32)] + chunks32(b.skip(32))
    }
}

/// Decoding a sequence of text chunks: every chunk must be nonempty and
/// valid; the decoded bytes concatenate in order.
pub open spec fn decode_parts(parts: Seq<Seq<char>>) -> Option<Seq<u8>>
    decreases parts.len(),
{
    if parts.len() == 0 {
        Some(Seq::empty())
    } else if parts[0].len() > 0 && z85_valid(parts[0]) {
        match decode_parts(parts.drop_first()) {
            Some(rest) => Some(z85_decode_valid(parts[0]) + rest),
            None => None,
        }
    } else {
        None
    }
}

/// The encoded chunks of a framed stream.
pub open spec fn encoded_chunks(b: Seq<u8>) -> Seq<Seq<char>> {
    chunks32(b).map_values(|c: Seq<u8>| z85_encode_spec(c))
}

/// Decoding the encoded chunks of a stream yields the stream, and no chunk
/// is empty.
#[verifier::rlimit(100)]
pub proof fn lemma_chunks_decode(b: Seq<u8>)
    requires
        b.len() % 4 == 0,
    ensures
        decode_parts(encoded_chunks(b)) == Some(b),
    decreases b.len(),
{
    if b.len() == 0 {
        assert(encoded_chunks(b) =~= Seq::<Seq<char>>::empty());
    } else if b.len() <= 32 {
        assert(decode_parts(encoded_chunks(b)) == Some(b)) by {
            lemma_z85_roundtrip(b);
            let parts = encoded_chunks(b);
            assert(parts =~= seq![z85_encode_spec(b)]);
            assert(parts[0] == z85_encode_spec(b));
            assert(parts[0].len() == b.len() / 4 * 5);
            assert(z85_valid(parts[0]));
            assert(parts.drop_first() =~= Seq::<Seq<char>>::empty());
            assert(decode_parts(parts.drop_first()) == Some(Seq::<u8>::empty()));
            assert(decode_parts(parts) == Some(z85_decode_valid(parts[0]) + Seq::<u8>::empty()));
            assert(z85_decode_valid(parts[0]) == b);
            assert(b + Seq::<u8>::empty() =~= b);
        }
    } else {
        let tail = b.skip(32);
        lemma_chunks_decode(tail);
        assert(decode_parts(encoded_chunks(b)) == Some(b)) by {
            let head = b.take(32);
            lemma_z85_roundtrip(head);
            let parts = encoded_chunks(b);
            assert(parts =~= seq![z85_encode_spec(head)] + encoded_chunks(tail));
            assert(parts[0] == z85_encode_spec(head));
            assert(parts[0].len() == 40);
            assert(z85_valid(parts[0]));
            assert(parts.drop_first() =~= encoded_chunks(tail));
            assert(decode_parts(parts.drop_first()) == Some(tail));
            assert(decode_parts(parts) == Some(z85_decode_valid(parts[0]) + tail));
            assert(z85_decode_valid(parts[0]) == head);
            assert(head + tail =~= b);
        }
    }
}

/// Every character of every encoded chunk is printable and is not
/// whitespace.
#[verifier::rlimit(100)]
pub proof fn lemma_chunks_printable(b: Seq<u8>)
    requires
        b.len() % 4 == 0,
    ensures
        forall|k: int| 0 <= k < encoded_chunks(b).len() ==> (#[trigger] encoded_chunks(b)[k]).len()
            > 0,
        forall|k: int, j: int|
            0 <= k < encoded_chunks(b).len() && 0 <= j < encoded_chunks(b)[k].len() ==> !is_ws(
                #[trigger] encoded_chunks(b)[k][j],
            ),
    decreases b.len(),
{
    if b.len() == 0 {
    } else if b.len() <= 32 {
        lemma_z85_printable(b);
        lemma_z85_roundtrip(b);
        let parts = encoded_chunks(b);
        assert(parts =~= seq![z85_encode_spec(b)]);
        assert forall|k: int, j: int|
            0 <= k < parts.len() && 0 <= j < parts[k].len() implies !is_ws(
            #[trigger] parts[k][j],
        ) by {
            assert(parts[k] == z85_encode_spec(b));
            assert(33 <= parts[k][j] as int <= 126);
        }
    } else {
        let head = b.take(32);
        let tail = b.skip(32);
        lemma_z85_printable(head);
        lemma_z85_roundtrip(head);
        lemma_chunks_printable(tail);
        let parts = encoded_chunks(b);
        assert(parts =~= seq![z85_encode_spec(head)] + encoded_chunks(tail));
        assert forall|k: int, j: int|
            0 <= k < parts.len() && 0 <= j < parts[k].len() implies !is_ws(
            #[trigger] parts[k][j],
        ) by {
            if k == 0 {
                assert(parts[k] == z85_encode_spec(head));
                assert(33 <= parts[k][j] as int <= 126);
            } else {
                assert(parts[k] == encoded_chunks(tail)[k - 1]);
            }
        }
    }
}

/// Whether a character is ASCII whitespace.
pub open spec fn is_ws(c: char) -> bool {
    c == ' ' || c == '\t' || c == '\n' || c == '\r' || c == '\u{c}'
}

/// Splitting on whitespace runs, scanning left to right: the characters
/// gathered so far form the current token; empty tokens never appear.
pub open spec fn split_ws_acc(s: Seq<char>, cur: Seq<char>) -> Seq<Seq<char>>
    decreases s.len(),
{
    if s.len() == 0 {
        if cur.len() > 0 {
            seq![cur]
        } else {
            Seq::empty()
        }
    } else if is_ws(s[0]) {
        (if cur.len() > 0 {
            seq![cur]
        } else {
            Seq::empty()
        }) + split_ws_acc(s.drop_first(), Seq::empty())
    } else {
        split_ws_acc(s.drop_first(), cur.push(s[0]))
    }
}

/// The whitespace-separated tokens of a string.
pub open spec fn spec_split_ws(s: Seq<char>) -> Seq<Seq<char>> {
    split_ws_acc(s, Seq::empty())
}

/// The tokens joined with single spaces.
pub open spec fn join_sp(parts: Seq<Seq<char>>) -> Seq<char>
    decreases parts.len(),
{
    if parts.len() == 0 {
        Seq::empty()
    } else if parts.len() == 1 {
        parts[0]
    } else {
        parts[0] + seq![' '] + join_sp(parts.drop_first())
    }
}

/// Scanning a whitespace-free prefix moves it into the current token.
proof fn lemma_ws_token_skip(p: Seq<char>, t: Seq<char>, cur: Seq<char>)
    requires
        forall|i: int| 0 <= i < p.len() ==> !is_ws(#[trigger] p[i]),
    ensures
        split_ws_acc(p + t, cur) == split_ws_acc(t, cur + p),
    decreases p.len(),
{
    if p.len() == 0 {
        assert(p + t =~= t);
        assert(cur + p =~= cur);
    } else {
        let c = p[0];
        assert((p + t)[0] == c);
        assert((p + t).len() > 0);
        assert((p + t).drop_first() =~= p.drop_first() + t);
        assert(forall|i: int|
            0 <= i < p.drop_first().len() ==> !is_ws(#[trigger] p.drop_first()[i]));
        lemma_ws_token_skip(p.drop_first(), t, cur.push(c));
        assert(cur.push(c) + p.drop_first() =~= cur + p);
    }
}

/// Splitting undoes joining, for nonempty whitespace-free tokens.
pub proof fn lemma_split_ws_join(parts: Seq<Seq<char>>)
    requires
        forall|k: int| 0 <= k < parts.len() ==> (#[trigger] parts[k]).len() > 0,
        forall|k: int, j: int|
            0 <= k < parts.len() && 0 <= j < parts[k].len() ==> !is_ws(#[trigger] parts[k][j]),
    ensures
        spec_split_ws(join_sp(parts)) == parts,
    decreases parts.len(),
{
    if parts.len() == 0 {
    } else if parts.len() == 1 {
        let p = parts[0];
        lemma_ws_token_skip(p, Seq::empty(), Seq::empty());
        assert(p + Seq::<char>::empty() =~= p);
        assert(Seq::<char>::empty() + p =~= p);
        assert(split_ws_acc(Seq::<char>::empty(), p) == seq![p]);
        assert(parts =~= seq![p]);
    } else {
        let p = parts[0];
        let rest = parts.drop_first();
        let t = seq![' '] + join_sp(rest);
        assert(join_sp(parts) == p + seq![' '] + join_sp(rest));
        assert(p + seq![' '] + join_sp(rest) =~= p + t);
        lemma_ws_token_skip(p, t, Seq::empty());
        assert(Seq::<char>::empty() + p =~= p);
        assert(t[0] == ' ' && is_ws(t[0]));
        assert(t.drop_first() =~= join_sp(rest));
        assert(split_ws_acc(t, p) == seq![p] + split_ws_acc(join_sp(rest), Seq::empty()));
        assert(forall|k: int| 0 <= k < rest.len() ==> (#[trigger] rest[k]).len() > 0);
        assert forall|k: int, j: int|
            0 <= k < rest.len() && 0 <= j < rest[k].len() implies !is_ws(
            #[trigger] rest[k][j],
        ) by {
            assert(rest[k] == parts[k + 1]);
        }
        lemma_split_ws_join(rest);
        assert(seq![p] + rest =~= parts);
    }
}


/// Decoding an embedded blob back to the compressed stream: split on
/// whitespace, decode and concatenate every chunk, read the frame.
pub open spec fn spec_decode_blob(s: Seq<char>) -> Option<Seq<u8>> {
    match decode_parts(spec_split_ws(s)) {
        Some(bytes) => unframe(bytes),
        None => None,
    }
}

/// The whitespace-separated tokens of a string.
fn split_ws(s: &str) -> (r: Vec<String>)
    ensures
        r@.map_values(|x: String| x@) == spec_split_ws(s@),
{
    let len = s.unicode_len();
    let mut r: Vec<String> = Vec::new();
    let mut seg_start: usize = 0;
    let mut i: usize = 0;
    proof {
        assert(s@.skip(0) =~= s@);
        assert(s@.subrange(0, 0) =~= Seq::<char>::empty());
        assert(r@.map_values(|x: String| x@) =~= Seq::<Seq<char>>::empty());
        assert(Seq::<Seq<char>>::empty() + split_ws_acc(s@, Seq::empty()) =~= split_ws_acc(
            s@,
            Seq::empty(),
        ));
    }
    while i < len
        invariant
            seg_start <= i <= len,
            len == s@.len(),
            spec_split_ws(s@) == r@.map_values(|x: String| x@) + split_ws_acc(
                s@.skip(i as int),
                s@.subrange(seg_start as int, i as int),
            ),
        decreases len - i,
    {
        let ghost pre = r@.map_values(|x: String| x@);
        let ghost rem = s@.skip(i as int);
        let ghost cur = s@.subrange(seg_start as int, i as int);
        let c = s.get_char(i);
        if c == ' ' || c == '\t' || c == '\n' || c == '\r' || c == '\u{c}' {
            proof {
                assert(is_ws(rem[0]));
                assert(rem.drop_first() =~= s@.skip(i + 1));
                assert(s@.subrange(i + 1, i + 1) =~= Seq::<char>::empty());
            }
            if i > seg_start {
                let seg = s.substring_char(seg_start, i).to_owned();
                r.push(seg);
                proof {
                    assert(cur.len() > 0);
                    assert(r@.map_values(|x: String| x@) =~= pre + seq![cur]);
                    assert(pre + (seq![cur] + split_ws_acc(s@.skip(i + 1), Seq::empty())) =~= (pre
                        + seq![cur]) + split_ws_acc(s@.skip(i + 1), Seq::empty()));
                }
            } else {
                proof {
                    assert(cur.len() == 0);
                    assert(Seq::<Seq<char>>::empty() + split_ws_acc(s@.skip(i + 1), Seq::empty())
                        =~= split_ws_acc(s@.skip(i + 1), Seq::empty()));
                }
            }
            i += 1;
            seg_start = i;
        } else {
            proof {
                assert(!is_ws(rem[0]));
                assert(rem.drop_first() =~= s@.skip(i + 1));
                assert(rem[0] == s@[i as int]);
                assert(cur.push(s@[i as int]) =~= s@.subrange(seg_start as int, i + 1));
            }
            i += 1;
        }
    }
    proof {
        assert(s@.skip(len as int) =~= Seq::<char>::empty());
    }
    if len > seg_start {
        let seg = s.substring_char(seg_start, len).to_owned();
        r.push(seg);
        proof {
            let ghost pre = r@.map_values(|x: String| x@).drop_last();
            assert(r@.map_values(|x: String| x@) =~= spec_split_ws(s@));
        }
    } else {
        proof {
            let ghost cur = s@.subrange(seg_start as int, len as int);
            assert(cur.len() == 0);
            assert(r@.map_values(|x: String| x@) + Seq::<Seq<char>>::empty() =~= r@.map_values(
                |x: String| x@,
            ));
        }
    }
    r
}

/// Joins tokens with single spaces.
fn join_parts(parts: &Vec<String>) -> (r: String)
    ensures
        r@ == join_sp(parts@.map_values(|x: String| x@)),
{
    let ghost views = parts@.map_values(|x: String| x@);
    let mut out = String::new();
    let mut i: usize = 0;
    proof {
        assert(views.skip(0) =~= views);
    }
    while i < parts.len()
        invariant
            i <= parts@.len(),
            views == parts@.map_values(|x: String| x@),
            join_sp(views) == out@ + join_sp(views.skip(i as int)),
            i < parts@.len() || out@ == join_sp(views),
        decreases parts@.len() - i,
    {
        let ghost rem = views.skip(i as int);
        proof {
            assert(rem[0] == views[i as int]);
            assert(rem.drop_first() =~= views.skip(i + 1));
        }
        out.append(parts[i].as_str());
        if i + 1 < parts.len() {
            out.append(" ");
            proof {
                assert(rem.len() >= 2);
                assert(join_sp(rem) == rem[0] + seq![' '] + join_sp(rem.drop_first()));
                reveal_strlit(" ");
                assert(" "@ =~= seq![' ']);
            }
        } else {
            proof {
                assert(rem.len() == 1);
                assert(join_sp(rem) == rem[0]);
                assert(views.skip(i + 1) =~= Seq::<Seq<char>>::empty());
            }
        }
        i += 1;
    }
    proof {
        if parts@.len() == 0 {
            assert(join_sp(views) =~= Seq::<char>::empty());
        }
    }
    out
}

/// Encodes a compressed stream as the embeddable blob: frame, cut into
/// chunks, encode each chunk, join with whitespace. Decoding the result
/// yields the stream back.
pub fn encode_blob(c: &Vec<u8>) -> (r: String)
    ensures
        spec_decode_blob(r@) == Some(c@),
{
    let mut framed: Vec<u8> = Vec::new();
    crate::codec::write_u64(&mut framed, c.len() as u64);
    let mut i: usize = 0;
    while i < c.len()
        invariant
            i <= c@.len(),
            framed@ == ser_u64(c@.len() as u64) + c@.take(i as int),
        decreases c@.len() - i,
    {
        framed.push(c[i]);
        proof {
            assert(framed@ =~= ser_u64(c@.len() as u64) + c@.take(i + 1));
        }
        i += 1;
    }
    proof {
        assert(c@.take(c@.len() as int) =~= c@);
    }
    let pad = (4 - (c.len() % 4)) % 4;
    let mut k: usize = 0;
    while k < pad
        invariant
            k <= pad,
            pad == (4 - (c@.len() % 4)) % 4,
            framed@ == ser_u64(c@.len() as u64) + c@ + zero_bytes(k as int),
        decreases pad - k,
    {
        framed.push(0);
        proof {
            assert(framed@ =~= ser_u64(c@.len() as u64) + c@ + zero_bytes(k + 1));
        }
        k += 1;
    }
    proof {
        assert(framed@ =~= frame(c@));
        lemma_frame_roundtrip(c@);
    }
    let mut parts: Vec<String> = Vec::new();
    let mut pos: usize = 0;
    proof {
        assert(framed@.skip(0) =~= framed@);
        assert(Seq::<Seq<char>>::empty() + encoded_chunks(framed@) =~= encoded_chunks(framed@));
    }
    while pos < framed.len()
        invariant
            pos <= framed@.len(),
            framed@.len() % 4 == 0,
            pos % 4 == 0,
            encoded_chunks(framed@) == parts@.map_values(|x: String| x@) + encoded_chunks(
                framed@.skip(pos as int),
            ),
        decreases framed@.len() - pos,
    {
        let ghost pre = parts@.map_values(|x: String| x@);
        let ghost rem = framed@.skip(pos as int);
        let n = if framed.len() - pos > 32 {
            32
        } else {
            framed.len() - pos
        };
        let chunk = read_exact(&framed, pos, n);
        proof {
            if rem.len() > 32 {
                assert(chunk@ =~= rem.take(32));
                assert(rem.skip(32) =~= framed@.skip(pos + 32));
                assert(encoded_chunks(rem) =~= seq![z85_encode_spec(chunk@)] + encoded_chunks(
                    framed@.skip(pos + 32),
                ));
            } else {
                assert(chunk@ =~= rem);
                assert(encoded_chunks(rem) =~= seq![z85_encode_spec(chunk@)]);
                assert(framed@.skip(pos as int + rem.len()) =~= Seq::<u8>::empty());
                assert(encoded_chunks(Seq::<u8>::empty()) =~= Seq::<Seq<char>>::empty());
            }
        }
        let part = z85_encode_chunk(&chunk);
        parts.push(part);
        proof {
            assert(parts@.map_values(|x: String| x@) =~= pre + seq![z85_encode_spec(chunk@)]);
            assert(pre + (seq![z85_encode_spec(chunk@)] + encoded_chunks(
                framed@.skip(pos as int + n as int),
            )) =~= (pre + seq![z85_encode_spec(chunk@)]) + encoded_chunks(
                framed@.skip(pos as int + n as int),
            ));
        }
        pos += n;
    }
    proof {
        assert(framed@.skip(framed@.len() as int) =~= Seq::<u8>::empty());
        assert(encoded_chunks(Seq::<u8>::empty()) =~= Seq::<Seq<char>>::empty());
        assert(parts@.map_values(|x: String| x@) + Seq::<Seq<char>>::empty() =~= parts@.map_values(
            |x: String| x@,
        ));
        lemma_chunks_decode(framed@);
        lemma_chunks_printable(framed@);
        lemma_split_ws_join(parts@.map_values(|x: String| x@));
    }
    join_parts(&parts)
}

/// Decodes an embedded blob back to the compressed stream: any malformed
/// chunk or frame yields nothing.
pub fn decode_blob(s: &str) -> (r: Option<Vec<u8>>)
    ensures
        match r {
            Some(v) => spec_decode_blob(s@) == Some(v@),
            None => spec_decode_blob(s@) is None,
        },
{
    let parts = split_ws(s);
    let ghost views = parts@.map_values(|x: String| x@);
    let mut bytes: Vec<u8> = Vec::new();
    let mut i: usize = 0;
    proof {
        assert(views.skip(0) =~= views);
        match decode_parts(views) {
            Some(rest) => {
                assert(Seq::<u8>::empty() + rest =~= rest);
            },
            None => {},
        }
    }
    while i < parts.len()
        invariant
            i <= parts@.len(),
            views == parts@.map_values(|x: String| x@),
            views == spec_split_ws(s@),
            decode_parts(views) == (match decode_parts(views.skip(i as int)) {
                Some(rest) => Some(bytes@ + rest),
                None => None,
            }),
        decreases parts@.len() - i,
    {
        let ghost rem = views.skip(i as int);
        proof {
            assert(rem[0] == views[i as int]);
            assert(rem.drop_first() =~= views.skip(i + 1));
        }
        let part = &parts[i];
        proof {
            assert(part@ == rem[0]);
            assert(rem.len() > 0);
        }
        if part.as_str().unicode_len() == 0 {
            proof {
                assert(!(rem[0].len() > 0));
                assert(decode_parts(rem) is None);
            }
            return None;
        }
        if !z85_check(part.as_str()) {
            proof {
                assert(!z85_valid(rem[0]));
                assert(decode_parts(rem) is None);
            }
            return None;
        }
        let mut decoded = z85_decode_chunk(part.as_str());
        let ghost pre = bytes@;
        bytes.append(&mut decoded);
        proof {
            match decode_parts(views.skip(i + 1)) {
                Some(r2) => {
                    assert(pre + (z85_decode_valid(rem[0]) + r2) =~= (pre + z85_decode_valid(
                        rem[0],
                    )) + r2);
                },
                None => {},
            }
        }
        i += 1;
    }
    proof {
        assert(views.skip(views.len() as int) =~= Seq::<Seq<char>>::empty());
        match decode_parts(views) {
            Some(rest) => {
                assert(bytes@ + Seq::<u8>::empty() =~= bytes@);
            },
            None => {},
        }
    }
    let (n, p) = match read_u64(&bytes, 0) {
        Some(v) => v,
        None => {
            return None;
        },
    };
    if n > (bytes.len() - p) as u64 {
        return None;
    }
    let out = read_exact(&bytes, p, n as usize);
    Some(out)
}

} // verus!
