use vstd::prelude::*;
use vstd::string::{StrSliceExecFns, StringExecFns};

use crate::CodecError;

verus! {

/// The lowercase hexadecimal digit for a value below sixteen.
pub open spec fn hex_digit(n: nat) -> char {
    if n == 0 { '0' } else if n == 1 { '1' } else if n == 2 { '2' } else if n == 3 { '3' }
    else if n == 4 { '4' } else if n == 5 { '5' } else if n == 6 { '6' } else if n == 7 { '7' }
    else if n == 8 { '8' } else if n == 9 { '9' } else if n == 10 { 'a' } else if n == 11 { 'b' }
    else if n == 12 { 'c' } else if n == 13 { 'd' } else if n == 14 { 'e' } else { 'f' }
}

/// The lowercase hex rendering of a byte string: two digits per byte, high
/// nibble first, no prefix.
pub open spec fn hex_chars(b: Seq<u8>) -> Seq<char>
    decreases b,
{
    if b.len() == 0 {
        Seq::empty()
    } else {
        seq![hex_digit((b[0] / 16) as nat), hex_digit((b[0] % 16) as nat)] + hex_chars(
            b.subrange(1, b.len() as int),
        )
    }
}

pub open spec fn is_hex_char(c: char) -> bool {
    ('0' <= c && c <= '9') || ('a' <= c && c <= 'f') || ('A' <= c && c <= 'F')
}

pub open spec fn hex_char_val(c: char) -> int {
    if '0' <= c && c <= '9' {
        (c as int) - ('0' as int)
    } else if 'a' <= c && c <= 'f' {
        (c as int) - ('a' as int) + 10
    } else if 'A' <= c && c <= 'F' {
        (c as int) - ('A' as int) + 10
    } else {
        0
    }
}

/// A decodable hex text: even length, hex digits only (either case).
pub open spec fn valid_hex(s: Seq<char>) -> bool {
    s.len() % 2 == 0 && forall|i: int| 0 <= i < s.len() ==> is_hex_char(#[trigger] s[i])
}

/// The bytes a valid hex text denotes, one byte per digit pair.
pub open spec fn hex_bytes(s: Seq<char>) -> Seq<u8>
    decreases s,
{
    if s.len() < 2 {
        Seq::empty()
    } else {
        seq![(hex_char_val(s[0]) * 16 + hex_char_val(s[1])) as u8] + hex_bytes(
            s.subrange(2, s.len() as int),
        )
    }
}

/// The text form of a byte string is always decodable, and decodes to the
/// bytes it was made from: the hex adapter round-trips on every input.
pub proof fn lemma_hex_roundtrip(b: Seq<u8>)
    ensures
        hex_chars(b).len() == 2 * b.len(),
        valid_hex(hex_chars(b)),
        hex_bytes(hex_chars(b)) == b,
    decreases b,
{
    if b.len() == 0 {
    } else {
        let rest = b.subrange(1, b.len() as int);
        lemma_hex_roundtrip(rest);
        let s = hex_chars(b);
        assert(s.subrange(2, s.len() as int) =~= hex_chars(rest));
        assert(hex_char_val(hex_digit((b[0] / 16) as nat)) == b[0] / 16);
        assert(hex_char_val(hex_digit((b[0] % 16) as nat)) == b[0] % 16);
        assert((hex_char_val(s[0]) * 16 + hex_char_val(s[1])) as u8 == b[0]);
        assert(hex_bytes(s) =~= b);
        assert forall|i: int| 0 <= i < s.len() implies is_hex_char(#[trigger] s[i]) by {
            if i >= 2 {
                assert(hex_chars(rest)[i - 2] == s[i]);
            }
        }
    }
}

/// The one-character string for a value below sixteen.
pub(crate) fn digit_str(n: u8) -> (r: &'static str)
    requires
        n < 16,
    ensures
        r@ == seq![hex_digit(n as nat)],
{
    proof {
        reveal_strlit("0");
        reveal_strlit("1");
        reveal_strlit("2");
        reveal_strlit("3");
        reveal_strlit("4");
        reveal_strlit("5");
        reveal_strlit("6");
        reveal_strlit("7");
        reveal_strlit("8");
        reveal_strlit("9");
        reveal_strlit("a");
        reveal_strlit("b");
        reveal_strlit("c");
        reveal_strlit("d");
        reveal_strlit("e");
        reveal_strlit("f");
    }
    if n == 0 { "0" } else if n == 1 { "1" } else if n == 2 { "2" } else if n == 3 { "3" }
    else if n == 4 { "4" } else if n == 5 { "5" } else if n == 6 { "6" } else if n == 7 { "7" }
    else if n == 8 { "8" } else if n == 9 { "9" } else if n == 10 { "a" } else if n == 11 { "b" }
    else if n == 12 { "c" } else if n == 13 { "d" } else if n == 14 { "e" } else { "f" }
}

/// Renders bytes as lowercase hex text, two digits per byte.
pub fn hex_encode(b: &[u8]) -> (r: String)
    ensures
        r@ == hex_chars(b@),
{
    let mut out = String::new();
    let mut i: usize = 0;
    while i < b.len()
        invariant
            i <= b@.len(),
            out@ == hex_chars(b@.subrange(0, i as int)),
        decreases b@.len() - i,
    {
        out.append(digit_str(b[i] / 16));
        out.append(digit_str(b[i] % 16));
        proof {
            lemma_hex_chars_push(b@.subrange(0, i as int), b@[i as int]);
            assert(b@.subrange(0, i + 1int) =~= b@.subrange(0, i as int).push(b@[i as int]));
        }
        i = i + 1;
    }
    proof {
        assert(b@.subrange(0, b@.len() as int) =~= b@);
    }
    out
}

/// The hex text of a byte string grown by one byte at the end.
pub proof fn lemma_hex_chars_push(b: Seq<u8>, x: u8)
    ensures
        hex_chars(b.push(x)) == hex_chars(b) + seq![hex_digit((x / 16) as nat)] + seq![
            hex_digit((x % 16) as nat),
        ],
    decreases b,
{
    let w = b.push(x);
    if b.len() == 0 {
        assert(w.len() == 1);
        assert(w[0] == x);
        let t = w.subrange(1, w.len() as int);
        assert(t =~= Seq::<u8>::empty());
        assert(hex_chars(t) == Seq::<char>::empty());
        assert(hex_chars(w) =~= hex_chars(b) + seq![hex_digit((x / 16) as nat)] + seq![
            hex_digit((x % 16) as nat),
        ]);
    } else {
        assert(w.subrange(1, w.len() as int) =~= b.subrange(1, b.len() as int).push(x));
        lemma_hex_chars_push(b.subrange(1, b.len() as int), x);
        assert(w[0] == b[0]);
        assert(hex_chars(w) =~= hex_chars(b) + seq![hex_digit((x / 16) as nat)] + seq![
            hex_digit((x % 16) as nat),
        ]);
    }
}

/// Decodes hex text to bytes.  Succeeds exactly on even-length strings of hex
/// digits (either case accepted); anything else is `InvalidHex`.
pub fn hex_decode(s: &str) -> (r: Result<Vec<u8>, CodecError>)
    ensures
        valid_hex(s@) ==> (r matches Ok(v) && v@ == hex_bytes(s@)),
        !valid_hex(s@) ==> r == Err::<Vec<u8>, _>(CodecError::InvalidHex),
{
    let n = s.unicode_len();
    if n % 2 != 0 {
        return Err(CodecError::InvalidHex);
    }
    let mut out: Vec<u8> = Vec::new();
    let mut i: usize = 0;
    while i < n
        invariant
            i <= n,
            i % 2 == 0,
            n % 2 == 0,
            n == s@.len(),
            out@ == hex_bytes(s@.subrange(0, i as int)),
            forall|j: int| 0 <= j < i ==> is_hex_char(#[trigger] s@[j]),
        decreases n - i,
    {
        let hi = s.get_char(i);
        let lo = s.get_char(i + 1);
        match (char_val(hi), char_val(lo)) {
            (Some(h), Some(l)) => {
                out.push(h * 16 + l);
                proof {
                    lemma_hex_bytes_push(s@.subrange(0, i as int), s@[i as int], s@[i + 1int]);
                    assert(s@.subrange(0, i + 2int) =~= s@.subrange(0, i as int).push(
                        s@[i as int],
                    ).push(s@[i + 1int]));
                }
                i = i + 2;
            }
            _ => {
                return Err(CodecError::InvalidHex);
            }
        }
    }
    proof {
        assert(s@.subrange(0, s@.len() as int) =~= s@);
    }
    Ok(out)
}

/// Two more digits extend the decoded bytes by one byte.
pub proof fn lemma_hex_bytes_push(s: Seq<char>, c1: char, c2: char)
    requires
        s.len() % 2 == 0,
    ensures
        hex_bytes(s.push(c1).push(c2)) == hex_bytes(s).push(
            (hex_char_val(c1) * 16 + hex_char_val(c2)) as u8,
        ),
    decreases s,
{
    let w = s.push(c1).push(c2);
    if s.len() == 0 {
        assert(w.len() == 2);
        assert(w[0] == c1 && w[1] == c2);
        let t = w.subrange(2, w.len() as int);
        assert(t =~= Seq::<char>::empty());
        assert(hex_bytes(t) == Seq::<u8>::empty());
        assert(hex_bytes(w) == seq![(hex_char_val(w[0]) * 16 + hex_char_val(w[1])) as u8]
            + hex_bytes(t));
        assert(hex_bytes(s) == Seq::<u8>::empty());
        assert(hex_bytes(w) =~= hex_bytes(s).push((hex_char_val(c1) * 16 + hex_char_val(c2)) as u8));
    } else {
        let rest = s.subrange(2, s.len() as int);
        assert(w.subrange(2, w.len() as int) =~= rest.push(c1).push(c2));
        lemma_hex_bytes_push(rest, c1, c2);
        assert(w[0] == s[0] && w[1] == s[1]);
        assert(hex_bytes(w) == seq![(hex_char_val(w[0]) * 16 + hex_char_val(w[1])) as u8]
            + hex_bytes(w.subrange(2, w.len() as int)));
        assert(hex_bytes(s) == seq![(hex_char_val(s[0]) * 16 + hex_char_val(s[1])) as u8]
            + hex_bytes(rest));
        assert(hex_bytes(w) =~= hex_bytes(s).push((hex_char_val(c1) * 16 + hex_char_val(c2)) as u8));
    }
}

/// The value of one hex digit, or `None` for any other character.
fn char_val(c: char) -> (r: Option<u8>)
    ensures
        is_hex_char(c) ==> r == Some((hex_char_val(c) as u8)),
        !is_hex_char(c) ==> r is None,
{
    if '0' <= c && c <= '9' {
        Some((c as u8) - ('0' as u8))
    } else if 'a' <= c && c <= 'f' {
        Some((c as u8) - ('a' as u8) + 10)
    } else if 'A' <= c && c <= 'F' {
        Some((c as u8) - ('A' as u8) + 10)
    } else {
        None
    }
}

/// A hex text denotes one byte for each two of its digits.
pub proof fn lemma_hex_bytes_len(s: Seq<char>)
    ensures
        hex_bytes(s).len() == s.len() / 2,
    decreases s,
{
    if s.len() >= 2 {
        lemma_hex_bytes_len(s.subrange(2, s.len() as int));
    }
}

} // verus!
