//! ASCII text helpers: turning byte sequences into strings, and rendering
//! bytes as lowercase hexadecimal and integers as decimal text.

use vstd::prelude::*;

verus! {

/// View of an ASCII byte sequence as characters, one character per byte.
pub open spec fn ascii_chars(b: Seq<u8>) -> Seq<char> {
    b.map_values(|x: u8| x as char)
}

/// Relies on `String::from_utf8_lossy`: bytes below 0x80 are valid UTF-8
/// and convert to one character per byte, each the character with that
/// byte's code.
#[verifier::external_body]
pub(crate) fn ascii_to_string(bytes: &Vec<u8>) -> (r: String)
    requires
        forall|i: int| 0 <= i < bytes@.len() ==> bytes@[i] < 128,
    ensures
        r@ == ascii_chars(bytes@),
{
    String::from_utf8_lossy(bytes).into_owned()
}

/// The lowercase hexadecimal digit character for `d`.
pub open spec fn hex_digit(d: nat) -> char
    recommends
        d < 16,
{
    if d < 10 {
        ((48 + d) as u8) as char
    } else {
        ((87 + d) as u8) as char
    }
}

/// The two lowercase hexadecimal digit characters of the byte `b`,
/// zero-padded, most significant nibble first.
pub open spec fn hex_byte(b: u8) -> Seq<char> {
    seq![hex_digit((b / 16) as nat), hex_digit((b % 16) as nat)]
}

/// The ASCII byte of the lowercase hexadecimal digit for `d`.
pub(crate) fn hex_digit_byte(d: u8) -> (r: u8)
    requires
        d < 16,
    ensures
        r < 128,
        r as char == hex_digit(d as nat),
{
    if d < 10 {
        48 + d
    } else {
        87 + d
    }
}

/// The decimal digit character for `d`.
pub open spec fn dec_digit(d: nat) -> char
    recommends
        d < 10,
{
    ((48 + d) as u8) as char
}

/// The decimal representation of `n`, most significant digit first, with
/// no leading zeros (a single zero for `n == 0`).
pub open spec fn dec_chars(n: nat) -> Seq<char>
    decreases n,
{
    if n < 10 {
        seq![dec_digit(n)]
    } else {
        dec_chars(n / 10) + seq![dec_digit(n % 10)]
    }
}

/// The ASCII bytes of the decimal representation of `n`.
pub open spec fn dec_bytes(n: nat) -> Seq<u8>
    decreases n,
{
    if n < 10 {
        seq![(48 + n) as u8]
    } else {
        dec_bytes(n / 10).push((48 + n % 10) as u8)
    }
}

/// The decimal bytes of `n` are ASCII digits and read, as characters,
/// exactly as the decimal representation of `n`.
pub proof fn lemma_dec_bytes_chars(n: nat)
    ensures
        forall|i: int| 0 <= i < dec_bytes(n).len() ==> 48 <= #[trigger] dec_bytes(n)[i] < 58,
        ascii_chars(dec_bytes(n)) == dec_chars(n),
    decreases n,
{
    if n < 10 {
        assert(ascii_chars(dec_bytes(n)) =~= dec_chars(n));
    } else {
        lemma_dec_bytes_chars(n / 10);
        assert(ascii_chars(dec_bytes(n)) =~= dec_chars(n));
    }
}

/// Appends the decimal ASCII bytes of `n` to `v`.
pub(crate) fn push_dec(n: u64, v: &mut Vec<u8>)
    ensures
        final(v)@ == old(v)@ + dec_bytes(n as nat),
    decreases n,
{
    if n < 10 {
        v.push(48 + n as u8);
        assert(v@ =~= old(v)@ + dec_bytes(n as nat));
    } else {
        push_dec(n / 10, v);
        v.push(48 + (n % 10) as u8);
        assert(v@ =~= old(v)@ + dec_bytes(n as nat));
    }
}

/// Renders `n` in decimal, most significant digit first, no leading
/// zeros.
pub(crate) fn dec_string(n: u64) -> (r: String)
    ensures
        r@ == dec_chars(n as nat),
{
    let mut v: Vec<u8> = Vec::new();
    push_dec(n, &mut v);
    proof {
        lemma_dec_bytes_chars(n as nat);
        assert(v@ =~= dec_bytes(n as nat));
    }
    ascii_to_string(&v)
}

} // verus!
