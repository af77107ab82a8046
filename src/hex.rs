use vstd::prelude::*;

verus! {

/// The lowercase hexadecimal digit for a value below sixteen.
pub open spec fn spec_hex_digit(d: nat) -> u8 {
    if d < 10 {
        (0x30 + d) as u8
    } else {
        (0x61 + d - 10) as u8
    }
}

/// The value of a lowercase hexadecimal digit, or -1 for any other byte.
pub open spec fn digit_value(c: u8) -> int {
    if 0x30 <= c && c <= 0x39 {
        c - 0x30
    } else if 0x61 <= c && c <= 0x66 {
        c - 0x61 + 10
    } else {
        -1
    }
}

/// The two lowercase hexadecimal digits of a byte, high digit first.
pub open spec fn hex2(b: u8) -> Seq<u8> {
    seq![spec_hex_digit((b / 16) as nat), spec_hex_digit((b % 16) as nat)]
}

/// The lowercase hexadecimal text of `v`, padded with zeros to at least `w` digits.
pub open spec fn hex_text(v: nat, w: nat) -> Seq<u8>
    decreases v + w,
{
    if v == 0 && w == 0 {
        Seq::empty()
    } else {
        hex_text(v / 16, if w > 0 { (w - 1) as nat } else { 0 }) + seq![spec_hex_digit(v % 16)]
    }
}

/// The two digits of a byte are lowercase hexadecimal digits, and reading them
/// back gives the byte.
pub proof fn lemma_hex2_round_trip(b: u8)
    ensures
        hex2(b).len() == 2,
        0 <= digit_value(hex2(b)[0]) < 16,
        0 <= digit_value(hex2(b)[1]) < 16,
        digit_value(hex2(b)[0]) * 16 + digit_value(hex2(b)[1]) == b,
{
}

pub fn hex_digit(d: u8) -> (r: u8)
    requires
        d < 16,
    ensures
        r == spec_hex_digit(d as nat),
{
    if d < 10 {
        0x30 + d
    } else {
        0x61 + d - 10
    }
}

/// Appends the two lowercase hexadecimal digits of `b`.
pub fn push_hex_byte(out: &mut Vec<u8>, b: u8)
    ensures
        final(out)@ == old(out)@ + hex2(b),
{
    out.push(hex_digit(b / 16));
    out.push(hex_digit(b % 16));
    assert(out@ =~= old(out)@ + hex2(b));
}

/// Appends the lowercase hexadecimal text of `v`, zero-padded to at least `w` digits.
pub fn push_hex_padded(out: &mut Vec<u8>, v: u64, w: u64)
    ensures
        final(out)@ == old(out)@ + hex_text(v as nat, w as nat),
    decreases v + w,
{
    if v == 0 && w == 0 {
        assert(out@ =~= old(out)@ + hex_text(v as nat, w as nat));
        return;
    }
    let nw: u64 = if w > 0 { w - 1 } else { 0 };
    push_hex_padded(out, v / 16, nw);
    out.push(hex_digit((v % 16) as u8));
    assert(out@ =~= old(out)@ + hex_text(v as nat, w as nat));
}

} // verus!
