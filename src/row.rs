use vstd::prelude::*;

use crate::hex::{hex2, hex_text, push_hex_byte, push_hex_padded};
use crate::vt::{VtColor, color_for_ascii, color_seq, push_color, spec_color};

verus! {

/// Bytes shown on one line of the dump.
pub const ROW_LEN: usize = 16;

/// The separator after a hex column: two spaces after the eighth and the
/// sixteenth column, one elsewhere.
pub open spec fn column_gap(i: nat) -> Seq<u8> {
    if i == 7 || i == 15 {
        seq![0x20u8, 0x20u8]
    } else {
        seq![0x20u8]
    }
}

/// One hex column that holds byte `b`: its color, its two digits, a reset to
/// the default color, and the gap, so that gaps and padding are never painted.
pub open spec fn hex_cell(i: nat, b: u8) -> Seq<u8> {
    color_seq(spec_color(b)) + hex2(b) + color_seq(VtColor::Default) + column_gap(i)
}

/// The hex columns of the bytes, in order.
pub open spec fn hex_cells(bytes: Seq<u8>) -> Seq<u8>
    decreases bytes.len(),
{
    if bytes.len() == 0 {
        Seq::empty()
    } else {
        hex_cells(bytes.drop_last()) + hex_cell((bytes.len() - 1) as nat, bytes.last())
    }
}

/// A blank hex column: spaces as wide as a filled one.
pub open spec fn blank_cell(i: nat) -> Seq<u8> {
    seq![0x20u8, 0x20u8] + column_gap(i)
}

/// The blank columns `from` up to `to`, exclusive.
pub open spec fn blank_cells(from: nat, to: nat) -> Seq<u8>
    decreases to,
{
    if to <= from {
        Seq::empty()
    } else {
        blank_cells(from, (to - 1) as nat) + blank_cell((to - 1) as nat)
    }
}

/// The character shown for a byte in the text gutter: the byte itself when it
/// is printable ASCII (space included), a dot otherwise.
pub open spec fn spec_gutter_char(b: u8) -> u8 {
    if 0x20 <= b && b <= 0x7e {
        b
    } else {
        0x2eu8
    }
}

/// The text gutter of the bytes, each character preceded by its color.
pub open spec fn gutter(bytes: Seq<u8>) -> Seq<u8>
    decreases bytes.len(),
{
    if bytes.len() == 0 {
        Seq::empty()
    } else {
        gutter(bytes.drop_last()) + color_seq(spec_color(bytes.last())) + seq![
            spec_gutter_char(bytes.last()),
        ]
    }
}

/// The full text of a row that holds `bytes` (at most sixteen) and starts at
/// stream position `offset`: the offset in at least eight hex digits, the hex
/// columns padded to sixteen, and the text gutter between bars.
pub open spec fn row_text(bytes: Seq<u8>, offset: nat) -> Seq<u8> {
    color_seq(VtColor::Default) + hex_text(offset, 8) + seq![0x20u8, 0x20u8] + hex_cells(bytes)
        + blank_cells(bytes.len(), 16) + color_seq(VtColor::Default) + seq![0x7cu8] + gutter(bytes)
        + color_seq(VtColor::Default) + seq![0x7cu8]
}

pub fn gutter_char(b: u8) -> (r: u8)
    ensures
        r == spec_gutter_char(b),
{
    if 0x20 <= b && b <= 0x7e {
        b
    } else {
        0x2e
    }
}

fn push_gap(out: &mut Vec<u8>, i: usize)
    ensures
        final(out)@ == old(out)@ + column_gap(i as nat),
{
    out.push(0x20);
    if i == 7 || i == 15 {
        out.push(0x20);
    }
    assert(out@ =~= old(out)@ + column_gap(i as nat));
}

/// Appends the text of the row made of the first `len` bytes of `row`, which
/// starts at stream position `offset`.
pub fn render_row(out: &mut Vec<u8>, row: &Vec<u8>, len: usize, offset: u64)
    requires
        len <= row@.len(),
        len <= ROW_LEN,
    ensures
        final(out)@ == old(out)@ + row_text(row@.subrange(0, len as int), offset as nat),
{
    let ghost bytes = row@.subrange(0, len as int);
    push_color(out, VtColor::Default);
    push_hex_padded(out, offset, 8);
    out.push(0x20);
    out.push(0x20);
    let ghost head = out@;
    let mut i: usize = 0;
    while i < len
        invariant
            i <= len,
            len <= row@.len(),
            bytes == row@.subrange(0, len as int),
            out@ == head + hex_cells(bytes.subrange(0, i as int)),
        decreases len - i,
    {
        let b = row[i];
        push_color(out, color_for_ascii(&b));
        push_hex_byte(out, b);
        push_color(out, VtColor::Default);
        push_gap(out, i);
        assert(bytes.subrange(0, i + 1).drop_last() =~= bytes.subrange(0, i as int));
        assert(out@ =~= head + hex_cells(bytes.subrange(0, i + 1)));
        i = i + 1;
    }
    assert(bytes.subrange(0, len as int) =~= bytes);
    let ghost mid = out@;
    let mut j: usize = len;
    while j < ROW_LEN
        invariant
            len <= j <= ROW_LEN,
            out@ == mid + blank_cells(len as nat, j as nat),
        decreases ROW_LEN - j,
    {
        out.push(0x20);
        out.push(0x20);
        push_gap(out, j);
        assert(out@ =~= mid + blank_cells(len as nat, (j + 1) as nat));
        j = j + 1;
    }
    push_color(out, VtColor::Default);
    out.push(0x7c);
    let ghost mid2 = out@;
    let mut k: usize = 0;
    while k < len
        invariant
            k <= len,
            len <= row@.len(),
            bytes == row@.subrange(0, len as int),
            out@ == mid2 + gutter(bytes.subrange(0, k as int)),
        decreases len - k,
    {
        let b = row[k];
        push_color(out, color_for_ascii(&b));
        out.push(gutter_char(b));
        assert(bytes.subrange(0, k + 1).drop_last() =~= bytes.subrange(0, k as int));
        assert(out@ =~= mid2 + gutter(bytes.subrange(0, k + 1)));
        k = k + 1;
    }
    push_color(out, VtColor::Default);
    out.push(0x7c);
    assert(out@ =~= old(out)@ + row_text(bytes, offset as nat));
}

} // verus!
