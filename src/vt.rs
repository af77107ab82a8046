use vstd::prelude::*;

verus! {

/// The four display classes a byte value falls into.
#[derive(Clone, Copy, Debug, PartialEq, Eq, Structural)]
pub enum ByteClass {
    Null,
    Control,
    Printable,
    Extended,
}

/// The class of a byte value.
pub open spec fn spec_class(b: u8) -> ByteClass {
    if b == 0 {
        ByteClass::Null
    } else if b <= 0x20 {
        ByteClass::Control
    } else if b >= 0x7f {
        ByteClass::Extended
    } else {
        ByteClass::Printable
    }
}

pub fn class_of(b: u8) -> (r: ByteClass)
    ensures
        r == spec_class(b),
{
    if b == 0 {
        ByteClass::Null
    } else if b <= 0x20 {
        ByteClass::Control
    } else if b >= 0x7f {
        ByteClass::Extended
    } else {
        ByteClass::Printable
    }
}

/// A foreground color of the fixed palette.
#[derive(Clone, Copy, Debug, PartialEq, Eq, Structural)]
pub enum VtColor {
    Default,
    Red,
    Magenta,
    Grey,
}

/// The SGR parameter that selects a color.
pub open spec fn spec_vt_code(c: VtColor) -> u8 {
    match c {
        VtColor::Default => 39,
        VtColor::Red => 31,
        VtColor::Magenta => 35,
        VtColor::Grey => 90,
    }
}

/// The color in which a byte is shown, decided by its class.
pub open spec fn spec_color(b: u8) -> VtColor {
    match spec_class(b) {
        ByteClass::Null => VtColor::Red,
        ByteClass::Control => VtColor::Magenta,
        ByteClass::Extended => VtColor::Grey,
        ByteClass::Printable => VtColor::Default,
    }
}

/// The escape sequence `ESC [ <code> m` that selects a color.
pub open spec fn color_seq(c: VtColor) -> Seq<u8> {
    let code = spec_vt_code(c);
    seq![0x1bu8, 0x5bu8, (0x30 + code / 10) as u8, (0x30 + code % 10) as u8, 0x6du8]
}

/// The escape sequence `ESC [ 0 K` that erases from the cursor to the end of the line.
pub open spec fn clear_right_seq() -> Seq<u8> {
    seq![0x1bu8, 0x5bu8, 0x30u8, 0x4bu8]
}

impl VtColor {
    pub fn vt_code(&self) -> (r: u8)
        ensures
            r == spec_vt_code(*self),
    {
        match self {
            VtColor::Default => 39,
            VtColor::Red => 31,
            VtColor::Magenta => 35,
            VtColor::Grey => 90,
        }
    }

    /// The escape sequence that selects this color, as bytes.
    pub fn to_bytes(&self) -> (r: Vec<u8>)
        ensures
            r@ == color_seq(*self),
    {
        let mut out: Vec<u8> = Vec::new();
        push_color(&mut out, *self);
        out
    }
}

/// The color of a byte: red for zero, magenta for control codes and the space,
/// grey for bytes from 0x7f up, the default color for the rest.
pub fn color_for_ascii(ascii_code: &u8) -> (r: VtColor)
    ensures
        r == spec_color(*ascii_code),
{
    match class_of(*ascii_code) {
        ByteClass::Null => VtColor::Red,
        ByteClass::Control => VtColor::Magenta,
        ByteClass::Extended => VtColor::Grey,
        ByteClass::Printable => VtColor::Default,
    }
}

/// Appends the escape sequence that selects `c`.
pub fn push_color(out: &mut Vec<u8>, c: VtColor)
    ensures
        final(out)@ == old(out)@ + color_seq(c),
{
    let code = c.vt_code();
    out.push(0x1b);
    out.push(0x5b);
    out.push(0x30 + code / 10);
    out.push(0x30 + code % 10);
    out.push(0x6d);
    assert(out@ =~= old(out)@ + color_seq(c));
}

/// Appends the escape sequence that erases to the end of the line.
pub fn push_clear_right(out: &mut Vec<u8>)
    ensures
        final(out)@ == old(out)@ + clear_right_seq(),
{
    out.push(0x1b);
    out.push(0x5b);
    out.push(0x30);
    out.push(0x4b);
    assert(out@ =~= old(out)@ + clear_right_seq());
}

} // verus!
