//! Presentation decisions of the signature inspector: when colour is
//! allowed, and how a cursor colour is spelled.

use crate::strbytes::all_ascii;
use crate::strbytes::ascii_chars_of;
use crate::strbytes::ascii_string;
use vstd::prelude::*;
use vstd::string::StringExecFns;

verus! {

/// Whether terminal output may be coloured.
#[derive(Clone, Copy, PartialEq, Eq, Structural, Debug)]
pub struct ColorConfig {
    pub enabled: bool,
}

impl ColorConfig {
    /// A configuration with the given decision.
    pub fn new(enabled: bool) -> (r: ColorConfig)
        ensures
            r.enabled == enabled,
    {
        ColorConfig { enabled }
    }
}

/// Colour is enabled only when no opt-out is set, the terminal is not dumb,
/// and output goes to a terminal.
pub fn should_enable_color(
    no_color_set: bool,
    app_no_color_set: bool,
    term_is_dumb: bool,
    stdout_is_tty: bool,
) -> (r: bool)
    ensures
        r == (!no_color_set && !app_no_color_set && !term_is_dumb && stdout_is_tty),
{
    if no_color_set {
        return false;
    }
    if app_no_color_set {
        return false;
    }
    if term_is_dumb {
        return false;
    }
    stdout_is_tty
}

/// Uppercase hexadecimal digit for a value below 16.
pub open spec fn hex_upper(v: u8) -> u8 {
    if v < 10 {
        (0x30 + v) as u8
    } else {
        (0x37 + v) as u8
    }
}

/// The two uppercase hexadecimal digits of a byte.
pub open spec fn hex_byte(b: u8) -> Seq<u8> {
    seq![hex_upper(b / 16), hex_upper(b % 16)]
}

/// The spelled form of a cursor colour: the two pure extremes by name,
/// anything else as `#RRGGBBAA`.
pub open spec fn color_text(r: u8, g: u8, b: u8, a: u8) -> Seq<char> {
    if r == 255 && g == 255 && b == 255 && a == 255 {
        ("White")@
    } else if r == 0 && g == 0 && b == 0 && a == 255 {
        ("Black")@
    } else {
        ascii_chars_of(seq![0x23u8] + hex_byte(r) + hex_byte(g) + hex_byte(b) + hex_byte(a))
    }
}

/// Push the uppercase hexadecimal digits of one byte.
fn push_hex_byte(out: &mut Vec<u8>, b: u8)
    ensures
        final(out)@ == old(out)@ + hex_byte(b),
{
    let hi = b / 16;
    let lo = b % 16;
    out.push(if hi < 10 { 0x30 + hi } else { 0x37 + hi });
    out.push(if lo < 10 { 0x30 + lo } else { 0x37 + lo });
    proof {
        assert(out@ =~= old(out)@ + hex_byte(b));
    }
}

/// Spell a cursor colour.
pub fn format_color(r: u8, g: u8, b: u8, a: u8) -> (res: String)
    ensures
        res@ == color_text(r, g, b, a),
{
    if r == 255 && g == 255 && b == 255 && a == 255 {
        return String::from_str("White");
    }
    if r == 0 && g == 0 && b == 0 && a == 255 {
        return String::from_str("Black");
    }
    let mut out: Vec<u8> = Vec::new();
    out.push(0x23);
    push_hex_byte(&mut out, r);
    push_hex_byte(&mut out, g);
    push_hex_byte(&mut out, b);
    push_hex_byte(&mut out, a);
    proof {
        assert(out@ =~= seq![0x23u8] + hex_byte(r) + hex_byte(g) + hex_byte(b) + hex_byte(a));
        assert(all_ascii(out@));
    }
    ascii_string(out)
}

} // verus!
