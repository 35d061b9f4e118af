//! Terminal colors and their SGR byte encoding.

use vstd::prelude::*;
use crate::digits::{dec_spec, dec_u64};

verus! {

#[derive(Clone, Copy, Debug, PartialEq, Eq, Structural)]
pub enum ColorEnum {
    Default,
    OneByte(u8),
    Rgb(u8, u8, u8),
}

/// A terminal color: the default color, one of the 256 indexed colors, or
/// a direct RGB value.
#[derive(Clone, Copy, Debug, PartialEq, Eq, Structural)]
pub struct Color {
    pub color: ColorEnum,
}

/// Whether a color is applied to the foreground or the background; this
/// selects the SGR parameter prefix (30 or 40).
#[derive(Clone, Copy, Debug, PartialEq, Eq, Structural)]
pub enum ColorType {
    Foreground,
    Background,
}

pub open spec fn color_prefix(t: ColorType) -> int {
    match t {
        ColorType::Foreground => 30,
        ColorType::Background => 40,
    }
}

/// The SGR escape sequence that selects color `c` for ground `t`:
/// `ESC [ <params> m`.
pub open spec fn color_bytes(c: Color, t: ColorType) -> Seq<u8> {
    let p = color_prefix(t);
    seq![0x1bu8, 91u8] + (match c.color {
        ColorEnum::Default => dec_spec(p + 9),
        ColorEnum::OneByte(v) => if v <= 7 {
            dec_spec(p + v)
        } else if v <= 15 {
            dec_spec(60 + p + v - 8)
        } else {
            dec_spec(p + 8) + seq![59u8, 53u8, 59u8] + dec_spec(v as int)
        },
        ColorEnum::Rgb(r, g, b) => dec_spec(p + 8) + seq![59u8, 50u8, 59u8] + dec_spec(r as int)
            + seq![59u8] + dec_spec(g as int) + seq![59u8] + dec_spec(b as int),
    }) + seq![109u8]
}

impl Color {
    pub fn new_one_byte(byte: u8) -> (r: Self)
        ensures
            r.color == ColorEnum::OneByte(byte),
    {
        Color { color: ColorEnum::OneByte(byte) }
    }

    pub fn new_rgb(r: u8, g: u8, b: u8) -> (c: Self)
        ensures
            c.color == ColorEnum::Rgb(r, g, b),
    {
        Color { color: ColorEnum::Rgb(r, g, b) }
    }

    /// The escape bytes that select this color, as `color_bytes` states.
    pub fn to_vec(&self, color_type: ColorType) -> (r: Vec<u8>)
        ensures
            r@ == color_bytes(*self, color_type),
    {
        let prefix: u64 = match color_type {
            ColorType::Foreground => 30,
            ColorType::Background => 40,
        };
        let mut bytes: Vec<u8> = Vec::new();
        bytes.push(0x1b);
        bytes.push(91);
        match self.color {
            ColorEnum::Default => {
                let mut d = dec_u64(prefix + 9);
                bytes.append(&mut d);
            },
            ColorEnum::OneByte(value) => {
                if value <= 7 {
                    let mut d = dec_u64(prefix + value as u64);
                    bytes.append(&mut d);
                } else if value <= 15 {
                    let mut d = dec_u64(60 + prefix + value as u64 - 8);
                    bytes.append(&mut d);
                } else {
                    let mut d = dec_u64(prefix + 8);
                    bytes.append(&mut d);
                    bytes.push(59);
                    bytes.push(53);
                    bytes.push(59);
                    let mut d = dec_u64(value as u64);
                    bytes.append(&mut d);
                }
            },
            ColorEnum::Rgb(r, g, b) => {
                let mut d = dec_u64(prefix + 8);
                bytes.append(&mut d);
                bytes.push(59);
                bytes.push(50);
                bytes.push(59);
                let mut d = dec_u64(r as u64);
                bytes.append(&mut d);
                bytes.push(59);
                let mut d = dec_u64(g as u64);
                bytes.append(&mut d);
                bytes.push(59);
                let mut d = dec_u64(b as u64);
                bytes.append(&mut d);
            },
        }
        bytes.push(109);
        proof {
            assert(bytes@ =~= color_bytes(*self, color_type));
        }
        bytes
    }
}

impl Default for Color {
    /// The terminal's default color.
    fn default() -> (r: Self)
        ensures
            r.color == ColorEnum::Default,
    {
        Color { color: ColorEnum::Default }
    }
}

} // verus!
