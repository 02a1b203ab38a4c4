//! The terminal colour palette: the 16 ANSI colours and the xterm 256-colour cube.
use vstd::prelude::*;
use crate::grid::Rgb;

verus! {

pub open spec fn rgb(r: u8, g: u8, b: u8) -> Rgb {
    Rgb { r, g, b }
}

/// The 16 ANSI colours (normal and bright); any other index is white.
pub open spec fn ansi_color_spec(index: u16, bright: bool) -> Rgb {
    if !bright {
        if index == 0 { rgb(0x1a, 0x1a, 0x1a) }
        else if index == 1 { rgb(0xff, 0x5f, 0x57) }
        else if index == 2 { rgb(0x3e, 0xcf, 0x8e) }
        else if index == 3 { rgb(0xf0, 0xc0, 0x40) }
        else if index == 4 { rgb(0x7b, 0x93, 0xfd) }
        else if index == 5 { rgb(0xc0, 0x84, 0xfc) }
        else if index == 6 { rgb(0x67, 0xe8, 0xf9) }
        else if index == 7 { rgb(0xe5, 0xe5, 0xe5) }
        else { rgb(0xff, 0xff, 0xff) }
    } else {
        if index == 0 { rgb(0x55, 0x55, 0x55) }
        else if index == 1 { rgb(0xff, 0x6e, 0x6e) }
        else if index == 2 { rgb(0x5a, 0xf7, 0x8e) }
        else if index == 3 { rgb(0xf4, 0xf9, 0x9d) }
        else if index == 4 { rgb(0xca, 0xe8, 0xff) }
        else if index == 5 { rgb(0xd5, 0x7b, 0xff) }
        else if index == 6 { rgb(0x9a, 0xed, 0xfe) }
        else if index == 7 { rgb(0xff, 0xff, 0xff) }
        else { rgb(0xff, 0xff, 0xff) }
    }
}

/// Intensity of one axis of the 6x6x6 colour cube.
pub open spec fn cube_level(x: nat) -> nat {
    if x == 0 { 0 } else { 55 + x * 40 }
}

/// The xterm 256-colour palette: 16 ANSI colours, a 6x6x6 cube, and 24 greys.
pub open spec fn color_256_spec(n: u8) -> Rgb {
    if n < 8 {
        ansi_color_spec(n as u16, false)
    } else if n < 16 {
        ansi_color_spec((n - 8) as u16, true)
    } else if n < 232 {
        let idx = (n - 16) as nat;
        rgb(cube_level(idx / 36) as u8, cube_level((idx / 6) % 6) as u8, cube_level(idx % 6) as u8)
    } else {
        let v = (8 + (n - 232) * 10) as u8;
        rgb(v, v, v)
    }
}

pub fn rgb8(r: u8, g: u8, b: u8) -> (c: Rgb)
    ensures
        c == rgb(r, g, b),
{
    Rgb { r, g, b }
}

pub fn ansi_color(index: u16, bright: bool) -> (c: Rgb)
    ensures
        c == ansi_color_spec(index, bright),
{
    if !bright {
        match index {
            0 => rgb8(0x1a, 0x1a, 0x1a),
            1 => rgb8(0xff, 0x5f, 0x57),
            2 => rgb8(0x3e, 0xcf, 0x8e),
            3 => rgb8(0xf0, 0xc0, 0x40),
            4 => rgb8(0x7b, 0x93, 0xfd),
            5 => rgb8(0xc0, 0x84, 0xfc),
            6 => rgb8(0x67, 0xe8, 0xf9),
            7 => rgb8(0xe5, 0xe5, 0xe5),
            _ => rgb8(0xff, 0xff, 0xff),
        }
    } else {
        match index {
            0 => rgb8(0x55, 0x55, 0x55),
            1 => rgb8(0xff, 0x6e, 0x6e),
            2 => rgb8(0x5a, 0xf7, 0x8e),
            3 => rgb8(0xf4, 0xf9, 0x9d),
            4 => rgb8(0xca, 0xe8, 0xff),
            5 => rgb8(0xd5, 0x7b, 0xff),
            6 => rgb8(0x9a, 0xed, 0xfe),
            7 => rgb8(0xff, 0xff, 0xff),
            _ => rgb8(0xff, 0xff, 0xff),
        }
    }
}

pub fn ansi_fg(index: u16, bright: bool) -> (c: Rgb)
    ensures
        c == ansi_color_spec(index, bright),
{
    ansi_color(index, bright)
}

pub fn ansi_bg(index: u16, bright: bool) -> (c: Rgb)
    ensures
        c == ansi_color_spec(index, bright),
{
    ansi_color(index, bright)
}

fn cube(x: u32) -> (v: u8)
    requires
        x < 6,
    ensures
        v == cube_level(x as nat),
{
    if x == 0 { 0 } else { (55 + x * 40) as u8 }
}

pub fn color_256(n: u8) -> (c: Rgb)
    ensures
        c == color_256_spec(n),
{
    if n < 8 {
        ansi_fg(n as u16, false)
    } else if n < 16 {
        ansi_fg(n as u16 - 8, true)
    } else if n < 232 {
        let idx = n as u32 - 16;
        let b = idx % 6;
        let g = (idx / 6) % 6;
        let r = idx / 36;
        assert(r < 6);
        rgb8(cube(r), cube(g), cube(b))
    } else {
        let v = (8 + (n as u32 - 232) * 10) as u8;
        rgb8(v, v, v)
    }
}

} // verus!
