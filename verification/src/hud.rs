//! Small pure helpers behind the status display: the connection indicator,
//! the oscillating network pulse bar, and per-peer signal bars. Rendering
//! itself is a front-end concern; these functions only decide which glyphs
//! and colors the front end shows.

use vstd::prelude::*;

verus! {

/// An RGB color for the terminal heads-up display.
#[derive(Debug, Clone, Copy, PartialEq, Eq, Structural)]
pub struct Rgb {
    pub r: u8,
    pub g: u8,
    pub b: u8,
}

/// The bounce position of the pulse bar: up through eight levels, then back
/// down, over a fourteen-tick cycle.
pub open spec fn pulse_pos(tick: u64) -> int {
    let p = (tick as int) % 14;
    if p < 8 {
        p
    } else {
        13 - p
    }
}

/// The bar glyph shown at each bounce position.
pub open spec fn pulse_frame(pos: int) -> Seq<char> {
    if pos <= 0 {
        "▁"@
    } else if pos == 1 {
        "▂"@
    } else if pos == 2 {
        "▃"@
    } else if pos == 3 {
        "▄"@
    } else if pos == 4 {
        "▅"@
    } else if pos == 5 {
        "▆"@
    } else if pos == 6 {
        "▇"@
    } else {
        "█"@
    }
}

/// An oscillating network pulse bar for the status line.
pub fn network_pulse(tick: u64) -> (r: &'static str)
    ensures
        r@ == pulse_frame(pulse_pos(tick)),
{
    let p = tick % 14;
    let pos = if p < 8 {
        p
    } else {
        13 - p
    };
    if pos == 0 {
        "▁"
    } else if pos == 1 {
        "▂"
    } else if pos == 2 {
        "▃"
    } else if pos == 3 {
        "▄"
    } else if pos == 4 {
        "▅"
    } else if pos == 5 {
        "▆"
    } else if pos == 6 {
        "▇"
    } else {
        "█"
    }
}

/// The connection status dot and its color: blinking red while alone,
/// yellow with a few peers, green once the mesh has grown.
pub fn connection_indicator(peer_count: usize, tick: u64) -> (r: (char, Rgb))
    ensures
        peer_count == 0 ==> r == ((if tick % 6 < 3 {
            '●'
        } else {
            '○'
        }), Rgb { r: 255u8, g: 50u8, b: 50u8 }),
        0 < peer_count < 3 ==> r == ('●', Rgb { r: 255u8, g: 215u8, b: 0u8 }),
        peer_count >= 3 ==> r == ('●', Rgb { r: 0u8, g: 255u8, b: 100u8 }),
{
    if peer_count == 0 {
        let ch = if tick % 6 < 3 {
            '●'
        } else {
            '○'
        };
        (ch, Rgb { r: 255, g: 50, b: 50 })
    } else if peer_count < 3 {
        ('●', Rgb { r: 255, g: 215, b: 0 })
    } else {
        ('●', Rgb { r: 0, g: 255, b: 100 })
    }
}

/// The signal strength bar for a peer: weaker over a relayed circuit than
/// over a direct connection.
pub fn signal_bar(is_relayed: bool) -> (r: (&'static str, Rgb))
    ensures
        is_relayed ==> r.0@ == "▰▰▱▱▱"@ && r.1 == (Rgb { r: 255u8, g: 215u8, b: 0u8 }),
        !is_relayed ==> r.0@ == "▰▰▰▰▱"@ && r.1 == (Rgb { r: 0u8, g: 255u8, b: 100u8 }),
{
    if is_relayed {
        ("▰▰▱▱▱", Rgb { r: 255, g: 215, b: 0 })
    } else {
        ("▰▰▰▰▱", Rgb { r: 0, g: 255, b: 100 })
    }
}

} // verus!
