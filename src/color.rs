use vstd::prelude::*;

verus! {

/// Number of interpolation segments of the gradient.
pub const STOPS: usize = 18;

/// Number of stops of the gradient: one more than the segments.
pub const GRADIENT_LEN: usize = 19;

/// Opaque black, given to values at or past the top of the range.
pub const BACKGROUND: u32 = 0xff00_0000;

/// One gradient stop. Each channel is counted in halves of full intensity:
/// 0 is off, 1 is half, 2 is full.
#[derive(Clone, Copy, Debug, PartialEq, Eq, Structural)]
pub struct Stop {
    pub r: u8,
    pub g: u8,
    pub b: u8,
}

pub open spec fn stop(r: u8, g: u8, b: u8) -> Stop {
    Stop { r, g, b }
}

/// The palette: dark blue through cyan, yellow and red to dark red, back
/// again, and black at the end.
pub open spec fn gradient_table() -> Seq<Stop> {
    seq![
        stop(0, 0, 1), stop(0, 0, 2), stop(0, 1, 2), stop(0, 2, 2), stop(1, 2, 1),
        stop(2, 2, 0), stop(2, 1, 0), stop(2, 0, 0), stop(1, 0, 0), stop(1, 0, 0),
        stop(2, 0, 0), stop(2, 1, 0), stop(2, 2, 0), stop(1, 2, 1), stop(0, 2, 2),
        stop(0, 1, 2), stop(0, 0, 2), stop(0, 0, 1), stop(0, 0, 0),
    ]
}

/// Stop `i` of the palette.
pub fn gradient_stop(i: usize) -> (r: Stop)
    requires
        i < GRADIENT_LEN,
    ensures
        r == gradient_table()[i as int],
        r.r <= 2 && r.g <= 2 && r.b <= 2,
{
    let t: Vec<Stop> = vec![
        Stop { r: 0, g: 0, b: 1 }, Stop { r: 0, g: 0, b: 2 }, Stop { r: 0, g: 1, b: 2 },
        Stop { r: 0, g: 2, b: 2 }, Stop { r: 1, g: 2, b: 1 }, Stop { r: 2, g: 2, b: 0 },
        Stop { r: 2, g: 1, b: 0 }, Stop { r: 2, g: 0, b: 0 }, Stop { r: 1, g: 0, b: 0 },
        Stop { r: 1, g: 0, b: 0 }, Stop { r: 2, g: 0, b: 0 }, Stop { r: 2, g: 1, b: 0 },
        Stop { r: 2, g: 2, b: 0 }, Stop { r: 1, g: 2, b: 1 }, Stop { r: 0, g: 2, b: 2 },
        Stop { r: 0, g: 1, b: 2 }, Stop { r: 0, g: 0, b: 2 }, Stop { r: 0, g: 0, b: 1 },
        Stop { r: 0, g: 0, b: 0 },
    ];
    assert(t@ =~= gradient_table());
    t[i]
}

/// The two stops bounding segment `bin`, or `None` for a bin at or past
/// `STOPS`, whose pixel takes the background colour. Never reads past the
/// palette's end.
pub fn gradient_segment(bin: usize) -> (r: Option<(Stop, Stop)>)
    ensures
        bin >= STOPS ==> r.is_none(),
        bin < STOPS ==> r == Some((gradient_table()[bin as int], gradient_table()[bin + 1])),
{
    if bin >= STOPS {
        None
    } else {
        Some((gradient_stop(bin), gradient_stop(bin + 1)))
    }
}

/// Every segment below `STOPS` has an upper stop in the palette.
pub proof fn lemma_segment_within_table(bin: int)
    requires
        0 <= bin < STOPS,
    ensures
        gradient_table().len() == STOPS + 1,
        0 <= bin + 1 < gradient_table().len(),
{
}

pub open spec fn clamp_channel(v: int) -> int {
    if v < 0 {
        0
    } else if v > 255 {
        255
    } else {
        v
    }
}

/// The packed colour `0xff000000 | (r << 16) | (g << 8) | b`.
pub open spec fn argb(r: int, g: int, b: int) -> int {
    0xff00_0000 + r * 65536 + g * 256 + b
}

/// Packs three channels, each clamped to `[0, 255]`, as an opaque colour.
pub fn pack_argb(r: i64, g: i64, b: i64) -> (c: u32)
    ensures
        c as int == argb(clamp_channel(r as int), clamp_channel(g as int), clamp_channel(b as int)),
{
    let r8 = clamp(r);
    let g8 = clamp(g);
    let b8 = clamp(b);
    BACKGROUND + r8 * 65536 + g8 * 256 + b8
}

fn clamp(v: i64) -> (r: u32)
    ensures
        r as int == clamp_channel(v as int),
        r <= 255,
{
    if v < 0 {
        0
    } else if v > 255 {
        255
    } else {
        v as u32
    }
}

/// A stop's intensity, in halves, scaled to `[0, 255]` and rounded half up.
pub open spec fn level_of(halves: int) -> int {
    (halves * 255 + 1) / 2
}

/// The colour a value at the bottom of segment `bin` takes: the lower stop
/// itself, each channel scaled to a byte.
pub fn color_at_stop(bin: usize) -> (c: u32)
    requires
        bin < STOPS,
    ensures
        ({
            let s = gradient_table()[bin as int];
            c as int == argb(level_of(s.r as int), level_of(s.g as int), level_of(s.b as int))
        }),
{
    let s = gradient_stop(bin);
    pack_argb(
        (s.r as i64 * 255 + 1) / 2,
        (s.g as i64 * 255 + 1) / 2,
        (s.b as i64 * 255 + 1) / 2,
    )
}

/// The red, green and blue bytes of a packed colour; alpha is dropped.
pub open spec fn rgb_of(c: u32) -> Seq<u8> {
    seq![((c as int / 65536) % 256) as u8, ((c as int / 256) % 256) as u8, (c as int % 256) as u8]
}

} // verus!
