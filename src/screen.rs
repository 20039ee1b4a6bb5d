use vstd::prelude::*;
use vstd::string::*;

use crate::driver::{
    pixels_signals, ran, DelayUs, Error, Interface, ResetPin, ST7789,
};

verus! {

/// Drops the last character of `s`, a one-byte character: the line break that
/// ends a command's output.
pub fn chomp(s: &str) -> (r: &str)
    requires
        s@.len() > 0,
        (s@.last() as u32) < 0x80,
    ensures
        r@ == s@.drop_last(),
{
    s.substring_char(0, s.unicode_len() - 1)
}

/// The RGB565 value of an 8-bit-per-channel color: the top five bits of red,
/// the top six of green and the top five of blue, red most significant.
pub open spec fn spec_rgb565(r: u8, g: u8, b: u8) -> u16 {
    ((r / 8) * 2048 + (g / 4) * 32 + b / 8) as u16
}

/// Packs an 8-bit-per-channel color into the controller's 16-bit format.
#[verifier::when_used_as_spec(spec_rgb565)]
pub fn rgb565(r: u8, g: u8, b: u8) -> (c: u16)
    ensures
        c == spec_rgb565(r, g, b),
{
    let (r16, g16, b16) = (r as u16, g as u16, b as u16);
    assert(((r16 & 0xf8) << 8u16) + ((g16 & 0xfc) << 3u16) + (b16 >> 3u16) == (r16 / 8) * 2048 + (
    g16 / 4) * 32 + b16 / 8 && (r16 / 8) * 2048 + (g16 / 4) * 32 + b16 / 8 <= 0xffff) by (bit_vector)
        requires
            r16 <= 0xff,
            g16 <= 0xff,
            b16 <= 0xff,
    ;
    ((r16 & 0xf8) << 8) + ((g16 & 0xfc) << 3) + (b16 >> 3)
}

/// The colors of a buffer of RGB triples, one per whole triple, in order.
pub open spec fn rgb565_of(rgb: Seq<u8>) -> Seq<u16> {
    Seq::new(rgb.len() / 3, |i: int| spec_rgb565(rgb[3 * i], rgb[3 * i + 1], rgb[3 * i + 2]))
}

/// Width of the status screen in pixels.
pub const FRAME_WIDTH: u16 = 320;

/// Height of the status screen in pixels.
pub const FRAME_HEIGHT: u16 = 240;

/// Sends a 320 by 240 RGB image, row by row, to the whole screen.
pub fn draw_image<DI: Interface, RST: ResetPin>(display: &mut ST7789<DI, RST>, rgb: &[u8]) -> (r:
    Result<(), Error<RST::Error>>)
    ensures
        ran(
            old(display).trace(),
            final(display).trace(),
            pixels_signals(0, 0, (FRAME_WIDTH - 1) as u16, (FRAME_HEIGHT - 1) as u16, rgb565_of(rgb@)),
            r is Ok,
        ),
        r matches Err(e) ==> e is DisplayError,
        final(display).same_setup(old(display)),
{
    let n: usize = rgb.len() / 3;
    let mut colors: Vec<u16> = Vec::with_capacity(n);
    let mut i: usize = 0;
    while i < n
        invariant
            n == rgb@.len() / 3,
            i <= n,
            colors@ == rgb565_of(rgb@).take(i as int),
        decreases n - i,
    {
        assert(3 * i + 2 < rgb.len()) by (nonlinear_arith)
            requires
                i < n,
                n == rgb.len() / 3,
        ;
        let k: usize = 3 * i;
        colors.push(rgb565(rgb[k], rgb[k + 1], rgb[k + 2]));
        assert(colors@ =~= rgb565_of(rgb@).take(i + 1));
        i = i + 1;
    }
    assert(colors@ =~= rgb565_of(rgb@));
    display.set_pixels(0, 0, FRAME_WIDTH - 1, FRAME_HEIGHT - 1, colors.as_slice())
}

} // verus!
