//! Frame processors: they turn one decoded frame into the ASCII command
//! bytes that set its pixels on the server canvas.  A command is
//! `PX <x> <y> <hex>\n` with the coordinates shifted by the placement
//! offset; pixels that would land outside the canvas are omitted.

use vstd::prelude::*;

pub mod rayon_processor;
pub mod template_processor;

verus! {

use crate::frame_source::Frame;
use crate::text::{
    lemma_dec_round_trip, lemma_hex2_val, lemma_split_no_sep, lemma_split_prefix, spec_all_digits,
    spec_dec, spec_dec_val, spec_hex2, spec_hex_digit_val, spec_is_digit, spec_is_hex_digit,
    spec_split,
};
use crate::SourceError;

/// The pixel's channels as an `(r, g, b, a)` tuple: a BGRA pixel swaps its
/// first and third bytes.
pub open spec fn spec_channels(p: [u8; 4], bgra: bool) -> (u8, u8, u8, u8) {
    if bgra {
        (p[2], p[1], p[0], p[3])
    } else {
        (p[0], p[1], p[2], p[3])
    }
}

/// The shortest legal hex rendering of an `(r, g, b, a)` pixel: two digits
/// for an opaque grey, six for an opaque color, eight otherwise.
pub open spec fn spec_color_hex(c: (u8, u8, u8, u8)) -> Seq<u8> {
    if c.3 == 255 && c.0 == c.1 && c.1 == c.2 {
        spec_hex2(c.0)
    } else if c.3 == 255 {
        spec_hex2(c.0) + spec_hex2(c.1) + spec_hex2(c.2)
    } else {
        spec_hex2(c.0) + spec_hex2(c.1) + spec_hex2(c.2) + spec_hex2(c.3)
    }
}

/// An opaque grey pixel always takes the two-digit shorthand.
pub proof fn lemma_grey_shorthand(c: (u8, u8, u8, u8))
    requires
        c.3 == 255,
        c.0 == c.1,
        c.1 == c.2,
    ensures
        spec_color_hex(c) == spec_hex2(c.0),
        spec_color_hex(c).len() == 2,
{
}

/// One full command line: `PX <x> <y> <color>\n`.
pub open spec fn spec_px_line(x: int, y: int, color: Seq<u8>) -> Seq<u8>
    recommends
        0 <= x,
        0 <= y,
{
    seq![80u8, 88u8, 32u8] + spec_dec(x as nat) + seq![32u8] + spec_dec(y as nat) + seq![32u8]
        + color + seq![10u8]
}

/// The bytes one draw-order entry contributes: nothing when the offset
/// coordinate falls outside the canvas, else its command line.  `full_hex`
/// forces the eight-digit rendering regardless of shorthand opportunities.
pub open spec fn spec_entry(
    p: (u16, u16),
    pixels: Seq<[u8; 4]>,
    width: u16,
    offset: (u16, u16),
    canvas: (u16, u16),
    bgra: bool,
    full_hex: bool,
) -> Seq<u8> {
    if p.0 + offset.0 >= canvas.0 || p.1 + offset.1 >= canvas.1 {
        Seq::empty()
    } else {
        let rgba = spec_channels(pixels[p.1 * width + p.0], bgra);
        let color = if full_hex {
            spec_hex2(rgba.0) + spec_hex2(rgba.1) + spec_hex2(rgba.2) + spec_hex2(rgba.3)
        } else {
            spec_color_hex(rgba)
        };
        spec_px_line(p.0 + offset.0, p.1 + offset.1, color)
    }
}

/// The concatenation of the first `k` draw-order entries' bytes.
pub open spec fn spec_emit(
    draw: Seq<(u16, u16)>,
    pixels: Seq<[u8; 4]>,
    width: u16,
    offset: (u16, u16),
    canvas: (u16, u16),
    bgra: bool,
    full_hex: bool,
    k: int,
) -> Seq<u8>
    decreases k,
{
    if k <= 0 {
        Seq::empty()
    } else {
        spec_emit(draw, pixels, width, offset, canvas, bgra, full_hex, k - 1) + spec_entry(
            draw[k - 1],
            pixels,
            width,
            offset,
            canvas,
            bgra,
            full_hex,
        )
    }
}

/// Appends one full command line for the pixel at offset coordinates
/// `(x, y)` with channels `c`, using the shortest legal color rendering, or
/// always eight digits when `full_hex` is set.
pub fn push_px_line(out: &mut Vec<u8>, x: u16, y: u16, c: (u8, u8, u8, u8), full_hex: bool)
    ensures
        final(out)@ == old(out)@ + spec_px_line(
            x as int,
            y as int,
            if full_hex {
                spec_hex2(c.0) + spec_hex2(c.1) + spec_hex2(c.2) + spec_hex2(c.3)
            } else {
                spec_color_hex(c)
            },
        ),
{
    out.push(80u8);
    out.push(88u8);
    out.push(32u8);
    crate::text::push_dec_u16(out, x);
    out.push(32u8);
    crate::text::push_dec_u16(out, y);
    out.push(32u8);
    let (cr, cg, cb, ca) = c;
    if full_hex {
        crate::text::push_hex2(out, cr);
        crate::text::push_hex2(out, cg);
        crate::text::push_hex2(out, cb);
        crate::text::push_hex2(out, ca);
    } else if ca == 255 && cr == cg && cg == cb {
        crate::text::push_hex2(out, cr);
    } else if ca == 255 {
        crate::text::push_hex2(out, cr);
        crate::text::push_hex2(out, cg);
        crate::text::push_hex2(out, cb);
    } else {
        crate::text::push_hex2(out, cr);
        crate::text::push_hex2(out, cg);
        crate::text::push_hex2(out, cb);
        crate::text::push_hex2(out, ca);
    }
    out.push(10u8);
    assert(out@ =~= old(out)@ + spec_px_line(
        x as int,
        y as int,
        if full_hex {
            spec_hex2(c.0) + spec_hex2(c.1) + spec_hex2(c.2) + spec_hex2(c.3)
        } else {
            spec_color_hex(c)
        },
    ));
}

/// A converter from one decoded frame to its command bytes.
pub trait FrameProcessor: Sized {
    /// The representation invariant.
    spec fn wf(&self) -> bool;

    /// The frame size the processor was built for.
    spec fn spec_size(&self) -> (u16, u16);

    /// What processing returns, as a function of the frame alone.
    spec fn spec_process(&self, frame: &Frame) -> Result<Seq<u8>, SourceError>;

    fn process(&self, frame: &Frame) -> (r: Result<Vec<u8>, SourceError>)
        requires
            self.wf(),
            frame.pixels().len() == self.spec_size().0 * self.spec_size().1,
        ensures
            ({
                let s = self.spec_process(frame);
                &&& (r is Ok <==> s is Ok)
                &&& (r matches Ok(v) ==> v@ == s->Ok_0)
                &&& (r matches Err(e) ==> e == s->Err_0)
            }),
    ;
}

/// Whether every byte of `s` is a lowercase hex digit.
pub open spec fn spec_all_hex(s: Seq<u8>) -> bool {
    forall|i: int| 0 <= i < s.len() ==> spec_is_hex_digit(#[trigger] s[i])
}

/// The byte the two hex digits at `i` denote.
pub open spec fn spec_hex_byte(s: Seq<u8>, i: int) -> u8 {
    (spec_hex_digit_val(s[i]) * 16 + spec_hex_digit_val(s[i + 1])) as u8
}

/// The reference reading of one command line `PX <x> <y> <hex>\n`: the
/// coordinates and the four channels, with the two- and six-digit forms
/// expanded to opaque grey and opaque color.
pub open spec fn spec_parse_px(s: Seq<u8>) -> Option<(u16, u16, u8, u8, u8, u8)> {
    if s.len() == 0 || s.last() != 10 {
        None
    } else {
        let parts = spec_split(s.drop_last(), 32);
        if parts.len() == 4 && parts[0] == seq![80u8, 88u8] && parts[1].len() > 0
            && spec_all_digits(parts[1]) && spec_dec_val(parts[1]) <= u16::MAX && parts[2].len() > 0
            && spec_all_digits(parts[2]) && spec_dec_val(parts[2]) <= u16::MAX && spec_all_hex(
            parts[3],
        ) {
            let x = spec_dec_val(parts[1]) as u16;
            let y = spec_dec_val(parts[2]) as u16;
            let col = parts[3];
            if col.len() == 2 {
                let v = spec_hex_byte(col, 0);
                Some((x, y, v, v, v, 255u8))
            } else if col.len() == 6 {
                Some((x, y, spec_hex_byte(col, 0), spec_hex_byte(col, 2), spec_hex_byte(col, 4), 255u8))
            } else if col.len() == 8 {
                Some(
                    (
                        x,
                        y,
                        spec_hex_byte(col, 0),
                        spec_hex_byte(col, 2),
                        spec_hex_byte(col, 4),
                        spec_hex_byte(col, 6),
                    ),
                )
            } else {
                None
            }
        } else {
            None
        }
    }
}

/// Formatting a pixel and reading the line back with the reference parser
/// recovers the coordinates and all four channels, whichever hex form the
/// shorthand rules chose.
#[verifier::rlimit(100)]
pub proof fn lemma_px_round_trip(x: u16, y: u16, c: (u8, u8, u8, u8))
    ensures
        spec_parse_px(spec_px_line(x as int, y as int, spec_color_hex(c))) == Some(
            (x, y, c.0, c.1, c.2, c.3),
        ),
{
    let color = spec_color_hex(c);
    let line = spec_px_line(x as int, y as int, color);
    lemma_dec_round_trip(x as nat);
    lemma_dec_round_trip(y as nat);
    lemma_hex2_val(c.0);
    lemma_hex2_val(c.1);
    lemma_hex2_val(c.2);
    lemma_hex2_val(c.3);
    assert forall|i: int| 0 <= i < color.len() implies spec_is_hex_digit(#[trigger] color[i])
        && color[i] != 32 && color[i] != 10 by {
        lemma_color_hex_bytes(c, i);
    }
    assert(line.last() == 10);
    let body = line.drop_last();
    assert(body =~= seq![80u8, 88u8] + seq![32u8] + (spec_dec(x as nat) + seq![32u8] + (spec_dec(
        y as nat,
    ) + seq![32u8] + color)));
    assert forall|i: int| 0 <= i < spec_dec(x as nat).len() implies (#[trigger] spec_dec(
        x as nat,
    )[i]) != 32 by {
        assert(spec_is_digit(spec_dec(x as nat)[i]));
    }
    assert forall|i: int| 0 <= i < spec_dec(y as nat).len() implies (#[trigger] spec_dec(
        y as nat,
    )[i]) != 32 by {
        assert(spec_is_digit(spec_dec(y as nat)[i]));
    }
    lemma_split_prefix(
        seq![80u8, 88u8],
        spec_dec(x as nat) + seq![32u8] + (spec_dec(y as nat) + seq![32u8] + color),
        32,
    );
    lemma_split_prefix(spec_dec(x as nat), spec_dec(y as nat) + seq![32u8] + color, 32);
    lemma_split_prefix(spec_dec(y as nat), color, 32);
    lemma_split_no_sep(color, 32);
    let parts = spec_split(body, 32);
    assert(parts =~~= seq![seq![80u8, 88u8], spec_dec(x as nat), spec_dec(y as nat), color]);
    assert(spec_dec_val(parts[1]) == x && spec_dec_val(parts[2]) == y);
    if c.3 == 255 && c.0 == c.1 && c.1 == c.2 {
        assert(color.len() == 2);
        assert(spec_hex_byte(color, 0) == c.0);
    } else if c.3 == 255 {
        assert(color =~= spec_hex2(c.0) + spec_hex2(c.1) + spec_hex2(c.2));
        assert(color.len() == 6);
        assert(color[0] == spec_hex2(c.0)[0] && color[1] == spec_hex2(c.0)[1]);
        assert(color[2] == spec_hex2(c.1)[0] && color[3] == spec_hex2(c.1)[1]);
        assert(color[4] == spec_hex2(c.2)[0] && color[5] == spec_hex2(c.2)[1]);
        assert(spec_hex_byte(color, 0) == c.0 && spec_hex_byte(color, 2) == c.1 && spec_hex_byte(
            color,
            4,
        ) == c.2);
    } else {
        assert(color =~= spec_hex2(c.0) + spec_hex2(c.1) + spec_hex2(c.2) + spec_hex2(c.3));
        assert(color.len() == 8);
        assert(color[0] == spec_hex2(c.0)[0] && color[1] == spec_hex2(c.0)[1]);
        assert(color[2] == spec_hex2(c.1)[0] && color[3] == spec_hex2(c.1)[1]);
        assert(color[4] == spec_hex2(c.2)[0] && color[5] == spec_hex2(c.2)[1]);
        assert(color[6] == spec_hex2(c.3)[0] && color[7] == spec_hex2(c.3)[1]);
        assert(spec_hex_byte(color, 0) == c.0 && spec_hex_byte(color, 2) == c.1 && spec_hex_byte(
            color,
            4,
        ) == c.2 && spec_hex_byte(color, 6) == c.3);
    }
}

/// Every byte of a rendered color is a hex digit, never a space or
/// newline.
pub proof fn lemma_color_hex_bytes(c: (u8, u8, u8, u8), i: int)
    requires
        0 <= i < spec_color_hex(c).len(),
    ensures
        spec_is_hex_digit(spec_color_hex(c)[i]),
        spec_color_hex(c)[i] != 32,
        spec_color_hex(c)[i] != 10,
{
    lemma_hex2_val(c.0);
    lemma_hex2_val(c.1);
    lemma_hex2_val(c.2);
    lemma_hex2_val(c.3);
    let color = spec_color_hex(c);
    if c.3 == 255 && c.0 == c.1 && c.1 == c.2 {
        assert(color[i] == spec_hex2(c.0)[i]);
    } else if c.3 == 255 {
        assert(color =~= spec_hex2(c.0) + spec_hex2(c.1) + spec_hex2(c.2));
        if i < 2 {
            assert(color[i] == spec_hex2(c.0)[i]);
        } else if i < 4 {
            assert(color[i] == spec_hex2(c.1)[i - 2]);
        } else {
            assert(color[i] == spec_hex2(c.2)[i - 4]);
        }
    } else {
        assert(color =~= spec_hex2(c.0) + spec_hex2(c.1) + spec_hex2(c.2) + spec_hex2(c.3));
        if i < 2 {
            assert(color[i] == spec_hex2(c.0)[i]);
        } else if i < 4 {
            assert(color[i] == spec_hex2(c.1)[i - 2]);
        } else if i < 6 {
            assert(color[i] == spec_hex2(c.2)[i - 4]);
        } else {
            assert(color[i] == spec_hex2(c.3)[i - 6]);
        }
    }
}

} // verus!
