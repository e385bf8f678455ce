//! Command-line value types and their parsers.  Argument collection is the
//! host's business; the grammar of the values — canvas sizes `WxH` and
//! media objects `<path>[:<x>:<y>[:<strategy>]]` — is decided here, over
//! bytes.

use vstd::prelude::*;

verus! {

use crate::draw_strategy::{spec_parse_strategy, DrawStrategy};
use crate::text::{parse_u16, spec_all_digits, spec_dec_val, spec_split, split_bytes};

/// A value that does not fit the command-line grammar.
#[derive(Debug, Copy, Clone, PartialEq, Eq, Structural)]
pub enum CliParseError {
    Invalid,
}

/// An explicit canvas size: positive width and height.
#[derive(Debug, Copy, Clone, PartialEq, Eq, Structural)]
pub struct CanvasSize(pub u16, pub u16);

/// Whether `s` is a numeral for a positive `u16`.
pub open spec fn spec_positive_u16(s: Seq<u8>) -> bool {
    s.len() > 0 && spec_all_digits(s) && 1 <= spec_dec_val(s) <= u16::MAX
}

/// The canvas size `s` denotes, if any: two positive numerals joined by
/// one `x`.
pub open spec fn spec_parse_canvas(s: Seq<u8>) -> Option<(u16, u16)> {
    let parts = spec_split(s, 120);
    if parts.len() == 2 && spec_positive_u16(parts[0]) && spec_positive_u16(parts[1]) {
        Some((spec_dec_val(parts[0]) as u16, spec_dec_val(parts[1]) as u16))
    } else {
        None
    }
}

impl CanvasSize {
    /// Parses `WxH`, as `spec_parse_canvas` describes.
    pub fn from_str_bytes(s: &[u8]) -> (r: Result<CanvasSize, CliParseError>)
        ensures
            r matches Ok(c) ==> spec_parse_canvas(s@) == Some((c.0, c.1)) && c.0 > 0 && c.1 > 0,
            r is Err <==> spec_parse_canvas(s@) is None,
    {
        let parts = split_bytes(s, 120);
        if parts.len() != 2 {
            return Err(CliParseError::Invalid);
        }
        assert(parts@[0]@ == spec_split(s@, 120)[0] && parts@[1]@ == spec_split(s@, 120)[1]);
        let w = match parse_u16(parts[0].as_slice()) {
            Some(w) => w,
            None => {
                return Err(CliParseError::Invalid);
            },
        };
        let h = match parse_u16(parts[1].as_slice()) {
            Some(h) => h,
            None => {
                return Err(CliParseError::Invalid);
            },
        };
        if w == 0 || h == 0 {
            return Err(CliParseError::Invalid);
        }
        Ok(CanvasSize(w, h))
    }
}

/// Whether to use a GPU for frame processing.
#[derive(Debug, Copy, Clone, PartialEq, Eq, Structural)]
pub enum GpuMode {
    Disabled,
    Preferred,
    Required,
}

impl Default for GpuMode {
    fn default() -> (r: Self)
        ensures
            r == GpuMode::Preferred,
    {
        GpuMode::Preferred
    }
}

impl GpuMode {
    /// The mode's display name.
    pub fn name_bytes(&self) -> (r: Vec<u8>)
        ensures
            r@ == spec_gpu_mode_name(*self),
    {
        let mut v: Vec<u8> = Vec::new();
        match self {
            GpuMode::Disabled => {
                v.push(78u8);
                v.push(111u8);
                v.push(110u8);
                v.push(101u8);
            },
            GpuMode::Preferred => {
                v.push(80u8);
                v.push(114u8);
                v.push(101u8);
                v.push(102u8);
                v.push(101u8);
                v.push(114u8);
                v.push(114u8);
                v.push(101u8);
                v.push(100u8);
            },
            GpuMode::Required => {
                v.push(82u8);
                v.push(101u8);
                v.push(113u8);
                v.push(117u8);
                v.push(105u8);
                v.push(114u8);
                v.push(101u8);
                v.push(100u8);
            },
        }
        assert(v@ =~= spec_gpu_mode_name(*self));
        v
    }
}

/// `None`, `Preferred` or `Required`.
pub open spec fn spec_gpu_mode_name(m: GpuMode) -> Seq<u8> {
    match m {
        GpuMode::Disabled => seq![78u8, 111u8, 110u8, 101u8],
        GpuMode::Preferred => seq![80u8, 114u8, 101u8, 102u8, 101u8, 114u8, 114u8, 101u8, 100u8],
        GpuMode::Required => seq![82u8, 101u8, 113u8, 117u8, 105u8, 114u8, 101u8, 100u8],
    }
}

/// The GPU choice: the mode and which device to prefer.
#[derive(Debug, Copy, Clone, PartialEq, Eq, Structural)]
pub struct GpuPreference {
    pub gpu_mode: GpuMode,
    pub gpu_index: usize,
}

/// How command buffers are memoized.
#[derive(Debug, Copy, Clone, PartialEq, Eq, Structural)]
pub enum CachingStrategy {
    /// Recompute on every query.
    Disabled,
    /// Memoize every frame's buffer along the timeline, on demand.
    KeepAllLazy,
    /// Keep only the latest frame's buffer.
    KeepLast,
}

impl Default for CachingStrategy {
    fn default() -> (r: Self)
        ensures
            r == CachingStrategy::KeepLast,
    {
        CachingStrategy::KeepLast
    }
}

/// `None`, `KeepAllLazy` or `KeepLast`.
pub open spec fn spec_caching_name(c: CachingStrategy) -> Seq<u8> {
    match c {
        CachingStrategy::Disabled => seq![78u8, 111u8, 110u8, 101u8],
        CachingStrategy::KeepAllLazy => seq![
            75u8,
            101u8,
            101u8,
            112u8,
            65u8,
            108u8,
            108u8,
            76u8,
            97u8,
            122u8,
            121u8,
        ],
        CachingStrategy::KeepLast => seq![75u8, 101u8, 101u8, 112u8, 76u8, 97u8, 115u8, 116u8],
    }
}

impl CachingStrategy {
    /// The strategy's display name.
    pub fn name_bytes(&self) -> (r: Vec<u8>)
        ensures
            r@ == spec_caching_name(*self),
    {
        let mut v: Vec<u8> = Vec::new();
        match self {
            CachingStrategy::Disabled => {
                v.push(78u8);
                v.push(111u8);
                v.push(110u8);
                v.push(101u8);
            },
            CachingStrategy::KeepAllLazy => {
                v.push(75u8);
                v.push(101u8);
                v.push(101u8);
                v.push(112u8);
                v.push(65u8);
                v.push(108u8);
                v.push(108u8);
                v.push(76u8);
                v.push(97u8);
                v.push(122u8);
                v.push(121u8);
            },
            CachingStrategy::KeepLast => {
                v.push(75u8);
                v.push(101u8);
                v.push(101u8);
                v.push(112u8);
                v.push(76u8);
                v.push(97u8);
                v.push(115u8);
                v.push(116u8);
            },
        }
        assert(v@ =~= spec_caching_name(*self));
        v
    }
}

/// One media object: where to place which file, drawn in which order.
#[derive(Debug, Clone)]
pub struct MediaDescription {
    pub x: u16,
    pub y: u16,
    pub path: Vec<u8>,
    pub draw_strategy: DrawStrategy,
}

/// Whether `s` is a numeral that fits `u16`.
pub open spec fn spec_u16_numeral(s: Seq<u8>) -> bool {
    s.len() > 0 && spec_all_digits(s) && spec_dec_val(s) <= u16::MAX
}

/// The media object `s` denotes, if any: a path alone, or a path with an
/// `x:y` offset, or those plus a draw-strategy name, all joined by colons.
pub open spec fn spec_parse_media(s: Seq<u8>) -> Option<(Seq<u8>, u16, u16, DrawStrategy)> {
    let parts = spec_split(s, 58);
    if parts.len() == 1 {
        Some((parts[0], 0u16, 0u16, DrawStrategy::Random))
    } else if parts.len() == 3 {
        if spec_u16_numeral(parts[1]) && spec_u16_numeral(parts[2]) {
            Some(
                (
                    parts[0],
                    spec_dec_val(parts[1]) as u16,
                    spec_dec_val(parts[2]) as u16,
                    DrawStrategy::Random,
                ),
            )
        } else {
            None
        }
    } else if parts.len() == 4 {
        if spec_u16_numeral(parts[1]) && spec_u16_numeral(parts[2]) && spec_parse_strategy(
            parts[3],
        ) is Some {
            Some(
                (
                    parts[0],
                    spec_dec_val(parts[1]) as u16,
                    spec_dec_val(parts[2]) as u16,
                    spec_parse_strategy(parts[3])->Some_0,
                ),
            )
        } else {
            None
        }
    } else {
        None
    }
}

impl MediaDescription {
    /// Parses `<path>[:<x>:<y>[:<strategy>]]`, as `spec_parse_media`
    /// describes.
    pub fn from_str_bytes(s: &[u8]) -> (r: Result<MediaDescription, CliParseError>)
        ensures
            r matches Ok(m) ==> spec_parse_media(s@) == Some(
                (m.path@, m.x, m.y, m.draw_strategy),
            ),
            r is Err <==> spec_parse_media(s@) is None,
    {
        let mut parts = split_bytes(s, 58);
        let n = parts.len();
        if n == 1 {
            let path = parts.remove(0);
            return Ok(MediaDescription { x: 0, y: 0, path, draw_strategy: DrawStrategy::Random });
        }
        if n != 3 && n != 4 {
            return Err(CliParseError::Invalid);
        }
        let x = match parse_u16(parts[1].as_slice()) {
            Some(x) => x,
            None => {
                return Err(CliParseError::Invalid);
            },
        };
        let y = match parse_u16(parts[2].as_slice()) {
            Some(y) => y,
            None => {
                return Err(CliParseError::Invalid);
            },
        };
        let draw_strategy = if n == 4 {
            match DrawStrategy::from_bytes(parts[3].as_slice()) {
                Ok(d) => d,
                Err(_) => {
                    return Err(CliParseError::Invalid);
                },
            }
        } else {
            DrawStrategy::Random
        };
        let path = parts.remove(0);
        Ok(MediaDescription { x, y, path, draw_strategy })
    }
}

/// What the program is asked to do.
#[derive(Debug, Clone)]
pub enum Commands {
    /// List the GPU devices.
    Gpus,
    /// Stream media objects to the targets.
    Media(Media),
}

/// The media subcommand's arguments.
#[derive(Debug, Clone)]
pub struct Media {
    pub gpu_preference: GpuPreference,
    pub caching_strategy: CachingStrategy,
    pub media_objects: Vec<MediaDescription>,
}

} // verus!
