//! Frame sources, processors and cache layers, end to end.

use std::rc::Rc;

use epizentrum::draw_strategy::DrawStrategy;
use epizentrum::frame_processing::rayon_processor::RayonProcessor;
use epizentrum::frame_processing::template_processor::{digit_lookup, TemplateProcessor};
use epizentrum::frame_processing::FrameProcessor;
use epizentrum::frame_source::media_source::{MediaSource, MediaSourceError};
use epizentrum::frame_source::{Frame, FrameSource};
use epizentrum::breadth_flatten::BreadthFlatten;
use epizentrum::{
    BufferSource, CommandBufferSource, CompositeBufferSource, ComputeOnceCache, ProcessorKind,
    SingleFrameCache,
};

const MS: u64 = 1_000_000;

fn grey_frame(pixels: usize) -> Frame {
    Frame::Rgba(vec![[0x80, 0x80, 0x80, 0xff]; pixels])
}

fn two_frame_source() -> MediaSource {
    // Two 1x1 frames: 100 ms then 200 ms.
    MediaSource::new(
        (1, 1),
        vec![
            (Frame::Rgba(vec![[1, 1, 1, 0xff]]), 100 * MS),
            (Frame::Rgba(vec![[2, 2, 2, 0xff]]), 200 * MS),
        ],
    )
    .unwrap()
}

fn pixel_of(frame: &Frame) -> [u8; 4] {
    match frame {
        Frame::Rgba(v) => v[0],
        Frame::Bgra(v) => v[0],
    }
}

#[test]
fn grey_still_renders_byte_exact() {
    let processor = RayonProcessor::new((2, 2), (0, 0), (2, 2), DrawStrategy::Rows {
        reversed: false,
    });
    let out = processor.process(&grey_frame(4)).unwrap();
    assert_eq!(out, b"PX 0 0 80\nPX 1 0 80\nPX 0 1 80\nPX 1 1 80\n".to_vec());
}

#[test]
fn out_of_canvas_pixels_are_clipped() {
    let processor = RayonProcessor::new((4, 4), (2, 2), (3, 3), DrawStrategy::Rows {
        reversed: false,
    });
    let out = processor.process(&grey_frame(16)).unwrap();
    assert_eq!(out, b"PX 2 2 80\n".to_vec());
}

#[test]
fn alpha_pixel_uses_eight_digits_on_both_paths() {
    let frame = Frame::Rgba(vec![[0x12, 0x34, 0x56, 0x78]]);
    let cpu = RayonProcessor::new((1, 1), (0, 0), (1, 1), DrawStrategy::Rows { reversed: false });
    assert_eq!(cpu.process(&frame).unwrap(), b"PX 0 0 12345678\n".to_vec());
    let gpu = TemplateProcessor::new((1, 1), (0, 0), (1, 1), DrawStrategy::Rows {
        reversed: false,
    });
    assert_eq!(gpu.process(&frame).unwrap(), b"PX 0 0 12345678\n".to_vec());
}

#[test]
fn gpu_path_always_emits_full_color() {
    let frame = grey_frame(1);
    let gpu = TemplateProcessor::new((1, 1), (0, 0), (1, 1), DrawStrategy::Rows {
        reversed: false,
    });
    assert_eq!(gpu.process(&frame).unwrap(), b"PX 0 0 808080ff\n".to_vec());
}

#[test]
fn opaque_colors_use_six_digits() {
    let frame = Frame::Rgba(vec![[0x12, 0x34, 0x56, 0xff]]);
    let cpu = RayonProcessor::new((1, 1), (0, 0), (1, 1), DrawStrategy::Rows { reversed: false });
    assert_eq!(cpu.process(&frame).unwrap(), b"PX 0 0 123456\n".to_vec());
}

#[test]
fn bgra_frames_swap_channels() {
    let frame = Frame::Bgra(vec![[0x56, 0x34, 0x12, 0xff]]);
    let cpu = RayonProcessor::new((1, 1), (0, 0), (1, 1), DrawStrategy::Rows { reversed: false });
    assert_eq!(cpu.process(&frame).unwrap(), b"PX 0 0 123456\n".to_vec());
}

#[test]
fn grey_frame_emits_only_shorthand_lines() {
    let processor = RayonProcessor::new((3, 3), (0, 0), (3, 3), DrawStrategy::Columns {
        reversed: true,
    });
    let out = processor.process(&grey_frame(9)).unwrap();
    let text = String::from_utf8(out).unwrap();
    for line in text.lines() {
        let fields: Vec<&str> = line.split(' ').collect();
        assert_eq!(fields.len(), 4);
        assert_eq!(fields[0], "PX");
        assert_eq!(fields[3].len(), 2, "expected shorthand in {line:?}");
    }
}

/// A reference reading of one `PX x y RRGGBB[AA]` line, as a plain test
/// would write it.
fn reference_parse(line: &str) -> (u16, u16, u8, u8, u8, u8) {
    let line = line.strip_suffix('\n').unwrap();
    let fields: Vec<&str> = line.split(' ').collect();
    assert_eq!(fields.len(), 4);
    assert_eq!(fields[0], "PX");
    let x: u16 = fields[1].parse().unwrap();
    let y: u16 = fields[2].parse().unwrap();
    let hex = fields[3];
    let byte = |i: usize| u8::from_str_radix(&hex[i..i + 2], 16).unwrap();
    match hex.len() {
        2 => (x, y, byte(0), byte(0), byte(0), 0xff),
        6 => (x, y, byte(0), byte(2), byte(4), 0xff),
        8 => (x, y, byte(0), byte(2), byte(4), byte(6)),
        _ => panic!("bad hex field {hex:?}"),
    }
}

#[test]
fn formatted_pixels_parse_back() {
    for pixel in [
        [0x80, 0x80, 0x80, 0xff],
        [0x12, 0x34, 0x56, 0xff],
        [0x12, 0x34, 0x56, 0x78],
        [0x00, 0x00, 0x00, 0x00],
    ] {
        let frame = Frame::Rgba(vec![pixel]);
        let cpu = RayonProcessor::new((1, 1), (3, 4), (10, 10), DrawStrategy::Rows {
            reversed: false,
        });
        let out = String::from_utf8(cpu.process(&frame).unwrap()).unwrap();
        let (x, y, r, g, b, a) = reference_parse(&out);
        assert_eq!((x, y), (3, 4));
        assert_eq!([r, g, b, a], pixel);
    }
}

#[test]
fn digit_lookup_is_lowercase_hex() {
    assert_eq!(digit_lookup(), b"0123456789abcdef".to_vec());
}

#[test]
fn media_source_walks_its_timeline() {
    let src = two_frame_source();
    assert_eq!(src.size(), (1, 1));
    assert_eq!(src.cycle_time(), 300 * MS);

    let t = src.frame(50 * MS);
    assert_eq!(pixel_of(t.frame)[0], 1);
    assert_eq!(t.frame_time, 100 * MS);
    assert_eq!(t.time_left, 50 * MS);

    let t = src.frame(350 * MS);
    assert_eq!(pixel_of(t.frame)[0], 1);
    assert_eq!(t.time_left, 50 * MS);

    let t = src.frame(250 * MS);
    assert_eq!(pixel_of(t.frame)[0], 2);
    assert_eq!(t.frame_time, 200 * MS);
    assert_eq!(t.time_left, 50 * MS);
}

#[test]
fn frame_lookup_is_cyclic() {
    let src = two_frame_source();
    for t in [0, 17 * MS, 99 * MS, 100 * MS, 299 * MS] {
        for k in 1..4u64 {
            let a = src.frame(t);
            let b = src.frame(t + k * 300 * MS);
            assert_eq!(pixel_of(a.frame), pixel_of(b.frame));
            assert_eq!(a.frame_time, b.frame_time);
            assert_eq!(a.time_left, b.time_left);
        }
    }
}

#[test]
fn media_source_rejects_bad_inputs() {
    assert_eq!(
        MediaSource::new((1, 1), vec![]).unwrap_err(),
        MediaSourceError::UnknownSize
    );
    assert_eq!(
        MediaSource::new((2, 2), vec![(grey_frame(1), MS)]).unwrap_err(),
        MediaSourceError::SizeMismatch
    );
    assert_eq!(
        MediaSource::new((1, 1), vec![(grey_frame(1), 0)]).unwrap_err(),
        MediaSourceError::InvalidTiming
    );
    assert_eq!(
        MediaSource::new((1, 1), vec![(grey_frame(1), u64::MAX), (grey_frame(1), 1)]).unwrap_err(),
        MediaSourceError::InvalidTiming
    );
}

fn raw_pipeline() -> CompositeBufferSource<MediaSource, ProcessorKind> {
    CompositeBufferSource {
        source: two_frame_source(),
        processor: ProcessorKind::Cpu(RayonProcessor::new(
            (1, 1),
            (0, 0),
            (1, 1),
            DrawStrategy::Rows { reversed: false },
        )),
    }
}

#[test]
fn composite_source_formats_the_active_frame() {
    let mut src = raw_pipeline();
    assert_eq!(src.cycle_time(), 300 * MS);
    let t = src.command_buffer(50 * MS, 0).unwrap();
    assert_eq!(*t.frame, b"PX 0 0 01\n".to_vec());
    assert_eq!(t.frame_time, 100 * MS);
    assert_eq!(t.time_left, 50 * MS);
    let t = src.command_buffer(250 * MS, 0).unwrap();
    assert_eq!(*t.frame, b"PX 0 0 02\n".to_vec());
}

#[test]
fn keep_last_cache_reuses_within_the_window() {
    let mut cache = SingleFrameCache::new(raw_pipeline());
    // First query at wall time 0: computes, valid for 50 ms.
    let a = cache.command_buffer(50 * MS, 0).unwrap();
    assert_eq!(a.time_left, 50 * MS);
    // Still within the window: answered from the store, shrunk validity.
    let b = cache.command_buffer(60 * MS, 20 * MS).unwrap();
    assert!(Rc::ptr_eq(&a.frame, &b.frame));
    assert_eq!(b.time_left, 30 * MS);
    // Past the expiry: recomputed.
    let c = cache.command_buffer(120 * MS, 60 * MS).unwrap();
    assert!(!Rc::ptr_eq(&a.frame, &c.frame));
    assert_eq!(*c.frame, b"PX 0 0 02\n".to_vec());
}

#[test]
fn compute_once_cache_covers_the_timeline_once() {
    let mut cache = ComputeOnceCache::new(raw_pipeline());
    let a = cache.command_buffer(10 * MS, 0).unwrap();
    assert_eq!(cache.cache.len(), 1);
    // A different time in the same frame interval: a hit, no new entry.
    let b = cache.command_buffer(70 * MS, 0).unwrap();
    assert!(Rc::ptr_eq(&a.frame, &b.frame));
    assert_eq!(b.frame_time, 100 * MS);
    assert_eq!(b.time_left, 30 * MS);
    assert_eq!(cache.cache.len(), 1);
    // The second frame's interval.
    let c = cache.command_buffer(150 * MS, 0).unwrap();
    assert_eq!(*c.frame, b"PX 0 0 02\n".to_vec());
    assert_eq!(cache.cache.len(), 2);
    // Every further query hits; the store stays at two intervals, sorted
    // and disjoint.
    for t in [0, 99 * MS, 100 * MS + 1, 299 * MS, 301 * MS] {
        cache.command_buffer(t, 0).unwrap();
    }
    assert_eq!(cache.cache.len(), 2);
    let ((s0, e0), _) = &cache.cache[0];
    let ((s1, e1), _) = &cache.cache[1];
    assert_eq!((*s0, *e0), (0, 100 * MS));
    assert_eq!((*s1, *e1), (100 * MS, 300 * MS));
    assert!(e0 <= s1);
}

#[test]
fn buffer_source_dispatches_all_policies() {
    let mut raw = BufferSource::Raw(raw_pipeline());
    let mut once = BufferSource::ComputeOnce(ComputeOnceCache::new(raw_pipeline()));
    let mut last = BufferSource::KeepLast(SingleFrameCache::new(raw_pipeline()));
    for src in [&mut raw, &mut once, &mut last] {
        assert_eq!(src.cycle_time(), 300 * MS);
        let t = src.command_buffer(0, 0).unwrap();
        assert_eq!(*t.frame, b"PX 0 0 01\n".to_vec());
    }
}

#[test]
fn breadth_flatten_interleaves_round_robin() {
    let mut bf = BreadthFlatten::new(vec![vec![1, 2, 3], vec![], vec![4], vec![5, 6]]);
    let mut drawn = Vec::new();
    while let Some(v) = bf.next() {
        drawn.push(v);
    }
    assert_eq!(drawn, vec![1, 4, 5, 2, 6, 3]);
    let mut empty: BreadthFlatten<u8> = BreadthFlatten::new(vec![]);
    assert_eq!(empty.next(), None);
}

#[test]
fn template_processor_clips_like_the_cpu_path() {
    let gpu = TemplateProcessor::new((4, 4), (2, 2), (3, 3), DrawStrategy::Rows {
        reversed: false,
    });
    let out = gpu.process(&grey_frame(16)).unwrap();
    assert_eq!(out, b"PX 2 2 808080ff\n".to_vec());
}

#[test]
fn keep_last_cache_recomputes_exactly_at_expiry_boundary() {
    let mut cache = SingleFrameCache::new(raw_pipeline());
    let a = cache.command_buffer(0, 0).unwrap();
    assert_eq!(a.time_left, 100 * MS);
    // The expiry instant itself still hits.
    let b = cache.command_buffer(0, 100 * MS).unwrap();
    assert!(Rc::ptr_eq(&a.frame, &b.frame));
    assert_eq!(b.time_left, 0);
    // One nanosecond later misses.
    let c = cache.command_buffer(0, 100 * MS + 1).unwrap();
    assert!(!Rc::ptr_eq(&a.frame, &c.frame));
}
