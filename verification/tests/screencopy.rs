use zskins::zwindows::screencopy::convert_to_rgba;
use zskins::zwindows::screencopy::flip_vertical;
use zskins::zwindows::screencopy::FrameAction;
use zskins::zwindows::screencopy::FrameEvent;
use zskins::zwindows::screencopy::FrameState;
use zskins::zwindows::screencopy::RgbaBuffer;
use zskins::zwindows::screencopy::ShmFormat;

fn rgba(w: u32, h: u32, fill: [u8; 4]) -> RgbaBuffer {
    let mut data = Vec::with_capacity((w * h * 4) as usize);
    for _ in 0..w * h {
        data.extend_from_slice(&fill);
    }
    RgbaBuffer {
        width: w,
        height: h,
        data,
    }
}

#[test]
fn crop_returns_subrect_in_bounds() {
    let mut data = Vec::with_capacity(64);
    for y in 0..4u8 {
        for x in 0..4u8 {
            data.extend_from_slice(&[x, y, 0, 255]);
        }
    }
    let src = RgbaBuffer {
        width: 4,
        height: 4,
        data,
    };
    let crop = src.crop(1, 1, 2, 2).unwrap();
    assert_eq!(crop.width, 2);
    assert_eq!(crop.height, 2);
    assert_eq!(&crop.data[0..4], &[1, 1, 0, 255]);
}

#[test]
fn crop_clips_to_source_bounds() {
    let src = rgba(10, 10, [200, 100, 50, 255]);
    let crop = src.crop(8, 8, 10, 10).unwrap();
    assert_eq!(crop.width, 2);
    assert_eq!(crop.height, 2);
}

#[test]
fn crop_empty_intersection_returns_none() {
    let src = rgba(5, 5, [0; 4]);
    assert!(src.crop(100, 100, 50, 50).is_none());
    assert!(src.crop(-100, -100, 50, 50).is_none());
}

#[test]
fn crop_negative_origin_clipped_to_zero() {
    let src = rgba(4, 4, [9, 8, 7, 255]);
    let crop = src.crop(-1, -1, 3, 3).unwrap();
    assert_eq!(crop.width, 2);
    assert_eq!(crop.height, 2);
}

#[test]
fn convert_argb8888_swaps_bgra_to_rgba() {
    let raw = vec![10, 20, 30, 255, 40, 50, 60, 128];
    let out = convert_to_rgba(&raw, 2, 1, 8, ShmFormat::Argb8888);
    assert_eq!(out, vec![30, 20, 10, 255, 60, 50, 40, 128]);
}

#[test]
fn convert_xrgb8888_forces_alpha_255() {
    let raw = vec![10, 20, 30, 0];
    let out = convert_to_rgba(&raw, 1, 1, 4, ShmFormat::Xrgb8888);
    assert_eq!(out, vec![30, 20, 10, 255]);
}

#[test]
fn convert_abgr8888_passes_through_rgba_order() {
    let raw = vec![1, 2, 3, 200];
    let out = convert_to_rgba(&raw, 1, 1, 4, ShmFormat::Abgr8888);
    assert_eq!(out, vec![1, 2, 3, 200]);
}

#[test]
fn convert_xbgr8888_forces_alpha_255() {
    let raw = vec![1, 2, 3, 0];
    let out = convert_to_rgba(&raw, 1, 1, 4, ShmFormat::Xbgr8888);
    assert_eq!(out, vec![1, 2, 3, 255]);
}

#[test]
fn convert_unknown_format_emits_magenta_placeholder() {
    let raw = vec![0u8; 4];
    let out = convert_to_rgba(&raw, 1, 1, 4, ShmFormat::Other);
    assert_eq!(out, vec![255, 0, 255, 255]);
}

#[test]
fn convert_skips_stride_padding() {
    let raw = vec![
        10, 20, 30, 255, 40, 50, 60, 128, 0xFF, 0xFF, 0xFF, 0xFF, 70, 80, 90, 200, 100, 110, 120,
        50, 0xFF, 0xFF, 0xFF, 0xFF,
    ];
    let out = convert_to_rgba(&raw, 2, 2, 12, ShmFormat::Argb8888);
    assert_eq!(
        out,
        vec![30, 20, 10, 255, 60, 50, 40, 128, 90, 80, 70, 200, 120, 110, 100, 50]
    );
}

#[test]
fn convert_paints_missing_pixels_black() {
    let out = convert_to_rgba(&[1, 2, 3], 1, 1, 4, ShmFormat::Argb8888);
    assert_eq!(out, vec![0, 0, 0, 255]);
}

#[test]
fn flip_vertical_reverses_rows() {
    let buf = vec![255, 0, 0, 255, 0, 0, 255, 255];
    let out = flip_vertical(&buf, 1, 2);
    assert_eq!(out, vec![0, 0, 255, 255, 255, 0, 0, 255]);
}

#[test]
fn flipping_twice_changes_nothing() {
    let buf: Vec<u8> = (0..24).collect();
    assert_eq!(flip_vertical(&flip_vertical(&buf, 2, 3), 2, 3), buf);
}

#[test]
fn downscale_noop_when_under_max() {
    let src = rgba(100, 80, [1, 2, 3, 255]);
    let out = src.downscale_to(1024);
    assert_eq!(out, src);
}

#[test]
fn downscale_shrinks_longer_side_under_max() {
    let src = rgba(2000, 1000, [40, 80, 120, 255]);
    let out = src.downscale_to(1000);
    assert_eq!(out.width, 1000);
    assert_eq!(out.height, 500);
    assert_eq!(&out.data[..4], &[40, 80, 120, 255]);
}

#[test]
fn downscale_averages_2x2_block() {
    let src = RgbaBuffer {
        width: 2,
        height: 2,
        data: vec![
            0, 0, 0, 0, 100, 100, 100, 100, 50, 50, 50, 50, 250, 250, 250, 250,
        ],
    };
    let out = src.downscale_to(1);
    assert_eq!((out.width, out.height), (1, 1));
    assert_eq!(out.data, vec![100, 100, 100, 100]);
}

#[test]
fn downscale_weighs_pixels_by_their_overlap() {
    let src = RgbaBuffer {
        width: 3,
        height: 1,
        data: vec![0, 0, 0, 0, 90, 90, 90, 90, 0, 0, 0, 0],
    };
    let out = src.downscale_to_box(2, 1);
    assert_eq!((out.width, out.height), (2, 1));
    assert_eq!(out.data, vec![30, 30, 30, 30, 30, 30, 30, 30]);
    assert_eq!(src.downscale_to(2), out);
}

#[test]
fn downscale_weighs_in_both_directions() {
    let mut data = vec![0u8; 3 * 3 * 4];
    data[16] = 90;
    data[0] = 90;
    let src = RgbaBuffer { width: 3, height: 3, data };
    let out = src.downscale_to_box(2, 2);
    assert_eq!((out.width, out.height), (2, 2));
    let red: Vec<u8> = out.data.iter().step_by(4).copied().collect();
    assert_eq!(red, vec![50, 10, 10, 10]);
}

#[test]
fn downscale_to_box_keeps_the_aspect() {
    let src = rgba(400, 200, [7, 7, 7, 255]);
    let out = src.downscale_to_box(100, 100);
    assert_eq!((out.width, out.height), (100, 50));
    assert_eq!(&out.data[..4], &[7, 7, 7, 255]);
}

#[test]
fn to_png_round_trips_dimensions() {
    let src = rgba(4, 3, [100, 50, 25, 255]);
    let png = src.to_png().expect("png encoding should succeed");
    let decoder = png::Decoder::new(png.as_slice());
    let reader = decoder.read_info().expect("decode header");
    assert_eq!(reader.info().width, 4);
    assert_eq!(reader.info().height, 3);
}

#[test]
fn to_png_round_trips_pixels() {
    let src = RgbaBuffer {
        width: 2,
        height: 1,
        data: vec![1, 2, 3, 4, 5, 6, 7, 8],
    };
    let png = src.to_png().unwrap();
    let mut reader = png::Decoder::new(png.as_slice()).read_info().unwrap();
    let mut buf = vec![0; reader.output_buffer_size()];
    reader.next_frame(&mut buf).unwrap();
    assert_eq!(buf, src.data);
}

#[test]
fn to_png_of_nothing_is_none() {
    assert!(rgba(0, 3, [0; 4]).to_png().is_none());
}

#[test]
fn frame_is_copied_when_the_layouts_are_known() {
    let mut f = FrameState::default();
    f.apply(FrameEvent::Buffer {
        format: ShmFormat::Xrgb8888,
        width: 2,
        height: 1,
        stride: 8,
    });
    assert_eq!(f.before_copy(), FrameAction::Wait);
    f.apply(FrameEvent::BufferDone);
    assert_eq!(
        f.before_copy(),
        FrameAction::Allocate(ShmFormat::Xrgb8888, 2, 1, 8)
    );
    assert_eq!(f.during_copy(), FrameAction::Wait);
    f.apply(FrameEvent::Ready);
    assert_eq!(f.during_copy(), FrameAction::Finish);
    f.apply(FrameEvent::Failed);
    assert_eq!(f.during_copy(), FrameAction::Fail);
}

#[test]
fn inverted_frame_is_turned_over() {
    let mut f = FrameState::default();
    f.apply(FrameEvent::Flags { y_invert: true });
    let out = f.finish(&[1, 2, 3, 4, 5, 6, 7, 8], ShmFormat::Abgr8888, 1, 2, 4);
    assert_eq!(out.data, vec![5, 6, 7, 8, 1, 2, 3, 4]);
}
