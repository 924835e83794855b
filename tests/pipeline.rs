use gifski::alpha::{binarize_alpha, resized_binary_alpha};
use gifski::diff::{has_transparency, importance_from_next, same_pixels, DiffStage, DiffStep, Disposal};
use gifski::error::EncodeError;
use gifski::ordqueue::ReorderBuffer;
use gifski::pixel::{colordiff, IndexedImage, Rgba, RgbaImage};
use gifski::quant::{attenuate_importance, quality_ceiling, reserves_transparent_color};
use gifski::remap::{consolidate_transparency, finish_frame, trim_image};
use gifski::settings::{dimensions_for_image, Repeat, Settings};
use gifski::timing::FrameClock;

fn px(r: u8, g: u8, b: u8, a: u8) -> Rgba {
    Rgba::new(r, g, b, a)
}

fn solid(w: usize, h: usize, p: Rgba) -> RgbaImage {
    RgbaImage::new(vec![p; w * h], w, h)
}

fn settings(quality: u8) -> Settings {
    Settings { width: None, height: None, quality, fast: false, repeat: Repeat::Infinite }
}

#[test]
fn colordiff_weights_channels() {
    assert_eq!(colordiff(px(10, 0, 0, 255), px(0, 0, 0, 255)), 200);
    assert_eq!(colordiff(px(0, 10, 0, 255), px(0, 0, 0, 255)), 300);
    assert_eq!(colordiff(px(0, 0, 10, 255), px(0, 0, 0, 255)), 100);
    assert_eq!(colordiff(px(0, 0, 0, 255), px(255, 255, 255, 255)), 390150);
}

#[test]
fn colordiff_transparent_is_maximal() {
    assert_eq!(colordiff(px(1, 2, 3, 0), px(1, 2, 3, 255)), 390150);
    assert_eq!(colordiff(px(1, 2, 3, 7), px(1, 2, 3, 0)), 390150);
}

#[test]
fn dimensions_unlimited_small_image_unchanged() {
    assert_eq!(dimensions_for_image(800, 600, None, None), (800, 600));
    assert_eq!(dimensions_for_image(0, 0, None, None), (0, 0));
}

#[test]
fn dimensions_unlimited_large_image_shrinks() {
    // factor = ceil((1_000_000 + 480_000) / 480_000) = 4
    assert_eq!(dimensions_for_image(1000, 1000, None, None), (250, 250));
    // factor = ceil((480_001 + 480_000) / 480_000) = 3
    assert_eq!(dimensions_for_image(480001, 1, None, None), (160000, 0));
}

#[test]
fn dimensions_both_limits_ignore_aspect() {
    assert_eq!(dimensions_for_image(200, 200, Some(100), Some(50)), (100, 50));
    assert_eq!(dimensions_for_image(20, 30, Some(100), Some(50)), (20, 30));
}

#[test]
fn dimensions_one_limit_keeps_aspect_rounded() {
    assert_eq!(dimensions_for_image(200, 100, Some(100), None), (100, 50));
    assert_eq!(dimensions_for_image(3, 1, Some(2), None), (2, 1));
    assert_eq!(dimensions_for_image(3, 2, None, Some(1)), (2, 1));
    assert_eq!(dimensions_for_image(10, 10, Some(50), None), (10, 10));
    assert_eq!(dimensions_for_image(0, 7, Some(5), None), (0, 7));
}

#[test]
fn settings_derived_values() {
    assert_eq!(settings(90).color_quality(), 100);
    assert_eq!(settings(60).color_quality(), 80);
    assert_eq!(settings(1).color_quality(), 1);
    let s = Settings { width: Some(100), height: None, quality: 90, fast: true, repeat: Repeat::Finite(3) };
    assert_eq!(s.dimensions_for_image(200, 100), (100, 50));
}

#[test]
fn binarize_uses_dither_threshold() {
    // thresholds of the first row: 8, 104, 32, 128
    let mut img = RgbaImage::new(
        vec![px(1, 1, 1, 7), px(1, 1, 1, 104), px(1, 1, 1, 31), px(1, 1, 1, 255)],
        4,
        1,
    );
    binarize_alpha(&mut img);
    let alphas: Vec<u8> = img.pixels.iter().map(|p| p.a).collect();
    assert_eq!(alphas, vec![0, 255, 0, 255]);
    assert_eq!(img.pixels[0].r, 1);
}

#[test]
fn binarize_second_row_and_wrap() {
    // (x=0, y=1) has threshold 72; (x=8, y=0) wraps to threshold 8
    let mut img = RgbaImage::new(vec![px(0, 0, 0, 71); 18], 9, 2);
    binarize_alpha(&mut img);
    assert_eq!(img.pixels[9].a, 0);
    assert_eq!(img.pixels[8].a, 255);
}

#[test]
fn binarize_twice_is_binarize_once() {
    let pixels: Vec<Rgba> = (0..64u32).map(|i| px(i as u8, 0, 0, (i * 4) as u8)).collect();
    let mut once = RgbaImage::new(pixels, 8, 8);
    binarize_alpha(&mut once);
    let mut twice = once.clone();
    binarize_alpha(&mut twice);
    assert_eq!(once.pixels, twice.pixels);
    assert!(once.pixels.iter().all(|p| p.a == 0 || p.a == 255));
}

#[test]
fn resize_changes_size_and_binarizes() {
    let img = solid(4, 4, px(200, 10, 10, 255));
    let out = resized_binary_alpha(img, Some(2), Some(2)).unwrap();
    assert_eq!((out.width, out.height), (2, 2));
    assert_eq!(out.pixels.len(), 4);
    assert!(out.pixels.iter().all(|p| p.a == 255));
}

#[test]
fn no_resize_keeps_pixels() {
    let img = RgbaImage::new(vec![px(1, 2, 3, 255), px(4, 5, 6, 0)], 2, 1);
    let out = resized_binary_alpha(img, None, None).unwrap();
    assert_eq!(out.pixels, vec![px(1, 2, 3, 255), px(4, 5, 6, 0)]);
}

#[test]
fn transparency_detection() {
    assert!(!has_transparency(&solid(2, 2, px(0, 0, 0, 128))));
    assert!(has_transparency(&RgbaImage::new(vec![px(0, 0, 0, 255), px(0, 0, 0, 127)], 2, 1)));
    assert!(same_pixels(&solid(2, 2, px(1, 1, 1, 1)), &solid(2, 2, px(1, 1, 1, 1))));
    assert!(!same_pixels(&solid(2, 2, px(1, 1, 1, 1)), &solid(2, 2, px(1, 1, 2, 1))));
}

#[test]
fn importance_of_changed_pixels() {
    let cur = RgbaImage::new(vec![px(0, 0, 0, 255), px(0, 0, 0, 255), px(0, 0, 0, 255)], 3, 1);
    let next = RgbaImage::new(vec![px(0, 0, 0, 255), px(255, 255, 255, 255), px(0, 0, 100, 255)], 3, 1);
    let (map, dispose) = importance_from_next(&cur, &next);
    // 390150 / 2295 = 170; 10000 / 2295 = 4
    assert_eq!(map, vec![255, 85, 251]);
    assert_eq!(dispose, Disposal::Keep);
}

#[test]
fn checkerboard_losing_a_square_needs_background_disposal() {
    let black = px(0, 0, 0, 255);
    let white = px(255, 255, 255, 255);
    let first = RgbaImage::new(vec![black, white, white, black], 2, 2);
    let second = RgbaImage::new(vec![black, px(255, 255, 255, 0), white, black], 2, 2);
    let mut stage = DiffStage::start(&first);
    match stage.step(&first, Some(&second)).unwrap() {
        DiffStep::Emit { ordinal, dispose, .. } => {
            assert_eq!(ordinal, 1);
            assert_eq!(dispose, Disposal::Background);
        }
        DiffStep::Skip => panic!("frames differ"),
    }
}

#[test]
fn identical_frames_are_skipped() {
    let red = solid(2, 2, px(255, 0, 0, 255));
    let mut stage = DiffStage::start(&red);
    assert!(matches!(stage.step(&red, Some(&red)), Ok(DiffStep::Skip)));
    match stage.step(&red, None).unwrap() {
        DiffStep::Emit { ordinal, dispose, importance } => {
            assert_eq!(ordinal, 1);
            assert_eq!(dispose, Disposal::Keep);
            assert_eq!(importance, vec![255; 4]);
        }
        DiffStep::Skip => panic!("last frame is kept"),
    }
}

#[test]
fn last_frame_of_transparent_animation_disposes() {
    let clear = solid(2, 1, px(0, 0, 0, 0));
    let mut stage = DiffStage::start(&clear);
    assert!(stage.first_frame_has_transparency);
    match stage.step(&clear, None).unwrap() {
        DiffStep::Emit { dispose, .. } => assert_eq!(dispose, Disposal::Background),
        DiffStep::Skip => panic!("last frame is kept"),
    }
}

#[test]
fn size_change_is_an_error() {
    let a = solid(2, 2, px(0, 0, 0, 255));
    let b = solid(3, 2, px(0, 0, 0, 255));
    let mut stage = DiffStage::start(&a);
    let err = stage.step(&a, Some(&b)).unwrap_err();
    assert_eq!(
        err,
        EncodeError::WrongSize { frame: 1, width: 3, height: 2, expected_width: 2, expected_height: 2 }
    );
}

#[test]
fn attenuation_against_previous_frame() {
    // quality 100: color quality 100, min_diff 80
    let prev = RgbaImage::new(vec![px(0, 0, 0, 255), px(0, 0, 0, 255), px(0, 0, 0, 255)], 3, 1);
    let cur = RgbaImage::new(vec![px(5, 0, 0, 255), px(0, 0, 100, 255), px(0, 0, 10, 255)], 3, 1);
    let mut imp = vec![200u8, 200, 200];
    attenuate_importance(&mut imp, &prev, &cur, &settings(100));
    // diffs: 50 -> 0; 10000 -> t = 312, capped 256 -> 200; 100 -> t = 3, 9 * 200 / 256 = 7
    assert_eq!(imp, vec![0, 200, 7]);
}

#[test]
fn attenuation_lower_quality_raises_threshold() {
    // quality 60: color quality 80, min_diff 480
    let prev = solid(1, 1, px(0, 0, 0, 255));
    let cur = solid(1, 1, px(0, 0, 20, 255));
    let mut imp = vec![255u8];
    attenuate_importance(&mut imp, &prev, &cur, &settings(60));
    assert_eq!(imp, vec![0]);
}

#[test]
fn quality_ceiling_spares_first_frame() {
    assert_eq!(quality_ceiling(&settings(60), 1), 100);
    assert_eq!(quality_ceiling(&settings(60), 2), 80);
    assert!(!reserves_transparent_color(1));
    assert!(reserves_transparent_color(2));
}

#[test]
fn consolidation_merges_transparent_entries() {
    let mut pal = vec![px(1, 1, 1, 255), px(2, 2, 2, 100), px(3, 3, 3, 200), px(4, 4, 4, 0)];
    let mut image = vec![0u8, 1, 2, 3, 3, 9];
    let t = consolidate_transparency(&mut pal, &mut image);
    assert_eq!(t, Some(1));
    assert_eq!(pal, vec![px(1, 1, 1, 255), px(2, 2, 2, 0), px(3, 3, 3, 200), px(4, 4, 4, 0)]);
    assert_eq!(image, vec![0, 1, 2, 1, 1, 9]);
}

#[test]
fn consolidation_without_transparency() {
    let mut pal = vec![px(1, 1, 1, 129)];
    let mut image = vec![0u8, 0];
    assert_eq!(consolidate_transparency(&mut pal, &mut image), None);
    assert_eq!(pal, vec![px(1, 1, 1, 129)]);
    assert_eq!(image, vec![0, 0]);
}

#[test]
fn trim_drops_rows_equal_to_screen() {
    let red = px(255, 0, 0, 255);
    let green = px(0, 255, 0, 255);
    let pal = vec![red, green, px(0, 0, 0, 0)];
    let screen = RgbaImage::new(vec![red, red, red, red, red, red, red, red], 2, 4);
    // rows: red / transparent+green / red / transparent
    let image = IndexedImage::new(vec![0, 0, 2, 1, 0, 0, 2, 2], 2, 4);
    let (left, top, sub) = trim_image(image, &pal, Some(2), &screen).unwrap();
    assert_eq!((left, top), (0, 1));
    assert_eq!((sub.width, sub.height), (2, 1));
    assert_eq!(sub.pixels, vec![2, 1]);
}

#[test]
fn trim_of_invisible_frame_is_none() {
    let red = px(255, 0, 0, 255);
    let screen = solid(2, 2, red);
    let image = IndexedImage::new(vec![0, 1, 1, 0], 2, 2);
    assert!(trim_image(image, &vec![red, px(0, 0, 0, 0)], Some(1), &screen).is_none());
}

#[test]
fn changed_corner_is_trimmed_to_first_row() {
    let red = px(255, 0, 0, 255);
    let green = px(0, 255, 0, 255);
    let grey = px(9, 9, 9, 255);
    let mut screen_px = vec![grey; 16];
    screen_px[0] = red;
    let screen = RgbaImage::new(screen_px, 4, 4);
    let mut idx = vec![1u8; 16];
    idx[0] = 0;
    let frame = finish_frame(IndexedImage::new(idx, 4, 4), vec![green, grey], &screen, Disposal::Keep, false, true).unwrap();
    assert_eq!((frame.left, frame.top), (0, 0));
    assert_eq!((frame.image.width, frame.image.height), (4, 1));
    assert_eq!((frame.screen_width, frame.screen_height), (4, 4));
    assert_eq!(frame.transparent_index, None);
}

#[test]
fn first_and_last_frames_are_not_trimmed() {
    let red = px(255, 0, 0, 255);
    let screen = solid(2, 2, red);
    let first = finish_frame(IndexedImage::new(vec![0; 4], 2, 2), vec![red], &screen, Disposal::Keep, true, true).unwrap();
    assert_eq!(first.image.height, 2);
    let last = finish_frame(IndexedImage::new(vec![0; 4], 2, 2), vec![red], &screen, Disposal::Background, false, false).unwrap();
    assert_eq!((last.top, last.image.height), (0, 2));
    assert_eq!(last.dispose, Disposal::Background);
    assert!(finish_frame(IndexedImage::new(vec![0; 4], 2, 2), vec![red], &screen, Disposal::Keep, false, true).is_none());
}

#[test]
fn finished_palette_has_one_transparent_index() {
    let screen = solid(1, 2, px(0, 0, 0, 0));
    let pal = vec![px(5, 5, 5, 50), px(6, 6, 6, 255), px(7, 7, 7, 128)];
    let frame = finish_frame(IndexedImage::new(vec![2, 1], 1, 2), pal, &screen, Disposal::Keep, true, false).unwrap();
    assert_eq!(frame.transparent_index, Some(0));
    assert_eq!(frame.image.pixels, vec![0, 1]);
    assert!(frame.pal.iter().all(|p| p.a == 0 || p.a > 128));
}

#[test]
fn delays_follow_end_times() {
    let mut clock = FrameClock::new();
    let a = clock.frame(10, 1);
    let b = clock.frame(20, 2);
    let c = clock.frame(30, 3);
    assert_eq!((a.delay, b.delay, c.delay), (10, 10, 10));
    assert!(a.emit && b.emit && c.emit);
    assert_eq!(clock.shown, 30);
}

#[test]
fn delay_is_capped_and_zero_delay_frames_skipped() {
    let mut clock = FrameClock::new();
    let a = clock.frame(40000, 1);
    assert_eq!(a.delay, 30000);
    let b = clock.frame(20000, 2);
    assert_eq!(b.delay, 0);
    assert!(!b.emit);
    assert_eq!(clock.shown, 30000);
}

#[test]
fn progress_catches_up_over_skipped_ordinals() {
    let mut clock = FrameClock::new();
    assert_eq!(clock.frame(10, 1).ticks, 1);
    assert_eq!(clock.frame(20, 4).ticks, 3);
    assert_eq!(clock.done, 4);
}

#[test]
fn two_identical_frames_one_second_apart() {
    // end of the kept frame: next pts (1.0 s) rebased -> 100 hundredths
    let red = solid(2, 2, px(255, 0, 0, 255));
    let mut stage = DiffStage::start(&red);
    assert!(matches!(stage.step(&red, Some(&red)), Ok(DiffStep::Skip)));
    assert!(matches!(stage.step(&red, None), Ok(DiffStep::Emit { ordinal: 1, .. })));
    let mut clock = FrameClock::new();
    let step = clock.frame(100, 1);
    assert_eq!(step.delay, 100);
    assert!(step.emit);
}

#[test]
fn delayed_first_frame_gives_last_frame_its_offset() {
    // pts 0.5 and 1.0: ends at 0.5 s and, for the last, 0.5 + 0.5 s
    let mut clock = FrameClock::new();
    let a = clock.frame(50, 1);
    let b = clock.frame(100, 2);
    assert_eq!(a.delay as u32 + b.delay as u32, 100);
}

#[test]
fn single_frame_at_zero_is_not_emitted() {
    let mut clock = FrameClock::new();
    let step = clock.frame(0, 1);
    assert_eq!(step.delay, 0);
    assert!(!step.emit);
    assert_eq!(step.ticks, 1);
}

#[test]
fn reorder_buffer_yields_in_order() {
    let mut q: ReorderBuffer<&str> = ReorderBuffer::new();
    q.insert(2, "c");
    q.insert(0, "a");
    assert!(q.contains(2));
    assert!(!q.contains(1));
    assert_eq!(q.take_next(), Some("a"));
    assert_eq!(q.take_next(), None);
    q.insert(1, "b");
    assert_eq!(q.take_next(), Some("b"));
    assert_eq!(q.take_next(), Some("c"));
    assert_eq!(q.next_expected(), 3);
    assert_eq!(q.len(), 0);
}

#[test]
fn reorder_buffer_room() {
    let mut q: ReorderBuffer<u8> = ReorderBuffer::new();
    q.insert(1, 1);
    q.insert(2, 2);
    assert!(!q.has_room_for(3, 2));
    assert!(q.has_room_for(0, 2));
    assert!(q.has_room_for(3, 3));
}

#[test]
fn five_identical_frames_give_one_frame_spanning_them() {
    // pts 0, 1, 2, 3, 4 s: the kept frame is the last; it ends one cadence after 4 s
    let red = solid(2, 2, px(255, 0, 0, 255));
    let mut stage = DiffStage::start(&red);
    for _ in 0..4 {
        assert!(matches!(stage.step(&red, Some(&red)), Ok(DiffStep::Skip)));
    }
    assert!(matches!(stage.step(&red, None), Ok(DiffStep::Emit { ordinal: 1, .. })));
    let mut clock = FrameClock::new();
    let step = clock.frame(500, 1);
    assert_eq!(step.delay, 500);
    assert!(step.emit);
}

#[test]
fn single_opaque_frame_keeps() {
    let img = solid(10, 10, px(3, 4, 5, 255));
    let mut stage = DiffStage::start(&img);
    assert!(!stage.first_frame_has_transparency);
    match stage.step(&img, None).unwrap() {
        DiffStep::Emit { ordinal, dispose, importance } => {
            assert_eq!(ordinal, 1);
            assert_eq!(dispose, Disposal::Keep);
            assert_eq!(importance.len(), 100);
        }
        DiffStep::Skip => panic!("a lone frame is kept"),
    }
}


#[test]
fn resize_to_nothing_fails() {
    let img = solid(4, 4, px(1, 2, 3, 255));
    assert_eq!(resized_binary_alpha(img, Some(0), Some(0)).unwrap_err(), EncodeError::ResizeFailed);
}
