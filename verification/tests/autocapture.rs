use skaner_dokumentow::autocapture::{AutoCapture, CaptureState, FeedResult};
use skaner_dokumentow::raster::{can_shrink, preview_of, RgbRaster};

fn frame(level: u8) -> RgbRaster {
    RgbRaster { width: 32, height: 24, pixels: vec![level; 32 * 24 * 3] }
}

fn t(base: u64, ms: u64) -> u64 {
    base + ms * 1_000_000
}

#[test]
fn does_not_trigger_on_startup_scene() {
    let mut auto = AutoCapture::new();
    let base = 0;
    for step in 0..30 {
        assert_eq!(
            auto.feed(&frame(200), t(base, step * 100)),
            FeedResult::Nothing,
            "pusty blat nie może wyzwolić zdjęcia"
        );
    }
}

#[test]
fn triggers_after_page_settles() {
    let mut auto = AutoCapture::new();
    let base = 0;
    auto.feed(&frame(200), t(base, 0));
    assert_eq!(auto.feed(&frame(100), t(base, 100)), FeedResult::Nothing);
    assert_eq!(auto.feed(&frame(100), t(base, 200)), FeedResult::Nothing);
    assert_eq!(auto.feed(&frame(100), t(base, 900)), FeedResult::Trigger);
    for step in 10..20 {
        assert_eq!(
            auto.feed(&frame(100), t(base, step * 100)),
            FeedResult::Nothing,
            "ta sama strona nie może wyzwolić drugi raz"
        );
    }
}

#[test]
fn motion_resets_the_settle_timer() {
    let mut auto = AutoCapture::new();
    let base = 0;
    auto.feed(&frame(200), t(base, 0));
    auto.feed(&frame(100), t(base, 100));
    auto.feed(&frame(100), t(base, 200));
    assert_eq!(auto.feed(&frame(110), t(base, 500)), FeedResult::Nothing);
    assert_eq!(auto.feed(&frame(100), t(base, 900)), FeedResult::Nothing);
    assert_eq!(auto.feed(&frame(100), t(base, 1600)), FeedResult::Trigger);
}

#[test]
fn flip_produces_second_trigger() {
    let mut auto = AutoCapture::new();
    let base = 0;
    auto.feed(&frame(200), t(base, 0));
    auto.feed(&frame(100), t(base, 100));
    auto.feed(&frame(100), t(base, 200));
    assert_eq!(auto.feed(&frame(100), t(base, 900)), FeedResult::Trigger);
    auto.feed(&frame(200), t(base, 1000));
    auto.feed(&frame(50), t(base, 1100));
    assert_eq!(auto.feed(&frame(50), t(base, 1200)), FeedResult::Nothing);
    assert_eq!(auto.feed(&frame(50), t(base, 1900)), FeedResult::Trigger);
}

#[test]
fn disabled_never_triggers_and_reenable_rebaselines() {
    let mut auto = AutoCapture::new();
    let base = 0;
    auto.feed(&frame(200), t(base, 0));
    auto.set_enabled(false);
    auto.feed(&frame(100), t(base, 100));
    assert_eq!(auto.feed(&frame(100), t(base, 900)), FeedResult::Nothing);
    auto.set_enabled(true);
    assert_eq!(auto.feed(&frame(100), t(base, 1000)), FeedResult::Nothing);
    for step in 11..18 {
        assert_eq!(
            auto.feed(&frame(100), t(base, step * 100)),
            FeedResult::Nothing,
            "po ponownym włączeniu bieżąca scena nie wyzwala"
        );
    }
    auto.feed(&frame(50), t(base, 1900));
    auto.feed(&frame(50), t(base, 2000));
    assert_eq!(auto.feed(&frame(50), t(base, 2700)), FeedResult::Trigger);
}

#[test]
fn manual_capture_enters_cooldown() {
    let mut auto = AutoCapture::new();
    let base = 0;
    auto.feed(&frame(200), t(base, 0));
    auto.feed(&frame(100), t(base, 100));
    auto.note_manual_capture();
    for step in 2..12 {
        assert_eq!(
            auto.feed(&frame(100), t(base, step * 100)),
            FeedResult::Nothing,
            "po ręcznym zdjęciu ta sama strona nie wyzwala auto"
        );
    }
}

#[test]
fn a_page_must_be_still_for_seven_tenths_of_a_second() {
    let mut auto = AutoCapture::new();
    auto.feed(&frame(200), t(0, 0));
    auto.feed(&frame(100), t(0, 100));
    auto.feed(&frame(100), t(0, 200));
    assert_eq!(auto.feed(&frame(100), t(0, 899)), FeedResult::Nothing);
    assert_eq!(auto.feed(&frame(100), t(0, 900)), FeedResult::Trigger);
    assert_eq!(auto.state(), CaptureState::Cooldown);
}

#[test]
fn frames_are_sampled_before_they_are_compared() {
    // A picture of another size is sampled to the same grid, so only its brightness counts.
    let mut auto = AutoCapture::new();
    auto.feed(&frame(200), t(0, 0));
    let large = RgbRaster { width: 640, height: 480, pixels: vec![100; 640 * 480 * 3] };
    auto.feed(&large, t(0, 100));
    auto.feed(&frame(100), t(0, 200));
    assert_eq!(auto.feed(&large, t(0, 900)), FeedResult::Trigger);
}

#[test]
fn the_hint_follows_the_state() {
    let mut auto = AutoCapture::new();
    let first = auto.hint().to_owned();
    auto.set_enabled(false);
    assert!(!auto.enabled());
    assert_ne!(auto.hint(), first);
}

#[test]
fn the_camera_window_shows_a_picture_of_its_own_size() {
    let mut pixels = vec![0; 2560 * 1920 * 3];
    for y in 0..1920 {
        for x in 1280..2560 {
            for channel in 0..3 {
                pixels[(y * 2560 + x) * 3 + channel] = 240;
            }
        }
    }
    let preview = preview_of(&RgbRaster { width: 2560, height: 1920, pixels });
    assert_eq!((preview.width, preview.height), (1280, 960));
    assert_eq!(preview.pixels.len(), 3 * 1280 * 960);
    assert_eq!((preview.pixels[0], preview.pixels[3 * 1279]), (0, 240));
    let mut auto = AutoCapture::new();
    assert_eq!(auto.feed(&preview, 0), FeedResult::Nothing);
}

#[test]
fn an_image_is_shrunk_where_its_pixels_can_be_summed() {
    assert!(can_shrink(4000, 3000, 160, 120));
    assert!(can_shrink(4096, 4096, 1, 1));
    assert!(!can_shrink(4200, 4200, 1, 1));
    assert!(!can_shrink(10, 10, 0, 1));
}
