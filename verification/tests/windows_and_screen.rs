use meetly_core::app::screen_capture::{
    capture_result, capture_screen, encode_optimized_jpeg, judge_jpeg, pack_rows, question_of,
    scaled_dimensions, strip_data_url_prefix, JpegStep, MAX_IMAGE_BYTES,
};
use meetly_core::appearance::{clamp, settings_or_default, AppearanceSettings};
use meetly_core::debug_log::{dump_file_name, dump_samples, files_to_prune, log_line};
use meetly_core::dictation::target::{
    capture, capture_app_identity, foreground_window, restore_focus, TargetSnapshot,
};
use meetly_core::number::{finite, larger_of, smaller_of};
use meetly_core::window::{
    anchored_resize_coordinates, bottom_center_coordinates, clamp_i32, clamp_to_logical_monitor,
    click_through_change, cursor_monitor_geometry, monitor_contains_cursor, next_overlay_step,
    overlay_dimensions, overlay_place, overlay_traits, refresh_step, top_center_coordinates,
    wanted_overlay_size, window_area, Area, Cursor, CursorMonitorGeometry, IslandPresentationMode,
    IslandState, Monitor, NativeScreen, OverlayStep, VoiceOverlayDimensions,
    VoiceOverlayPlacement, VoiceOverlayPresentationMode, COMPACT_OVERLAY_HEIGHT,
    COMPACT_OVERLAY_WIDTH, MIN_ISLAND_HEIGHT, MIN_ISLAND_WIDTH, TOP_OFFSET,
};

const ISLAND_MONITOR_MARGIN: f64 = 16.0;
const COMPACT_WIDTH: i32 = 320;
const COMPACT_HEIGHT: i32 = 68;

fn area(x: i32, y: i32, width: i32, height: i32) -> Area {
    Area { x, y, width, height }
}

fn clamped_size(size: (f64, f64), monitor: (f64, f64)) -> (f64, f64) {
    let room = (
        monitor.0 - ISLAND_MONITOR_MARGIN * 2.0,
        monitor.1 - TOP_OFFSET as f64 - ISLAND_MONITOR_MARGIN * 2.0,
    );
    let (width, height) = clamp_to_logical_monitor(
        (size.0.to_bits(), size.1.to_bits()),
        (room.0.to_bits(), room.1.to_bits()),
    );
    (f64::from_bits(width), f64::from_bits(height))
}

fn contains(monitor: Area, x: f64, y: f64) -> bool {
    monitor_contains_cursor(&monitor, x.floor() as i64, y.floor() as i64)
}

fn geometry(monitor: Area, work: Area, scale: f64) -> CursorMonitorGeometry {
    CursorMonitorGeometry {
        source: "test",
        cursor_x: 100.0f64.to_bits(),
        cursor_y: 100.0f64.to_bits(),
        monitor,
        work,
        scale: scale.to_bits(),
    }
}

fn dimensions_at(
    presentation: VoiceOverlayPresentationMode,
    geometry: CursorMonitorGeometry,
    scale: f64,
) -> VoiceOverlayDimensions {
    let (width, height) = wanted_overlay_size(presentation, None, None);
    let screen = f64::from_bits(geometry.scale);
    let room = |length: i32| (length as f64 / screen - 24.0 * 2.0).max(1.0).to_bits();
    overlay_dimensions(
        presentation,
        (
            (f64::from_bits(width) * scale).to_bits(),
            (f64::from_bits(height) * scale).to_bits(),
        ),
        ((560.0 * scale).to_bits(), (480.0 * scale).to_bits()),
        (room(geometry.work.width), room(geometry.work.height)),
    )
}

fn settings() -> AppearanceSettings {
    AppearanceSettings::default()
}

#[test]
fn scaled_dimensions_keep_small_images() {
    assert_eq!(scaled_dimensions(800, 600, 1280), (800, 600));
    assert_eq!(scaled_dimensions(1280, 720, 1280), (1280, 720));
}

#[test]
fn scaled_dimensions_shrink_long_side() {
    let (w, h) = scaled_dimensions(2560, 1440, 1280);
    assert_eq!(w, 1280);
    assert_eq!(h, 720);
}

#[test]
fn scaled_dimensions_never_collapse() {
    let (w, h) = scaled_dimensions(4000, 10, 1280);
    assert_eq!(w, 1280);
    assert_eq!(h, 3);
}

#[test]
fn strips_data_url_prefix() {
    assert_eq!(strip_data_url_prefix("data:image/jpeg;base64,AAAA"), "AAAA");
    assert_eq!(strip_data_url_prefix("AAAA"), "AAAA");
}

#[test]
fn out_of_range_values_are_clamped() {
    let settings = AppearanceSettings {
        ink: 900.0f64.to_bits(),
        strong: 5.0f64.to_bits(),
        base: (-1.0f64).to_bits(),
        soft: f64::NAN.to_bits(),
        ui_scale: 0.0f64.to_bits(),
        island_width: 10.0f64.to_bits(),
        panel_width: 99999.0f64.to_bits(),
        panel_height: 0.0f64.to_bits(),
        ..AppearanceSettings::default()
    }
    .sanitized();

    assert_eq!(f64::from_bits(settings.ink), 235.0);
    assert_eq!(f64::from_bits(settings.strong), 1.0);
    assert_eq!(f64::from_bits(settings.base), 0.05);
    assert_eq!(f64::from_bits(settings.soft), 0.05);
    assert_eq!(f64::from_bits(settings.ui_scale), 0.7);
    assert_eq!(f64::from_bits(settings.island_width), 320.0);
    assert_eq!(f64::from_bits(settings.panel_width), 1600.0);
    assert_eq!(f64::from_bits(settings.panel_height), 320.0);
}

#[test]
fn non_finite_values_fall_back_to_the_minimum() {
    assert_eq!(
        clamp(f64::INFINITY.to_bits(), 1.0f64.to_bits(), 2.0f64.to_bits()),
        1.0f64.to_bits()
    );
}

#[test]
fn oversized_panel_is_pulled_back_inside_the_monitor() {
    let size = clamped_size((1600.0, 1100.0), (1440.0, 900.0));

    assert_eq!(size.0, 1440.0 - ISLAND_MONITOR_MARGIN * 2.0);
    assert_eq!(size.1, 900.0 - TOP_OFFSET as f64 - ISLAND_MONITOR_MARGIN * 2.0);
}

#[test]
fn panel_that_fits_is_left_alone() {
    let size = clamped_size((920.0, 600.0), (2560.0, 1440.0));

    assert_eq!(size.0, 920.0);
    assert_eq!(size.1, 600.0);
}

#[test]
fn a_monitor_too_small_to_fit_still_leaves_a_usable_island() {
    let size = clamped_size((920.0, 600.0), (100.0, 80.0));

    assert_eq!(size.0, f64::from_bits(MIN_ISLAND_WIDTH));
    assert_eq!(size.1, f64::from_bits(MIN_ISLAND_HEIGHT));
    assert_eq!(size, (240.0, 120.0));
}

#[test]
fn island_becomes_interactive_only_above_collapsed_height() {
    assert_eq!(IslandPresentationMode::from_height(54), IslandPresentationMode::Collapsed);
    assert_eq!(IslandPresentationMode::from_height(55), IslandPresentationMode::Expanded);
    assert!(IslandPresentationMode::from_height(600).is_expanded());
}

#[test]
fn dictation_overlay_is_centered_near_monitor_bottom() {
    assert_eq!(f64::from_bits(COMPACT_OVERLAY_WIDTH) as i32, COMPACT_WIDTH);
    assert_eq!(f64::from_bits(COMPACT_OVERLAY_HEIGHT) as i32, COMPACT_HEIGHT);
    assert_eq!(
        bottom_center_coordinates(area(0, 0, 1512, 982), COMPACT_WIDTH, COMPACT_HEIGHT, 56),
        (596, 858)
    );
}

#[test]
fn dictation_overlay_respects_monitor_origin() {
    assert_eq!(
        bottom_center_coordinates(
            area(-1920, -120, 1920, 1080),
            COMPACT_WIDTH,
            COMPACT_HEIGHT,
            56
        ),
        (-1120, 836)
    );
}

#[test]
fn overlay_selects_monitor_containing_cursor() {
    assert!(contains(area(-1920, -120, 1920, 1080), -800.0, 400.0));
    assert!(!contains(area(-1920, -120, 1920, 1080), 300.0, 400.0));
    assert!(contains(area(0, 0, 1512, 982), 300.0, 400.0));
}

#[test]
fn manual_resize_preserves_top_and_horizontal_center() {
    let monitor = area(0, 0, 1512, 982);
    assert_eq!(
        anchored_resize_coordinates(monitor, (700, 420), (480, 300), (480, 356)),
        (700, 420)
    );
    assert_eq!(
        anchored_resize_coordinates(monitor, (700, 420), (480, 300), (720, 680)),
        (580, 302)
    );
}

#[test]
fn manual_resize_clamps_to_negative_origin_monitor() {
    assert_eq!(
        anchored_resize_coordinates(
            area(-1920, -120, 1920, 1080),
            (-1900, -100),
            (480, 300),
            (720, 680),
        ),
        (-1920, -100)
    );
}

#[test]
fn presentation_tracks_last_non_hidden_mode() {
    let mut placement = VoiceOverlayPlacement::default();
    assert_eq!(placement.presentation, VoiceOverlayPresentationMode::Hidden);
    assert_eq!(placement.last_non_hidden, VoiceOverlayPresentationMode::Compact);

    placement.set_presentation(VoiceOverlayPresentationMode::Expanded);
    placement.set_presentation(VoiceOverlayPresentationMode::Hidden);

    assert_eq!(placement.presentation, VoiceOverlayPresentationMode::Hidden);
    assert_eq!(placement.last_non_hidden, VoiceOverlayPresentationMode::Expanded);
    assert_eq!(VoiceOverlayPresentationMode::Expanded.as_str(), "expanded");
}

#[test]
fn new_voice_run_forgets_the_previous_drag_position() {
    let mut placement = VoiceOverlayPlacement {
        manually_positioned: true,
        ..VoiceOverlayPlacement::default()
    };
    let monitor =
        geometry(area(-1920, -120, 1920, 1080), area(-1920, -120, 1920, 1055), 1.0);

    placement.begin_run(Some(monitor));

    assert!(!placement.manually_positioned);
    assert_eq!(placement.cursor_monitor.unwrap().monitor.x, -1920);
}

#[test]
fn expanded_dimensions_use_target_and_minimum_on_normal_monitor() {
    let geometry = geometry(area(0, 0, 3024, 1964), area(0, 48, 3024, 1880), 2.0);
    let dimensions = dimensions_at(VoiceOverlayPresentationMode::Expanded, geometry, 1.0);

    assert_eq!(f64::from_bits(dimensions.width), 720.0);
    assert_eq!(f64::from_bits(dimensions.height), 680.0);
    assert_eq!(dimensions.min_width.map(f64::from_bits), Some(560.0));
    assert_eq!(dimensions.min_height.map(f64::from_bits), Some(480.0));
}

#[test]
fn expanded_dimensions_shrink_below_minimum_only_for_small_work_area() {
    let geometry = geometry(area(-1100, 0, 1100, 900), area(-1100, 0, 1100, 900), 2.0);
    let dimensions = dimensions_at(VoiceOverlayPresentationMode::Expanded, geometry, 1.0);

    assert_eq!(f64::from_bits(dimensions.width), 502.0);
    assert_eq!(f64::from_bits(dimensions.height), 402.0);
    assert_eq!(dimensions.min_width.map(f64::from_bits), Some(502.0));
    assert_eq!(dimensions.min_height.map(f64::from_bits), Some(402.0));
}

#[test]
fn expanded_dimensions_follow_the_ui_zoom() {
    let geometry = geometry(area(0, 0, 3024, 1964), area(0, 48, 3024, 1880), 2.0);
    let dimensions = dimensions_at(VoiceOverlayPresentationMode::Expanded, geometry, 0.9);

    assert_eq!(f64::from_bits(dimensions.width), 648.0);
    assert_eq!(dimensions.min_width.map(f64::from_bits), Some(504.0));
}

#[test]
fn compact_dimensions_have_no_minimum() {
    let geometry = geometry(area(0, 0, 100, 100), area(0, 0, 100, 100), 1.0);
    let dimensions = dimensions_at(VoiceOverlayPresentationMode::Compact, geometry, 1.0);
    assert_eq!(f64::from_bits(dimensions.width), 320.0);
    assert_eq!(dimensions.min_width, None);
    assert_eq!(f64::from_bits(dimensions.margin), 0.0);
    let wanted = wanted_overlay_size(VoiceOverlayPresentationMode::Compact, Some(7), None);
    assert_eq!(wanted, (7, COMPACT_OVERLAY_HEIGHT));
}

#[test]
fn numbers_are_ordered_as_doubles_are() {
    let all = [
        f64::NEG_INFINITY, -2.5, -1.0, -0.0, 0.0, f64::MIN_POSITIVE, 0.05, 1.0, 1e300,
        f64::INFINITY,
    ];
    for a in all {
        assert_eq!(finite(a.to_bits()), a.is_finite());
        for b in all {
            assert_eq!(f64::from_bits(larger_of(a.to_bits(), b.to_bits())), a.max(b));
            assert_eq!(f64::from_bits(smaller_of(a.to_bits(), b.to_bits())), a.min(b));
        }
        let nan = f64::NAN.to_bits();
        assert_eq!(larger_of(nan, a.to_bits()), a.to_bits());
        assert_eq!(smaller_of(a.to_bits(), nan), a.to_bits());
    }
    assert!(!finite(f64::NAN.to_bits()));
}

#[test]
fn usable_settings_stay_as_they_are() {
    assert_eq!(settings().sanitized(), settings());
    let wild = AppearanceSettings { ink: u64::MAX, panel_width: 0, ..settings() };
    assert_eq!(wild.sanitized().sanitized(), wild.sanitized());
    assert_eq!(settings_or_default(None), settings());
    assert_eq!(settings_or_default(Some(wild)), wild.sanitized());
    assert_eq!(f64::from_bits(settings().strong), 0.82);
    assert_eq!(f64::from_bits(settings().base), 0.66);
    assert_eq!(f64::from_bits(settings().soft), 0.46);
    assert_eq!(f64::from_bits(settings().ink), 130.0);
    assert_eq!(f64::from_bits(settings().island_width), 600.0);
    assert_eq!(f64::from_bits(settings().panel_width), 920.0);
    assert_eq!(f64::from_bits(settings().panel_height), 600.0);
    assert_eq!(f64::from_bits(settings().ui_scale), 1.0);
}

#[test]
fn the_overlay_stays_while_something_is_said() {
    let mut placement = VoiceOverlayPlacement::default();
    let hidden = VoiceOverlayPresentationMode::Hidden;
    let compact = VoiceOverlayPresentationMode::default();
    assert_eq!(next_overlay_step(&placement, hidden, true), OverlayStep::Ignore);
    assert_eq!(next_overlay_step(&placement, hidden, false), OverlayStep::Hide);
    assert_eq!(
        next_overlay_step(&placement, compact, true),
        OverlayStep::Show { in_place: false, find_screen: true }
    );
    assert_eq!(refresh_step(&placement, true), OverlayStep::Ignore);
    placement.set_presentation(compact);
    placement.mark_manually_positioned(Some(geometry(
        area(0, 0, 10, 10),
        area(0, 0, 10, 10),
        1.0,
    )));
    assert_eq!(
        refresh_step(&placement, true),
        OverlayStep::Show { in_place: true, find_screen: false }
    );
    assert_eq!(refresh_step(&placement, false), OverlayStep::Ignore);
    assert!(overlay_traits(VoiceOverlayPresentationMode::Expanded).takes_keyboard);
    assert!(!overlay_traits(compact).takes_keyboard);
    assert_eq!(click_through_change(false, true), Some(true));
    assert_eq!(click_through_change(true, true), None);
    assert_eq!(IslandState::default().presentation, IslandPresentationMode::Collapsed);
}

#[test]
fn the_screen_of_the_pointer_is_found() {
    let left = Monitor {
        area: area(-1920, 0, 1920, 1080),
        work: area(-1920, 30, 1920, 1050),
        scale: 1.0f64.to_bits(),
    };
    let right = Monitor {
        area: area(0, 0, 3024, 1964),
        work: area(0, 50, 3024, 1914),
        scale: 2.0f64.to_bits(),
    };
    let monitors = vec![left, right];
    let cursor = Cursor { x: 5, y: 6, pixel_x: -1, pixel_y: 10 };
    let native = NativeScreen { cursor_x: 1, cursor_y: 2, width: 3025, height: 1962 };

    let told = cursor_monitor_geometry(&monitors, Some(native), &vec![false, true], cursor, None);
    assert_eq!(told.unwrap().source, "appkit");
    assert_eq!(told.unwrap().work, right.work);
    assert_eq!(told.unwrap().cursor_x, 1);

    // Another scale is another screen.
    let told = cursor_monitor_geometry(&monitors, Some(native), &vec![true, false], cursor, None);
    assert_eq!(told.unwrap().source, "tauri");
    assert_eq!(told.unwrap().monitor, left.area);
    assert_eq!(told.unwrap().cursor_x, 5);

    let lost = Cursor { pixel_x: 9_999, ..cursor };
    let told =
        cursor_monitor_geometry(&monitors, None, &vec![false, false], lost, Some(right));
    assert_eq!(told.unwrap().source, "tauri-fallback");
    assert!(cursor_monitor_geometry(&monitors, None, &vec![false, false], lost, None).is_none());
}

#[test]
fn windows_stay_on_the_screen() {
    assert_eq!(clamp_i32(5, 0, 3), 3);
    assert_eq!(clamp_i32(-5, 0, 3), 0);
    assert_eq!(clamp_i32(1, 0, -3), -3);
    let screen = area(0, 0, 1000, 800);
    assert_eq!(top_center_coordinates(screen, 401, 74), (299, 44));
    assert_eq!(top_center_coordinates(screen, 1400, 790), (0, 10));
    let work = area(0, 20, 1000, 780);
    assert_eq!(window_area(screen, work, 0, 10, 10), screen);
    assert_eq!(window_area(screen, work, 48, 10, 10), area(48, 68, 904, 684));
    assert_eq!(window_area(screen, work, 48, 950, 10), area(48, 68, 950, 684));
    assert_eq!(overlay_place(work, 720, 680, 48, 0), ((140, 72), (720, 680)));
    assert_eq!(overlay_place(work, 320, 68, 0, 56), ((340, 676), (320, 68)));
    assert_eq!(overlay_place(work, 0, -3, 0, 0).1, (1, 1));
}

#[test]
fn questions_have_a_default() {
    let default = "请描述这张截图里的内容，并说明它当前在做什么。";
    assert_eq!(question_of(None), default);
    assert_eq!(question_of(Some("  \n")), default);
    assert_eq!(question_of(Some(" why? ")), "why?");
}

#[test]
fn only_urls_in_base64_are_stripped() {
    assert_eq!(strip_data_url_prefix("data:text/plain,AAAA"), "data:text/plain,AAAA");
    assert_eq!(strip_data_url_prefix("base64,AAAA"), "base64,AAAA");
    assert_eq!(strip_data_url_prefix("data:x;base64,A,B"), "A,B");
}

#[test]
fn rows_are_packed() {
    let full: Vec<u8> = (0..22).collect();
    let packed = pack_rows(&full, 1, 3, 9).unwrap();
    assert_eq!(packed, vec![0, 1, 2, 3, 9, 10, 11, 12, 18, 19, 20, 21]);
    assert_eq!(pack_rows(&full, 1, 4, 9).unwrap_err(), "截图像素缓冲区解析失败。");
    assert_eq!(pack_rows(&full, 0, 3, 9).unwrap_err(), "截图内容为空。");
    assert_eq!(pack_rows(&full, 3, 0, 9).unwrap_err(), "截图内容为空。");
}

#[test]
fn pictures_are_encoded_as_small_files() {
    let file = encode_optimized_jpeg(16, 8, vec![200; 16 * 8 * 4]).unwrap();
    assert_eq!(&file[..2], &[0xff, 0xd8]);
    assert!(file.len() <= MAX_IMAGE_BYTES);
    assert_eq!(image::load_from_memory(&file).unwrap().width(), 16);

    let wide = encode_optimized_jpeg(2560, 10, vec![90; 2560 * 10 * 4]).unwrap();
    let picture = image::load_from_memory(&wide).unwrap();
    assert_eq!((picture.width(), picture.height()), (1280, 5));

    assert_eq!(
        encode_optimized_jpeg(16, 8, vec![0; 16 * 8 * 4 - 1]).unwrap_err(),
        "截图像素数据无效。"
    );
    let empty = encode_optimized_jpeg(0, 8, vec![]).unwrap_err();
    assert!(empty.starts_with("截图 JPEG 编码失败："), "{}", empty);
}

#[test]
fn large_files_are_tried_again() {
    assert!(matches!(judge_jpeg(Ok(vec![1, 2])), JpegStep::Send(bytes) if bytes == vec![1, 2]));
    assert!(matches!(judge_jpeg(Ok(vec![0; MAX_IMAGE_BYTES])), JpegStep::Send(_)));
    assert!(matches!(judge_jpeg(Ok(vec![0; MAX_IMAGE_BYTES + 1])), JpegStep::Retry));
    assert!(matches!(
        judge_jpeg(Err("bad".to_string())),
        JpegStep::Failed(message) if message == "截图 JPEG 编码失败：bad"
    ));
}

#[test]
fn pictures_are_handed_on_in_base64() {
    let picture = capture_result(3, 4, &b"foo".to_vec());
    assert_eq!(picture.image_base64, "Zm9v");
    assert_eq!(picture.mime_type, "image/jpeg");
    assert_eq!((picture.width, picture.height), (3, 4));
    assert_eq!(
        capture_screen().unwrap_err(),
        "Screen capture is only supported on macOS."
    );
}

#[test]
fn the_oldest_files_go_first() {
    assert_eq!(files_to_prune(&vec![5, 1, 3], 3), Vec::<usize>::new());
    assert_eq!(files_to_prune(&vec![5, 1, 3, 1], 2), vec![1, 3]);
    assert_eq!(files_to_prune(&vec![5, 1], 0), vec![1, 0]);
}

#[test]
fn log_entries_are_dated() {
    assert_eq!(log_line(12, "started"), "12 started");
    assert_eq!(dump_file_name(7, "raw", 48_000), "7-raw-48000hz.wav");
    assert_eq!(dump_samples(44), 0);
    assert_eq!(dump_samples(10), 0);
    assert_eq!(dump_samples(49), 2);
}

#[test]
fn our_own_windows_are_passed_over() {
    assert_eq!(foreground_window(&vec![1, 1, 7, 8], 1), Some(2));
    assert_eq!(foreground_window(&vec![1, 1], 1), None);
    assert_eq!(foreground_window(&vec![], 1), None);
    let mut deep = vec![1; 16];
    deep.push(2);
    assert_eq!(foreground_window(&deep, 1), None);
    deep.remove(0);
    assert_eq!(foreground_window(&deep, 1), Some(15));
}

#[test]
fn unsupported_systems_have_no_target() {
    assert!(capture().is_none());
    assert!(capture_app_identity().is_none());
    let target = TargetSnapshot { pid: 1, app_name: None };
    assert_eq!(
        restore_focus(&target).unwrap_err(),
        "Restoring input focus is only supported on macOS and Windows."
    );
}

#[test]
fn a_picture_without_room_keeps_one_pixel() {
    assert_eq!(scaled_dimensions(4000, 10, 0), (1, 1));
    assert_eq!(scaled_dimensions(0, 0, 0), (0, 0));
}
