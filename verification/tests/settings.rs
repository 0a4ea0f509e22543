use ryggattack::settings::{
    Effects, ForestDensity, HintChange, LowFpsWatch, Preset, RenderScale, SettingRow, Shadows,
    VideoSettings, scaled_size, scene_image_size, switch_cycled,
};

#[test]
fn the_defaults_are_the_full_look() {
    let settings = VideoSettings::default();
    assert_eq!(settings.matching_preset(), Preset::High);
    assert_eq!(settings.effects.budget(), Effects::High.budget());
    assert_eq!(settings.render_scale, RenderScale::Full);
}

#[test]
fn every_preset_is_recognised_and_a_lone_change_is_custom() {
    for preset in [Preset::Low, Preset::Medium, Preset::High] {
        let mut settings = VideoSettings::preset(preset);
        assert_eq!(settings.matching_preset(), preset);
        settings.show_fps = true;
        assert_eq!(settings.matching_preset(), preset);
    }
    let mut settings = VideoSettings::preset(Preset::High);
    settings.shadows = Shadows::Low;
    assert_eq!(settings.matching_preset(), Preset::Custom);
}

#[test]
fn applying_a_preset_keeps_the_fps_counter() {
    let mut settings = VideoSettings {
        show_fps: true,
        ..Default::default()
    };
    settings.apply_preset(Preset::Low);
    assert!(settings.show_fps);
    assert_eq!(settings.matching_preset(), Preset::Low);
}

#[test]
fn cycling_wraps_both_ways() {
    assert_eq!(Shadows::High.cycled(1), Shadows::Off);
    assert_eq!(Shadows::Off.cycled(-1), Shadows::High);
    assert_eq!(RenderScale::Half.cycled(1), RenderScale::TwoThirds);
    assert!(switch_cycled(false, 1));
    // Custom is not in the list, so cycling from it starts over.
    assert_eq!(Preset::Custom.cycled(1), Preset::Medium);
}

#[test]
fn saved_settings_round_trip_and_tolerate_junk() {
    let settings = VideoSettings {
        render_scale: RenderScale::ThreeQuarters,
        anti_aliasing: false,
        shadows: Shadows::Off,
        effects: Effects::Medium,
        forest: ForestDensity::Sparse,
        show_fps: true,
    };
    assert_eq!(VideoSettings::decode(&settings.encode()), settings);
    assert_eq!(
        VideoSettings::decode("scale=13% bogus effects=LOW"),
        VideoSettings {
            effects: Effects::Low,
            ..Default::default()
        }
    );
}

#[test]
fn lower_effects_never_draw_more() {
    let [low, medium, high] = [Effects::Low, Effects::Medium, Effects::High].map(Effects::budget);
    for (less, more) in [(low, medium), (medium, high)] {
        assert!(less.trail_interval_ms >= more.trail_interval_ms);
        assert!(less.fireballs <= more.fireballs);
        assert!(less.sparks <= more.sparks);
        assert!(less.smoke_puffs <= more.smoke_puffs);
        assert!(less.max_flashes <= more.max_flashes);
    }
}

const SECOND: u64 = 1_000_000;

#[test]
fn a_sustained_low_frame_rate_suggests_once() {
    let mut watch = LowFpsWatch::default();
    // A brief dip does not count.
    assert!(!watch.observe(20, 5 * SECOND, Preset::High));
    assert!(!watch.observe(60, SECOND / 10, Preset::High));
    assert!(!watch.observe(20, 5 * SECOND, Preset::High));
    assert!(watch.observe(20, 5 * SECOND, Preset::High));
    // Only once.
    assert!(!watch.observe(20, 60 * SECOND, Preset::High));
    // Already at the lowest preset: nothing to suggest.
    let mut low = LowFpsWatch::default();
    assert!(!low.observe(10, 60 * SECOND, Preset::Low));
}

#[test]
fn the_scene_is_drawn_at_the_chosen_fraction() {
    assert_eq!(scaled_size((1920, 1080), RenderScale::Half), (960, 540));
    assert_eq!(scaled_size((1920, 1080), RenderScale::Full), (1920, 1080));
    assert_eq!(scaled_size((0, 0), RenderScale::Half), (1, 1));
}

#[test]
fn the_quality_row_steps_through_the_presets() {
    let mut settings = VideoSettings::preset(Preset::High);
    SettingRow::Preset.cycle(&mut settings, 1);
    assert_eq!(settings.matching_preset(), Preset::Low);
    SettingRow::Preset.cycle(&mut settings, -1);
    assert_eq!(settings.matching_preset(), Preset::High);
}

#[test]
fn a_hand_made_mix_reads_as_custom_and_steps_to_a_preset() {
    let mut settings = VideoSettings::preset(Preset::High);
    SettingRow::Shadows.cycle(&mut settings, -1);
    assert_eq!(settings.shadows, Shadows::Low);
    assert_eq!(SettingRow::Preset.value(&settings), "CUSTOM");
    SettingRow::Preset.cycle(&mut settings, 1);
    assert_eq!(settings.matching_preset(), Preset::Low);
}

#[test]
fn two_thirds_and_three_quarters_round_to_the_nearest_pixel() {
    assert_eq!(scaled_size((1920, 1080), RenderScale::TwoThirds), (1280, 720));
    assert_eq!(scaled_size((1001, 3), RenderScale::ThreeQuarters), (751, 2));
    assert_eq!(scaled_size((1, 1), RenderScale::Half), (1, 1));
    assert_eq!(scaled_size((u32::MAX, 3), RenderScale::Full), (u32::MAX, 3));
}

#[test]
fn every_setting_saves_and_loads_back() {
    for render_scale in [RenderScale::Half, RenderScale::TwoThirds, RenderScale::ThreeQuarters, RenderScale::Full] {
        for shadows in [Shadows::Off, Shadows::Low, Shadows::High] {
            for effects in [Effects::Low, Effects::Medium, Effects::High] {
                for forest in [ForestDensity::Sparse, ForestDensity::Full] {
                    for (anti_aliasing, show_fps) in [(false, false), (true, false), (false, true), (true, true)] {
                        let settings = VideoSettings { render_scale, anti_aliasing, shadows, effects, forest, show_fps };
                        assert_eq!(VideoSettings::decode(&settings.encode()), settings);
                    }
                }
            }
        }
    }
}

#[test]
fn an_empty_save_loads_the_defaults() {
    assert_eq!(VideoSettings::decode(""), VideoSettings::default());
    assert_eq!(VideoSettings::decode("shadows"), VideoSettings::default());
}

#[test]
fn shadow_maps_shrink_with_the_shadow_setting() {
    let mut settings = VideoSettings::default();
    assert_eq!(settings.shadow_map_size(), Some(1024));
    settings.shadows = Shadows::Low;
    assert_eq!(settings.shadow_map_size(), Some(512));
    settings.shadows = Shadows::Off;
    assert_eq!(settings.shadow_map_size(), None);
}

#[test]
fn labels_name_the_current_values() {
    assert_eq!(Preset::Custom.label(), "CUSTOM");
    assert_eq!(RenderScale::TwoThirds.label(), "67%");
    assert_eq!(ForestDensity::Sparse.label(), "SPARSE");
    assert_eq!(SettingRow::Preset.title(), "QUALITY");
}

#[test]
fn the_hint_counts_down_and_hides() {
    let mut watch = LowFpsWatch::default();
    // The first seconds after loading are not watched.
    assert_eq!(watch.advance(20 * SECOND, SECOND, Some(10), Preset::High), HintChange::Keep);
    assert_eq!(watch.low_for, 0);
    assert_eq!(watch.advance(10 * SECOND, 6 * SECOND, Some(10), Preset::High), HintChange::Show);
    assert_eq!(watch.advance(5 * SECOND, 7 * SECOND, Some(10), Preset::High), HintChange::Keep);
    assert_eq!(watch.advance(5 * SECOND, 8 * SECOND, Some(10), Preset::High), HintChange::Hide);
    assert_eq!(watch.advance(5 * SECOND, 9 * SECOND, Some(10), Preset::High), HintChange::Keep);
}

#[test]
fn sparse_woods_keep_every_other_prop() {
    let kept: Vec<usize> = (0..6).filter(|&index| ForestDensity::Sparse.keeps(index)).collect();
    assert_eq!(kept, vec![0, 2, 4]);
    assert!((0..6).all(|index| ForestDensity::Full.keeps(index)));
}

#[test]
fn at_full_resolution_the_scene_picture_shrinks_to_a_pixel() {
    assert_eq!(scene_image_size((1920, 1080), RenderScale::Full), (1, 1));
    assert_eq!(scene_image_size((1920, 1080), RenderScale::ThreeQuarters), (1440, 810));
}
