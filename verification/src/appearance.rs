//! How the windows look.
//!
//! Numbers are of double precision and are kept by their bits.

use crate::number::{finite, is_finite, larger, larger_of, rank, smaller, smaller_of};
use vstd::prelude::*;

verus! {

/// The bits of 40.
pub const INK_MIN: u64 = 0x4044_0000_0000_0000;

/// The bits of 235.
pub const INK_MAX: u64 = 0x406d_6000_0000_0000;

/// The bits of 0.05.
pub const OPACITY_MIN: u64 = 0x3fa9_9999_9999_999a;

/// The bits of 1.
pub const OPACITY_MAX: u64 = 0x3ff0_0000_0000_0000;

/// The bits of 0.7.
pub const UI_SCALE_MIN: u64 = 0x3fe6_6666_6666_6666;

/// The bits of 1.6.
pub const UI_SCALE_MAX: u64 = 0x3ff9_9999_9999_999a;

/// The bits of 320.
pub const ISLAND_WIDTH_MIN: u64 = 0x4074_0000_0000_0000;

/// The bits of 1400.
pub const ISLAND_WIDTH_MAX: u64 = 0x4095_e000_0000_0000;

/// The bits of 560.
pub const PANEL_WIDTH_MIN: u64 = 0x4081_8000_0000_0000;

/// The bits of 1600.
pub const PANEL_WIDTH_MAX: u64 = 0x4099_0000_0000_0000;

/// The bits of 320.
pub const PANEL_HEIGHT_MIN: u64 = 0x4074_0000_0000_0000;

/// The bits of 1100.
pub const PANEL_HEIGHT_MAX: u64 = 0x4091_3000_0000_0000;

/// The settings of the windows.
#[derive(Debug, Clone, Copy, PartialEq, Eq, Structural)]
pub struct AppearanceSettings {
    /// Text is faint, and the windows are left out of what others see of the screen.
    pub ghost_enabled: bool,
    /// The grey level of faint text, of 255.
    pub ink: u64,
    /// How opaque strong text is.
    pub strong: u64,
    /// How opaque text is.
    pub base: u64,
    /// How opaque soft text is.
    pub soft: u64,
    /// How much larger everything is shown.
    pub ui_scale: u64,
    /// The width of the bar, before it is scaled.
    pub island_width: u64,
    /// The width of the panel, before it is scaled.
    pub panel_width: u64,
    /// The height of the panel, before it is scaled.
    pub panel_height: u64,
}

/// A number that is kept in a range. What is no finite number becomes the least.
pub open spec fn clamped(value: u64, min: u64, max: u64) -> u64 {
    if is_finite(value) {
        smaller(larger(value, min), max)
    } else {
        min
    }
}

/// A number that is kept in a range.
pub fn clamp(value: u64, min: u64, max: u64) -> (kept: u64)
    ensures
        kept == clamped(value, min, max),
{
    if finite(value) {
        smaller_of(larger_of(value, min), max)
    } else {
        min
    }
}

/// A number is in a range.
pub open spec fn within(value: u64, min: u64, max: u64) -> bool {
    is_finite(value) && rank(min) <= rank(value) <= rank(max)
}

/// What is kept in a range is in it, and what is in it stays as it is.
pub proof fn lemma_clamped(value: u64, min: u64, max: u64)
    requires
        is_finite(min),
        is_finite(max),
        rank(min) <= rank(max),
    ensures
        within(clamped(value, min, max), min, max),
        within(value, min, max) ==> clamped(value, min, max) == value,
{
}

/// The settings where nothing else is said.
pub open spec fn default_settings() -> AppearanceSettings {
    AppearanceSettings {
        ghost_enabled: true,
        ink: 0x4060_4000_0000_0000,
        strong: 0x3fea_3d70_a3d7_0a3d,
        base: 0x3fe5_1eb8_51eb_851f,
        soft: 0x3fdd_70a3_d70a_3d71,
        ui_scale: 0x3ff0_0000_0000_0000,
        island_width: 0x4082_c000_0000_0000,
        panel_width: 0x408c_c000_0000_0000,
        panel_height: 0x4082_c000_0000_0000,
    }
}

impl Default for AppearanceSettings {
    fn default() -> (settings: AppearanceSettings)
        ensures
            settings == default_settings(),
    {
        AppearanceSettings {
            ghost_enabled: true,
            // 130
            ink: 0x4060_4000_0000_0000,
            // 0.82
            strong: 0x3fea_3d70_a3d7_0a3d,
            // 0.66
            base: 0x3fe5_1eb8_51eb_851f,
            // 0.46
            soft: 0x3fdd_70a3_d70a_3d71,
            // 1
            ui_scale: 0x3ff0_0000_0000_0000,
            // 600
            island_width: 0x4082_c000_0000_0000,
            // 920
            panel_width: 0x408c_c000_0000_0000,
            // 600
            panel_height: 0x4082_c000_0000_0000,
        }
    }
}

/// Every number is in its range.
pub open spec fn usable(settings: AppearanceSettings) -> bool {
    &&& within(settings.ink, INK_MIN, INK_MAX)
    &&& within(settings.strong, OPACITY_MIN, OPACITY_MAX)
    &&& within(settings.base, OPACITY_MIN, OPACITY_MAX)
    &&& within(settings.soft, OPACITY_MIN, OPACITY_MAX)
    &&& within(settings.ui_scale, UI_SCALE_MIN, UI_SCALE_MAX)
    &&& within(settings.island_width, ISLAND_WIDTH_MIN, ISLAND_WIDTH_MAX)
    &&& within(settings.panel_width, PANEL_WIDTH_MIN, PANEL_WIDTH_MAX)
    &&& within(settings.panel_height, PANEL_HEIGHT_MIN, PANEL_HEIGHT_MAX)
}

impl AppearanceSettings {
    /// The settings with every number in its range.
    pub open spec fn sane(self) -> AppearanceSettings {
        AppearanceSettings {
            ghost_enabled: self.ghost_enabled,
            ink: clamped(self.ink, INK_MIN, INK_MAX),
            strong: clamped(self.strong, OPACITY_MIN, OPACITY_MAX),
            base: clamped(self.base, OPACITY_MIN, OPACITY_MAX),
            soft: clamped(self.soft, OPACITY_MIN, OPACITY_MAX),
            ui_scale: clamped(self.ui_scale, UI_SCALE_MIN, UI_SCALE_MAX),
            island_width: clamped(self.island_width, ISLAND_WIDTH_MIN, ISLAND_WIDTH_MAX),
            panel_width: clamped(self.panel_width, PANEL_WIDTH_MIN, PANEL_WIDTH_MAX),
            panel_height: clamped(self.panel_height, PANEL_HEIGHT_MIN, PANEL_HEIGHT_MAX),
        }
    }

    /// The settings with every number in its range, so that no file and no request can make a window
    /// that cannot be seen.
    pub fn sanitized(self) -> (settings: AppearanceSettings)
        ensures
            settings == self.sane(),
            usable(settings),
    {
        proof {
            law_sane_settings_are_usable(self);
        }
        AppearanceSettings {
            ghost_enabled: self.ghost_enabled,
            ink: clamp(self.ink, INK_MIN, INK_MAX),
            strong: clamp(self.strong, OPACITY_MIN, OPACITY_MAX),
            base: clamp(self.base, OPACITY_MIN, OPACITY_MAX),
            soft: clamp(self.soft, OPACITY_MIN, OPACITY_MAX),
            ui_scale: clamp(self.ui_scale, UI_SCALE_MIN, UI_SCALE_MAX),
            island_width: clamp(self.island_width, ISLAND_WIDTH_MIN, ISLAND_WIDTH_MAX),
            panel_width: clamp(self.panel_width, PANEL_WIDTH_MIN, PANEL_WIDTH_MAX),
            panel_height: clamp(self.panel_height, PANEL_HEIGHT_MIN, PANEL_HEIGHT_MAX),
        }
    }
}

/// Whatever the settings were, they are usable once they are sane, and usable ones stay as they are.
pub proof fn law_sane_settings_are_usable(settings: AppearanceSettings)
    ensures
        usable(settings.sane()),
        usable(settings) ==> settings.sane() == settings,
        settings.sane().sane() == settings.sane(),
        settings.sane().ghost_enabled == settings.ghost_enabled,
{
    lemma_clamped(settings.ink, INK_MIN, INK_MAX);
    lemma_clamped(settings.sane().ink, INK_MIN, INK_MAX);
    lemma_clamped(settings.strong, OPACITY_MIN, OPACITY_MAX);
    lemma_clamped(settings.sane().strong, OPACITY_MIN, OPACITY_MAX);
    lemma_clamped(settings.base, OPACITY_MIN, OPACITY_MAX);
    lemma_clamped(settings.sane().base, OPACITY_MIN, OPACITY_MAX);
    lemma_clamped(settings.soft, OPACITY_MIN, OPACITY_MAX);
    lemma_clamped(settings.sane().soft, OPACITY_MIN, OPACITY_MAX);
    lemma_clamped(settings.ui_scale, UI_SCALE_MIN, UI_SCALE_MAX);
    lemma_clamped(settings.sane().ui_scale, UI_SCALE_MIN, UI_SCALE_MAX);
    lemma_clamped(settings.island_width, ISLAND_WIDTH_MIN, ISLAND_WIDTH_MAX);
    lemma_clamped(settings.sane().island_width, ISLAND_WIDTH_MIN, ISLAND_WIDTH_MAX);
    lemma_clamped(settings.panel_width, PANEL_WIDTH_MIN, PANEL_WIDTH_MAX);
    lemma_clamped(settings.sane().panel_width, PANEL_WIDTH_MIN, PANEL_WIDTH_MAX);
    lemma_clamped(settings.panel_height, PANEL_HEIGHT_MIN, PANEL_HEIGHT_MAX);
    lemma_clamped(settings.sane().panel_height, PANEL_HEIGHT_MIN, PANEL_HEIGHT_MAX);
}

/// The settings where nothing else is said are usable.
pub proof fn law_default_settings_are_usable()
    ensures
        usable(default_settings()),
{
}

/// The settings that were read, or where none could be those where nothing else is said.
pub fn settings_or_default(read: Option<AppearanceSettings>) -> (settings: AppearanceSettings)
    ensures
        settings == match read {
            Some(read) => read.sane(),
            None => default_settings(),
        },
        usable(settings),
{
    match read {
        Some(read) => read.sanitized(),
        None => AppearanceSettings::default(),
    }
}

/// A setting that is within its bounds stays, one below them becomes the least, one above them the
/// most, and what is no finite number the least.
pub proof fn law_settings_are_brought_within_bounds(value: u64, min: u64, max: u64)
    requires
        is_finite(min),
        is_finite(max),
        rank(min) < rank(max),
    ensures
        is_finite(value) && rank(min) <= rank(value) <= rank(max) ==> clamped(value, min, max) == value,
        is_finite(value) && rank(value) < rank(min) ==> clamped(value, min, max) == min,
        is_finite(value) && rank(value) > rank(max) ==> clamped(value, min, max) == max,
        !is_finite(value) ==> clamped(value, min, max) == min,
{
}

/// Each setting has its own bounds: grey from forty to two hundred and thirty-five, opacity from five
/// hundredths to one, scale from seven to sixteen tenths, the bar from 320 to 1400 wide, the panel
/// from 560 to 1600 wide and from 320 to 1100 high.
pub proof fn law_each_setting_has_its_bounds(settings: AppearanceSettings)
    ensures
        ({
            let sane = settings.sane();
            &&& sane.ghost_enabled == settings.ghost_enabled
            &&& sane.ink == clamped(settings.ink, 0x4044_0000_0000_0000, 0x406d_6000_0000_0000)
            &&& sane.strong == clamped(
                settings.strong,
                0x3fa9_9999_9999_999a,
                0x3ff0_0000_0000_0000,
            )
            &&& sane.base == clamped(settings.base, 0x3fa9_9999_9999_999a, 0x3ff0_0000_0000_0000)
            &&& sane.soft == clamped(settings.soft, 0x3fa9_9999_9999_999a, 0x3ff0_0000_0000_0000)
            &&& sane.ui_scale == clamped(
                settings.ui_scale,
                0x3fe6_6666_6666_6666,
                0x3ff9_9999_9999_999a,
            )
            &&& sane.island_width == clamped(
                settings.island_width,
                0x4074_0000_0000_0000,
                0x4095_e000_0000_0000,
            )
            &&& sane.panel_width == clamped(
                settings.panel_width,
                0x4081_8000_0000_0000,
                0x4099_0000_0000_0000,
            )
            &&& sane.panel_height == clamped(
                settings.panel_height,
                0x4074_0000_0000_0000,
                0x4091_3000_0000_0000,
            )
        }),
{
}

/// At first text is faint, of the grey of 130, and 82, 66 and 46 hundredths opaque; nothing is scaled,
/// and the bar is 600 wide, and the panel 920 wide and 600 high.
pub proof fn law_settings_at_first()
    ensures
        default_settings().ghost_enabled,
        default_settings().ink == 0x4060_4000_0000_0000,
        default_settings().strong == 0x3fea_3d70_a3d7_0a3d,
        default_settings().base == 0x3fe5_1eb8_51eb_851f,
        default_settings().soft == 0x3fdd_70a3_d70a_3d71,
        default_settings().ui_scale == 0x3ff0_0000_0000_0000,
        default_settings().island_width == 0x4082_c000_0000_0000,
        default_settings().panel_width == 0x408c_c000_0000_0000,
        default_settings().panel_height == 0x4082_c000_0000_0000,
{
}

} // verus!
