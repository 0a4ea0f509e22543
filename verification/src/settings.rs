//! Video settings: what the player can turn down when the browser cannot keep
//! up, the presets that set several at once, and how they are saved.
//!
//! The defaults are the game's full look. Everything here only ever trades
//! away detail; none of it changes how the game plays.

use vstd::prelude::*;
use crate::nav::focus_after_step;
use vstd::string::{StrSliceExecFns, StringExecFns};

verus! {

/// The value `count` values along a list of `count`, wrapping at either end.
pub open spec fn wrapped(index: int, step: int, count: int) -> int {
    (index + step) % count
}

/// How many of the canvas's pixels the 3D view is drawn at.
#[derive(Clone, Copy, Debug, PartialEq, Eq, Structural)]
pub enum RenderScale {
    Half,
    TwoThirds,
    ThreeQuarters,
    Full,
}

#[derive(Clone, Copy, Debug, PartialEq, Eq, Structural)]
pub enum Shadows {
    Off,
    Low,
    High,
}

/// Fire, smoke, sparks, and the light a blast throws.
#[derive(Clone, Copy, Debug, PartialEq, Eq, Structural)]
pub enum Effects {
    Low,
    Medium,
    High,
}

/// How thick the woods beyond the walls grow.
#[derive(Clone, Copy, Debug, PartialEq, Eq, Structural)]
pub enum ForestDensity {
    Sparse,
    Full,
}

/// A named bundle of settings, or `Custom` once any of them is changed alone.
#[derive(Clone, Copy, Debug, PartialEq, Eq, Structural)]
pub enum Preset {
    Low,
    Medium,
    High,
    Custom,
}

impl RenderScale {
    pub open spec fn position(self) -> int {
        match self {
            RenderScale::Half => 0,
            RenderScale::TwoThirds => 1,
            RenderScale::ThreeQuarters => 2,
            RenderScale::Full => 3,
        }
    }

    pub open spec fn at(index: int) -> Self {
        if index == 0 {
            RenderScale::Half
        } else if index == 1 {
            RenderScale::TwoThirds
        } else if index == 2 {
            RenderScale::ThreeQuarters
        } else {
            RenderScale::Full
        }
    }

    pub open spec fn label_chars(self) -> Seq<char> {
        match self {
            RenderScale::Half => seq!['5', '0', '%'],
            RenderScale::TwoThirds => seq!['6', '7', '%'],
            RenderScale::ThreeQuarters => seq!['7', '5', '%'],
            RenderScale::Full => seq!['1', '0', '0', '%'],
        }
    }

    /// The fraction of the canvas's size the world is drawn at.
    pub fn fraction(self) -> (fraction: (u32, u32))
        ensures
            fraction == match self {
                RenderScale::Half => (1u32, 2u32),
                RenderScale::TwoThirds => (2u32, 3u32),
                RenderScale::ThreeQuarters => (3u32, 4u32),
                RenderScale::Full => (1u32, 1u32),
            },
    {
        match self {
            RenderScale::Half => (1, 2),
            RenderScale::TwoThirds => (2, 3),
            RenderScale::ThreeQuarters => (3, 4),
            RenderScale::Full => (1, 1),
        }
    }

    pub fn label(self) -> (label: &'static str)
        ensures
            label@ == self.label_chars(),
    {
        match self {
            RenderScale::Half => {
                proof {
                    reveal_strlit("50%");
                }
                "50%"
            },
            RenderScale::TwoThirds => {
                proof {
                    reveal_strlit("67%");
                }
                "67%"
            },
            RenderScale::ThreeQuarters => {
                proof {
                    reveal_strlit("75%");
                }
                "75%"
            },
            RenderScale::Full => {
                proof {
                    reveal_strlit("100%");
                }
                "100%"
            },
        }
    }

    /// The next value along, wrapping at either end.
    pub fn cycled(self, step: i32) -> (next: Self)
        ensures
            next == Self::at(wrapped(self.position(), step as int, 4)),
    {
        let index: usize = match self {
            RenderScale::Half => 0,
            RenderScale::TwoThirds => 1,
            RenderScale::ThreeQuarters => 2,
            RenderScale::Full => 3,
        };
        match focus_after_step(Some(index), step, 4) {
            0 => RenderScale::Half,
            1 => RenderScale::TwoThirds,
            2 => RenderScale::ThreeQuarters,
            _ => RenderScale::Full,
        }
    }
}

impl Shadows {
    pub open spec fn position(self) -> int {
        match self {
            Shadows::Off => 0,
            Shadows::Low => 1,
            Shadows::High => 2,
        }
    }

    pub open spec fn at(index: int) -> Self {
        if index == 0 {
            Shadows::Off
        } else if index == 1 {
            Shadows::Low
        } else {
            Shadows::High
        }
    }

    pub open spec fn label_chars(self) -> Seq<char> {
        match self {
            Shadows::Off => seq!['O', 'F', 'F'],
            Shadows::Low => seq!['L', 'O', 'W'],
            Shadows::High => seq!['H', 'I', 'G', 'H'],
        }
    }

    pub fn label(self) -> (label: &'static str)
        ensures
            label@ == self.label_chars(),
    {
        match self {
            Shadows::Off => {
                proof {
                    reveal_strlit("OFF");
                }
                "OFF"
            },
            Shadows::Low => {
                proof {
                    reveal_strlit("LOW");
                }
                "LOW"
            },
            Shadows::High => {
                proof {
                    reveal_strlit("HIGH");
                }
                "HIGH"
            },
        }
    }

    pub fn cycled(self, step: i32) -> (next: Self)
        ensures
            next == Self::at(wrapped(self.position(), step as int, 3)),
    {
        let index: usize = match self {
            Shadows::Off => 0,
            Shadows::Low => 1,
            Shadows::High => 2,
        };
        match focus_after_step(Some(index), step, 3) {
            0 => Shadows::Off,
            1 => Shadows::Low,
            _ => Shadows::High,
        }
    }
}

impl Effects {
    pub open spec fn position(self) -> int {
        match self {
            Effects::Low => 0,
            Effects::Medium => 1,
            Effects::High => 2,
        }
    }

    pub open spec fn at(index: int) -> Self {
        if index == 0 {
            Effects::Low
        } else if index == 1 {
            Effects::Medium
        } else {
            Effects::High
        }
    }

    pub open spec fn label_chars(self) -> Seq<char> {
        match self {
            Effects::Low => seq!['L', 'O', 'W'],
            Effects::Medium => seq!['M', 'E', 'D', 'I', 'U', 'M'],
            Effects::High => seq!['H', 'I', 'G', 'H'],
        }
    }

    pub fn label(self) -> (label: &'static str)
        ensures
            label@ == self.label_chars(),
    {
        match self {
            Effects::Low => {
                proof {
                    reveal_strlit("LOW");
                }
                "LOW"
            },
            Effects::Medium => {
                proof {
                    reveal_strlit("MEDIUM");
                }
                "MEDIUM"
            },
            Effects::High => {
                proof {
                    reveal_strlit("HIGH");
                }
                "HIGH"
            },
        }
    }

    pub fn cycled(self, step: i32) -> (next: Self)
        ensures
            next == Self::at(wrapped(self.position(), step as int, 3)),
    {
        let index: usize = match self {
            Effects::Low => 0,
            Effects::Medium => 1,
            Effects::High => 2,
        };
        match focus_after_step(Some(index), step, 3) {
            0 => Effects::Low,
            1 => Effects::Medium,
            _ => Effects::High,
        }
    }

    /// How much of a blast is drawn at this level. `High` is the game's
    /// full look.
    pub fn budget(self) -> (budget: EffectBudget)
        ensures
            budget == self.spec_budget(),
            self == Effects::High ==> budget == (EffectBudget {
                trail_interval_ms: 30,
                fireballs: 3,
                sparks: 14,
                smoke_puffs: 4,
                max_flashes: 3,
            }),
            self == Effects::Medium ==> budget == (EffectBudget {
                trail_interval_ms: 50,
                fireballs: 2,
                sparks: 8,
                smoke_puffs: 2,
                max_flashes: 2,
            }),
            self == Effects::Low ==> budget == (EffectBudget {
                trail_interval_ms: 100,
                fireballs: 1,
                sparks: 4,
                smoke_puffs: 1,
                max_flashes: 0,
            }),
    {
        match self {
            Effects::High => EffectBudget {
                trail_interval_ms: 30,
                fireballs: 3,
                sparks: 14,
                smoke_puffs: 4,
                max_flashes: 3,
            },
            Effects::Medium => EffectBudget {
                trail_interval_ms: 50,
                fireballs: 2,
                sparks: 8,
                smoke_puffs: 2,
                max_flashes: 2,
            },
            Effects::Low => EffectBudget {
                trail_interval_ms: 100,
                fireballs: 1,
                sparks: 4,
                smoke_puffs: 1,
                max_flashes: 0,
            },
        }
    }

    pub open spec fn spec_budget(self) -> EffectBudget {
        match self {
            Effects::High => EffectBudget {
                trail_interval_ms: 30,
                fireballs: 3,
                sparks: 14,
                smoke_puffs: 4,
                max_flashes: 3,
            },
            Effects::Medium => EffectBudget {
                trail_interval_ms: 50,
                fireballs: 2,
                sparks: 8,
                smoke_puffs: 2,
                max_flashes: 2,
            },
            Effects::Low => EffectBudget {
                trail_interval_ms: 100,
                fireballs: 1,
                sparks: 4,
                smoke_puffs: 1,
                max_flashes: 0,
            },
        }
    }
}

/// How much of a blast is drawn.
#[derive(Clone, Copy, Debug, PartialEq, Eq, Structural)]
pub struct EffectBudget {
    /// Milliseconds between the smoke puffs a flying missile leaves.
    pub trail_interval_ms: u32,
    /// Fire balls per blast, from the largest down.
    pub fireballs: usize,
    /// Sparks from a missile's own blast; chained blasts throw fewer.
    pub sparks: u32,
    pub smoke_puffs: usize,
    /// Blast lights burning at once.
    pub max_flashes: usize,
}

/// Each effects level draws strictly less than the one above it: fewer fire
/// balls, sparks, smoke puffs and blast lights, and smoke trails spaced
/// further apart. The lowest level lights no blast at all.
pub proof fn lemma_each_effects_level_draws_strictly_less()
    ensures
        forall|less: Effects, more: Effects|
            #![trigger less.spec_budget(), more.spec_budget()]
            less.position() < more.position() ==> {
                &&& less.spec_budget().trail_interval_ms > more.spec_budget().trail_interval_ms
                &&& less.spec_budget().fireballs < more.spec_budget().fireballs
                &&& less.spec_budget().sparks < more.spec_budget().sparks
                &&& less.spec_budget().smoke_puffs < more.spec_budget().smoke_puffs
                &&& less.spec_budget().max_flashes < more.spec_budget().max_flashes
            },
        Effects::Low.spec_budget().max_flashes == 0,
        Effects::High.spec_budget() == (EffectBudget {
            trail_interval_ms: 30,
            fireballs: 3,
            sparks: 14,
            smoke_puffs: 4,
            max_flashes: 3,
        }),
{
}

/// A lower effects level never draws more of anything.
pub proof fn lemma_lower_effects_never_draw_more(less: Effects, more: Effects)
    requires
        less.position() <= more.position(),
    ensures
        less.spec_budget().trail_interval_ms >= more.spec_budget().trail_interval_ms,
        less.spec_budget().fireballs <= more.spec_budget().fireballs,
        less.spec_budget().sparks <= more.spec_budget().sparks,
        less.spec_budget().smoke_puffs <= more.spec_budget().smoke_puffs,
        less.spec_budget().max_flashes <= more.spec_budget().max_flashes,
{
}

impl ForestDensity {
    pub open spec fn position(self) -> int {
        match self {
            ForestDensity::Sparse => 0,
            ForestDensity::Full => 1,
        }
    }

    pub open spec fn at(index: int) -> Self {
        if index == 0 {
            ForestDensity::Sparse
        } else {
            ForestDensity::Full
        }
    }

    pub open spec fn label_chars(self) -> Seq<char> {
        match self {
            ForestDensity::Sparse => seq!['S', 'P', 'A', 'R', 'S', 'E'],
            ForestDensity::Full => seq!['F', 'U', 'L', 'L'],
        }
    }

    pub fn label(self) -> (label: &'static str)
        ensures
            label@ == self.label_chars(),
    {
        match self {
            ForestDensity::Sparse => {
                proof {
                    reveal_strlit("SPARSE");
                }
                "SPARSE"
            },
            ForestDensity::Full => {
                proof {
                    reveal_strlit("FULL");
                }
                "FULL"
            },
        }
    }

    /// Whether the woods beyond the walls keep their `index`th prop at this
    /// density: all of them when full, every other one when sparse.
    pub fn keeps(self, index: usize) -> (kept: bool)
        ensures
            kept == (self == ForestDensity::Full || index % 2 == 0),
    {
        match self {
            ForestDensity::Full => true,
            ForestDensity::Sparse => index % 2 == 0,
        }
    }

    pub fn cycled(self, step: i32) -> (next: Self)
        ensures
            next == Self::at(wrapped(self.position(), step as int, 2)),
    {
        let index: usize = match self {
            ForestDensity::Sparse => 0,
            ForestDensity::Full => 1,
        };
        match focus_after_step(Some(index), step, 2) {
            0 => ForestDensity::Sparse,
            _ => ForestDensity::Full,
        }
    }
}

pub open spec fn switch_position(on: bool) -> int {
    if on {
        1
    } else {
        0
    }
}

pub open spec fn switch_label_chars(on: bool) -> Seq<char> {
    if on {
        seq!['O', 'N']
    } else {
        seq!['O', 'F', 'F']
    }
}

/// "ON" or "OFF".
pub fn switch_label(on: bool) -> (label: &'static str)
    ensures
        label@ == switch_label_chars(on),
{
    if on {
        proof {
            reveal_strlit("ON");
        }
        "ON"
    } else {
        proof {
            reveal_strlit("OFF");
        }
        "OFF"
    }
}

/// An on/off setting stepped from a menu row: `false` comes before `true`.
pub fn switch_cycled(on: bool, step: i32) -> (next: bool)
    ensures
        next == (wrapped(switch_position(on), step as int, 2) == 1),
{
    let index: usize = if on {
        1
    } else {
        0
    };
    focus_after_step(Some(index), step, 2) == 1
}

impl Preset {
    /// Where the preset stands among the ones a player picks; `Custom`,
    /// which is not among them, counts as the first.
    pub open spec fn position(self) -> int {
        match self {
            Preset::Low => 0,
            Preset::Medium => 1,
            Preset::High => 2,
            Preset::Custom => 0,
        }
    }

    pub open spec fn at(index: int) -> Self {
        if index == 0 {
            Preset::Low
        } else if index == 1 {
            Preset::Medium
        } else {
            Preset::High
        }
    }

    pub open spec fn label_chars(self) -> Seq<char> {
        match self {
            Preset::Low => seq!['L', 'O', 'W'],
            Preset::Medium => seq!['M', 'E', 'D', 'I', 'U', 'M'],
            Preset::High => seq!['H', 'I', 'G', 'H'],
            Preset::Custom => seq!['C', 'U', 'S', 'T', 'O', 'M'],
        }
    }

    pub fn label(self) -> (label: &'static str)
        ensures
            label@ == self.label_chars(),
    {
        match self {
            Preset::Low => {
                proof {
                    reveal_strlit("LOW");
                }
                "LOW"
            },
            Preset::Medium => {
                proof {
                    reveal_strlit("MEDIUM");
                }
                "MEDIUM"
            },
            Preset::High => {
                proof {
                    reveal_strlit("HIGH");
                }
                "HIGH"
            },
            Preset::Custom => {
                proof {
                    reveal_strlit("CUSTOM");
                }
                "CUSTOM"
            },
        }
    }

    /// The next preset along Low, Medium, High, wrapping at either end.
    /// `Custom` is not in the list, so cycling from it starts from Low.
    pub fn cycled(self, step: i32) -> (next: Self)
        ensures
            next == Self::at(wrapped(self.position(), step as int, 3)),
    {
        let index: usize = match self {
            Preset::Low => 0,
            Preset::Medium => 1,
            Preset::High => 2,
            Preset::Custom => 0,
        };
        match focus_after_step(Some(index), step, 3) {
            0 => Preset::Low,
            1 => Preset::Medium,
            _ => Preset::High,
        }
    }
}

/// Stepping forwards and then back returns to the value stepped from.
pub proof fn lemma_cycling_is_undone_by_stepping_back(index: int, count: int)
    requires
        0 <= index < count,
    ensures
        wrapped(wrapped(index, 1, count), -1, count) == index,
{
    vstd::arithmetic::div_mod::lemma_small_mod(index as nat, count as nat);
    if index + 1 < count {
        vstd::arithmetic::div_mod::lemma_small_mod((index + 1) as nat, count as nat);
    } else {
        vstd::arithmetic::div_mod::lemma_mod_self_0(count);
        assert(index + 1 == count);
        assert(wrapped(index, 1, count) == 0);
        vstd::arithmetic::div_mod::lemma_mod_add_multiples_vanish(-1, count);
        vstd::arithmetic::div_mod::lemma_small_mod((count - 1) as nat, count as nat);
    }
}

/// Every video setting the player controls.
#[derive(Clone, Copy, Debug, PartialEq, Eq, Structural)]
pub struct VideoSettings {
    pub render_scale: RenderScale,
    pub anti_aliasing: bool,
    pub shadows: Shadows,
    pub effects: Effects,
    pub forest: ForestDensity,
    pub show_fps: bool,
}

/// The settings a preset stands for. `Custom` reads as the full look.
pub open spec fn preset_settings(preset: Preset) -> VideoSettings {
    match preset {
        Preset::High | Preset::Custom => VideoSettings {
            render_scale: RenderScale::Full,
            anti_aliasing: true,
            shadows: Shadows::High,
            effects: Effects::High,
            forest: ForestDensity::Full,
            show_fps: false,
        },
        Preset::Medium => VideoSettings {
            render_scale: RenderScale::Full,
            anti_aliasing: false,
            shadows: Shadows::Low,
            effects: Effects::Medium,
            forest: ForestDensity::Full,
            show_fps: false,
        },
        Preset::Low => VideoSettings {
            render_scale: RenderScale::TwoThirds,
            anti_aliasing: false,
            shadows: Shadows::Off,
            effects: Effects::Low,
            forest: ForestDensity::Sparse,
            show_fps: false,
        },
    }
}

/// `settings` are `preset`'s, whatever the FPS counter shows.
pub open spec fn is_preset(settings: VideoSettings, preset: Preset) -> bool {
    VideoSettings { show_fps: settings.show_fps, ..preset_settings(preset) } == settings
}

/// The first of Low, Medium, High that `settings` match, else `Custom`.
pub open spec fn spec_matching_preset(settings: VideoSettings) -> Preset {
    if is_preset(settings, Preset::Low) {
        Preset::Low
    } else if is_preset(settings, Preset::Medium) {
        Preset::Medium
    } else if is_preset(settings, Preset::High) {
        Preset::High
    } else {
        Preset::Custom
    }
}

impl Default for VideoSettings {
    fn default() -> (settings: Self)
        ensures
            settings == preset_settings(Preset::High),
    {
        Self::preset(Preset::High)
    }
}

impl VideoSettings {
    pub fn preset(preset: Preset) -> (settings: Self)
        ensures
            settings == preset_settings(preset),
            preset == Preset::Low ==> settings == (VideoSettings {
                render_scale: RenderScale::TwoThirds,
                anti_aliasing: false,
                shadows: Shadows::Off,
                effects: Effects::Low,
                forest: ForestDensity::Sparse,
                show_fps: false,
            }),
            preset == Preset::Medium ==> settings == (VideoSettings {
                render_scale: RenderScale::Full,
                anti_aliasing: false,
                shadows: Shadows::Low,
                effects: Effects::Medium,
                forest: ForestDensity::Full,
                show_fps: false,
            }),
            preset == Preset::High || preset == Preset::Custom ==> settings == (VideoSettings {
                render_scale: RenderScale::Full,
                anti_aliasing: true,
                shadows: Shadows::High,
                effects: Effects::High,
                forest: ForestDensity::Full,
                show_fps: false,
            }),
    {
        match preset {
            Preset::High | Preset::Custom => Self {
                render_scale: RenderScale::Full,
                anti_aliasing: true,
                shadows: Shadows::High,
                effects: Effects::High,
                forest: ForestDensity::Full,
                show_fps: false,
            },
            Preset::Medium => Self {
                render_scale: RenderScale::Full,
                anti_aliasing: false,
                shadows: Shadows::Low,
                effects: Effects::Medium,
                forest: ForestDensity::Full,
                show_fps: false,
            },
            Preset::Low => Self {
                render_scale: RenderScale::TwoThirds,
                anti_aliasing: false,
                shadows: Shadows::Off,
                effects: Effects::Low,
                forest: ForestDensity::Sparse,
                show_fps: false,
            },
        }
    }

    /// Which preset these settings match. The FPS counter is not a quality
    /// setting, so it never makes a preset custom.
    pub fn matching_preset(&self) -> (preset: Preset)
        ensures
            preset == spec_matching_preset(*self),
    {
        let candidates = [Preset::Low, Preset::Medium, Preset::High];
        let mut i: usize = 0;
        while i < 3
            invariant
                i <= 3,
                candidates@ == seq![Preset::Low, Preset::Medium, Preset::High],
                forall|j: int| 0 <= j < i ==> !is_preset(*self, #[trigger] candidates@[j]),
            decreases 3 - i,
        {
            let preset = candidates[i];
            let mut wanted = Self::preset(preset);
            wanted.show_fps = self.show_fps;
            if wanted == *self {
                return preset;
            }
            i += 1;
        }
        Preset::Custom
    }

    /// Switch to a preset, keeping the FPS counter as it was.
    pub fn apply_preset(&mut self, preset: Preset)
        ensures
            *final(self) == (VideoSettings { show_fps: old(self).show_fps, ..preset_settings(preset) }),
    {
        let show_fps = self.show_fps;
        *self = Self::preset(preset);
        self.show_fps = show_fps;
    }

    /// The size of the shadow map, or none when shadows are off.
    pub fn shadow_map_size(&self) -> (size: Option<usize>)
        ensures
            size == match self.shadows {
                Shadows::Off => None,
                Shadows::Low => Some(512usize),
                Shadows::High => Some(1024usize),
            },
    {
        match self.shadows {
            Shadows::Off => None,
            Shadows::Low => Some(512),
            Shadows::High => Some(1024),
        }
    }
}

/// The presets are a ladder: each step up from Low through Medium to High
/// draws strictly finer shadows and strictly more effects, never a lower
/// resolution or a thinner forest, and only High turns anti-aliasing on. A
/// hand-made mix reads as the full look.
pub proof fn lemma_presets_form_a_ladder()
    ensures
        ({
            let low = preset_settings(Preset::Low);
            let medium = preset_settings(Preset::Medium);
            let high = preset_settings(Preset::High);
            &&& low.shadows.position() < medium.shadows.position() < high.shadows.position()
            &&& low.effects.position() < medium.effects.position() < high.effects.position()
            &&& low.render_scale.position() < medium.render_scale.position()
            &&& medium.render_scale.position() <= high.render_scale.position()
            &&& low.forest.position() < medium.forest.position()
            &&& medium.forest.position() <= high.forest.position()
            &&& !low.anti_aliasing && !medium.anti_aliasing && high.anti_aliasing
            &&& !low.show_fps && !medium.show_fps && !high.show_fps
            &&& high.render_scale == RenderScale::Full && high.shadows == Shadows::High
            &&& high.effects == Effects::High && high.forest == ForestDensity::Full
        }),
        preset_settings(Preset::Custom) == preset_settings(Preset::High),
{
}

/// Every preset is recognised, with the FPS counter on or off, and a
/// preset applied to any settings is the one they then match.
pub proof fn lemma_presets_are_recognised(preset: Preset, show_fps: bool)
    requires
        preset != Preset::Custom,
    ensures
        spec_matching_preset(VideoSettings { show_fps, ..preset_settings(preset) }) == preset,
{
}

/// The pixel count the world is drawn at along one side of `size` pixels:
/// the fraction rounded to the nearest pixel, halves away from zero.
pub open spec fn scaled_side(size: u32, fraction: (u32, u32)) -> int {
    (2 * size * fraction.0 + fraction.1) / (2 * fraction.1 as int)
}

/// The size, in pixels, the world is drawn at for a canvas of `window`
/// physical pixels: never less than one pixel a side.
pub fn scaled_size(window: (u32, u32), scale: RenderScale) -> (size: (u32, u32))
    ensures
        size.0 == if scaled_side(window.0, scale.fraction_spec()) < 1 {
            1
        } else {
            scaled_side(window.0, scale.fraction_spec())
        },
        size.1 == if scaled_side(window.1, scale.fraction_spec()) < 1 {
            1
        } else {
            scaled_side(window.1, scale.fraction_spec())
        },
{
    let (numerator, denominator) = scale.fraction();
    (scale_side(window.0, numerator, denominator), scale_side(window.1, numerator, denominator))
}

/// The size the off-screen picture of the world is kept at: the scaled size
/// of the canvas, or a single pixel at full resolution, where the world is
/// drawn straight into the canvas and the picture goes unused.
pub fn scene_image_size(window: (u32, u32), scale: RenderScale) -> (size: (u32, u32))
    ensures
        scale == RenderScale::Full ==> size == (1u32, 1u32),
        scale != RenderScale::Full ==> size.0 == if scaled_side(window.0, scale.fraction_spec()) < 1 {
            1
        } else {
            scaled_side(window.0, scale.fraction_spec())
        },
        scale != RenderScale::Full ==> size.1 == if scaled_side(window.1, scale.fraction_spec()) < 1 {
            1
        } else {
            scaled_side(window.1, scale.fraction_spec())
        },
{
    match scale {
        RenderScale::Full => (1, 1),
        _ => scaled_size(window, scale),
    }
}

impl RenderScale {
    pub open spec fn fraction_spec(self) -> (u32, u32) {
        match self {
            RenderScale::Half => (1u32, 2u32),
            RenderScale::TwoThirds => (2u32, 3u32),
            RenderScale::ThreeQuarters => (3u32, 4u32),
            RenderScale::Full => (1u32, 1u32),
        }
    }
}

fn scale_side(size: u32, numerator: u32, denominator: u32) -> (side: u32)
    requires
        1 <= numerator <= denominator <= 4,
    ensures
        side == if scaled_side(size, (numerator, denominator)) < 1 {
            1
        } else {
            scaled_side(size, (numerator, denominator))
        },
{
    let doubled = 2 * size as u64;
    assert(doubled * numerator <= 0x8_0000_0000) by (nonlinear_arith)
        requires
            doubled <= 0x2_0000_0000,
            numerator <= 4,
    ;
    let wide = (doubled * numerator as u64 + denominator as u64) / (2 * denominator as u64);
    assert(wide <= size) by (nonlinear_arith)
        requires
            wide == (2 * size * numerator + denominator) / (2 * denominator),
            1 <= numerator <= denominator,
    ;
    if wide < 1 {
        1
    } else {
        wide as u32
    }
}

} // verus!

verus! {

/// Unicode's White_Space characters, which `str::split_whitespace` splits on.
pub open spec fn is_space(c: char) -> bool {
    let u = c as u32;
    (0x9 <= u <= 0xd) || u == 0x20 || u == 0x85 || u == 0xa0 || u == 0x1680 || (0x2000 <= u
        <= 0x200a) || u == 0x2028 || u == 0x2029 || u == 0x202f || u == 0x205f || u == 0x3000
}

/// Whether `c` is Unicode white space.
pub fn is_whitespace(c: char) -> (space: bool)
    ensures
        space == is_space(c),
{
    let u = c as u32;
    (0x9 <= u && u <= 0xd) || u == 0x20 || u == 0x85 || u == 0xa0 || u == 0x1680 || (0x2000 <= u
        && u <= 0x200a) || u == 0x2028 || u == 0x2029 || u == 0x202f || u == 0x205f || u == 0x3000
}

/// The words of `s` that white space has closed, and the word still open at
/// its end.
pub open spec fn split_runs(s: Seq<char>) -> (Seq<Seq<char>>, Seq<char>)
    decreases s.len(),
{
    if s.len() == 0 {
        (seq![], seq![])
    } else {
        let before = split_runs(s.drop_last());
        let c = s.last();
        if is_space(c) {
            if before.1.len() > 0 {
                (before.0.push(before.1), seq![])
            } else {
                (before.0, seq![])
            }
        } else {
            (before.0, before.1.push(c))
        }
    }
}

/// The maximal runs of non-space characters of `s`, in order.
pub open spec fn words(s: Seq<char>) -> Seq<Seq<char>> {
    let runs = split_runs(s);
    if runs.1.len() > 0 {
        runs.0.push(runs.1)
    } else {
        runs.0
    }
}

/// The position of the first `=` in `w` at or after `i`.
pub open spec fn first_equals(w: Seq<char>, i: int) -> Option<int>
    decreases w.len() - i,
{
    if i >= w.len() || i < 0 {
        None
    } else if w[i] == '=' {
        Some(i)
    } else {
        first_equals(w, i + 1)
    }
}

pub open spec fn parse_render_scale(v: Seq<char>) -> Option<RenderScale> {
    if v == RenderScale::Half.label_chars() {
        Some(RenderScale::Half)
    } else if v == RenderScale::TwoThirds.label_chars() {
        Some(RenderScale::TwoThirds)
    } else if v == RenderScale::ThreeQuarters.label_chars() {
        Some(RenderScale::ThreeQuarters)
    } else if v == RenderScale::Full.label_chars() {
        Some(RenderScale::Full)
    } else {
        None
    }
}

pub open spec fn parse_switch(v: Seq<char>) -> Option<bool> {
    if v == switch_label_chars(false) {
        Some(false)
    } else if v == switch_label_chars(true) {
        Some(true)
    } else {
        None
    }
}

pub open spec fn parse_shadows(v: Seq<char>) -> Option<Shadows> {
    if v == Shadows::Off.label_chars() {
        Some(Shadows::Off)
    } else if v == Shadows::Low.label_chars() {
        Some(Shadows::Low)
    } else if v == Shadows::High.label_chars() {
        Some(Shadows::High)
    } else {
        None
    }
}

pub open spec fn parse_effects(v: Seq<char>) -> Option<Effects> {
    if v == Effects::Low.label_chars() {
        Some(Effects::Low)
    } else if v == Effects::Medium.label_chars() {
        Some(Effects::Medium)
    } else if v == Effects::High.label_chars() {
        Some(Effects::High)
    } else {
        None
    }
}

pub open spec fn parse_forest(v: Seq<char>) -> Option<ForestDensity> {
    if v == ForestDensity::Sparse.label_chars() {
        Some(ForestDensity::Sparse)
    } else if v == ForestDensity::Full.label_chars() {
        Some(ForestDensity::Full)
    } else {
        None
    }
}

pub open spec fn key_scale() -> Seq<char> {
    seq!['s', 'c', 'a', 'l', 'e']
}

pub open spec fn key_aa() -> Seq<char> {
    seq!['a', 'a']
}

pub open spec fn key_shadows() -> Seq<char> {
    seq!['s', 'h', 'a', 'd', 'o', 'w', 's']
}

pub open spec fn key_effects() -> Seq<char> {
    seq!['e', 'f', 'f', 'e', 'c', 't', 's']
}

pub open spec fn key_forest() -> Seq<char> {
    seq!['f', 'o', 'r', 'e', 's', 't']
}

pub open spec fn key_fps() -> Seq<char> {
    seq!['f', 'p', 's']
}

/// `settings` with one `key=value` word applied: a known key with a known
/// value sets that setting; anything else changes nothing.
pub open spec fn apply_word(settings: VideoSettings, w: Seq<char>) -> VideoSettings {
    match first_equals(w, 0) {
        None => settings,
        Some(p) => {
            let key = w.take(p);
            let value = w.skip(p + 1);
            if key == key_scale() {
                VideoSettings {
                    render_scale: match parse_render_scale(value) {
                        Some(v) => v,
                        None => settings.render_scale,
                    },
                    ..settings
                }
            } else if key == key_aa() {
                VideoSettings {
                    anti_aliasing: match parse_switch(value) {
                        Some(v) => v,
                        None => settings.anti_aliasing,
                    },
                    ..settings
                }
            } else if key == key_shadows() {
                VideoSettings {
                    shadows: match parse_shadows(value) {
                        Some(v) => v,
                        None => settings.shadows,
                    },
                    ..settings
                }
            } else if key == key_effects() {
                VideoSettings {
                    effects: match parse_effects(value) {
                        Some(v) => v,
                        None => settings.effects,
                    },
                    ..settings
                }
            } else if key == key_forest() {
                VideoSettings {
                    forest: match parse_forest(value) {
                        Some(v) => v,
                        None => settings.forest,
                    },
                    ..settings
                }
            } else if key == key_fps() {
                VideoSettings {
                    show_fps: match parse_switch(value) {
                        Some(v) => v,
                        None => settings.show_fps,
                    },
                    ..settings
                }
            } else {
                settings
            }
        },
    }
}

/// `settings` with each of `ws` applied in turn.
pub open spec fn apply_words(settings: VideoSettings, ws: Seq<Seq<char>>) -> VideoSettings
    decreases ws.len(),
{
    if ws.len() == 0 {
        settings
    } else {
        apply_word(apply_words(settings, ws.drop_last()), ws.last())
    }
}

/// What `decode` reads from `text`: the defaults, with every recognised
/// `key=value` word applied in order.
pub open spec fn decoded(text: Seq<char>) -> VideoSettings {
    apply_words(preset_settings(Preset::High), words(text))
}

/// The word `encode` writes for one setting.
pub open spec fn pair(key: Seq<char>, value: Seq<char>) -> Seq<char> {
    key + seq!['='] + value
}

/// What `encode` writes: six `key=value` words separated by single spaces.
pub open spec fn encoded(s: VideoSettings) -> Seq<char> {
    pair(key_scale(), s.render_scale.label_chars()) + seq![' '] + pair(
        key_aa(),
        switch_label_chars(s.anti_aliasing),
    ) + seq![' '] + pair(key_shadows(), s.shadows.label_chars()) + seq![' '] + pair(
        key_effects(),
        s.effects.label_chars(),
    ) + seq![' '] + pair(key_forest(), s.forest.label_chars()) + seq![' '] + pair(
        key_fps(),
        switch_label_chars(s.show_fps),
    )
}

/// `chars[from..to]` spells out `text`.
fn chars_match(chars: &Vec<char>, from: usize, to: usize, text: &str) -> (same: bool)
    requires
        from <= to <= chars.len(),
    ensures
        same == (chars@.subrange(from as int, to as int) == text@),
{
    let length = text.unicode_len();
    if length != to - from {
        return false;
    }
    let mut i: usize = 0;
    while i < length
        invariant
            from <= to <= chars.len(),
            length == text@.len(),
            length == to - from,
            i <= length,
            forall|j: int| 0 <= j < i ==> chars@[from + j] == text@[j],
        decreases length - i,
    {
        if chars[from + i] != text.get_char(i) {
            assert(chars@.subrange(from as int, to as int)[i as int] != text@[i as int]);
            return false;
        }
        i += 1;
    }
    assert(chars@.subrange(from as int, to as int) =~= text@);
    true
}

fn parse_render_scale_at(chars: &Vec<char>, from: usize, to: usize) -> (value: Option<RenderScale>)
    requires
        from <= to <= chars.len(),
    ensures
        value == parse_render_scale(chars@.subrange(from as int, to as int)),
{
    if chars_match(chars, from, to, RenderScale::Half.label()) {
        Some(RenderScale::Half)
    } else if chars_match(chars, from, to, RenderScale::TwoThirds.label()) {
        Some(RenderScale::TwoThirds)
    } else if chars_match(chars, from, to, RenderScale::ThreeQuarters.label()) {
        Some(RenderScale::ThreeQuarters)
    } else if chars_match(chars, from, to, RenderScale::Full.label()) {
        Some(RenderScale::Full)
    } else {
        None
    }
}

fn parse_switch_at(chars: &Vec<char>, from: usize, to: usize) -> (value: Option<bool>)
    requires
        from <= to <= chars.len(),
    ensures
        value == parse_switch(chars@.subrange(from as int, to as int)),
{
    if chars_match(chars, from, to, switch_label(false)) {
        Some(false)
    } else if chars_match(chars, from, to, switch_label(true)) {
        Some(true)
    } else {
        None
    }
}

fn parse_shadows_at(chars: &Vec<char>, from: usize, to: usize) -> (value: Option<Shadows>)
    requires
        from <= to <= chars.len(),
    ensures
        value == parse_shadows(chars@.subrange(from as int, to as int)),
{
    if chars_match(chars, from, to, Shadows::Off.label()) {
        Some(Shadows::Off)
    } else if chars_match(chars, from, to, Shadows::Low.label()) {
        Some(Shadows::Low)
    } else if chars_match(chars, from, to, Shadows::High.label()) {
        Some(Shadows::High)
    } else {
        None
    }
}

fn parse_effects_at(chars: &Vec<char>, from: usize, to: usize) -> (value: Option<Effects>)
    requires
        from <= to <= chars.len(),
    ensures
        value == parse_effects(chars@.subrange(from as int, to as int)),
{
    if chars_match(chars, from, to, Effects::Low.label()) {
        Some(Effects::Low)
    } else if chars_match(chars, from, to, Effects::Medium.label()) {
        Some(Effects::Medium)
    } else if chars_match(chars, from, to, Effects::High.label()) {
        Some(Effects::High)
    } else {
        None
    }
}

fn parse_forest_at(chars: &Vec<char>, from: usize, to: usize) -> (value: Option<ForestDensity>)
    requires
        from <= to <= chars.len(),
    ensures
        value == parse_forest(chars@.subrange(from as int, to as int)),
{
    if chars_match(chars, from, to, ForestDensity::Sparse.label()) {
        Some(ForestDensity::Sparse)
    } else if chars_match(chars, from, to, ForestDensity::Full.label()) {
        Some(ForestDensity::Full)
    } else {
        None
    }
}

/// Append `prefix` and then `value` to `text`.
fn append_pair(text: &mut String, prefix: &str, value: &str)
    ensures
        final(text)@ == old(text)@ + (prefix@ + value@),
{
    text.append(prefix);
    text.append(value);
    assert(old(text)@ + prefix@ + value@ =~= old(text)@ + (prefix@ + value@));
}

/// Apply one `key=value` word to `settings`.
fn apply_pair(settings: VideoSettings, word: &Vec<char>) -> (applied: VideoSettings)
    ensures
        applied == apply_word(settings, word@),
{
    let mut p: usize = 0;
    while p < word.len() && word[p] != '='
        invariant
            p <= word.len(),
            first_equals(word@, 0) == first_equals(word@, p as int),
        decreases word.len() - p,
    {
        p += 1;
    }
    if p == word.len() {
        return settings;
    }
    assert(first_equals(word@, 0) == Some(p as int));
    let n = word.len();
    let ghost key = word@.take(p as int);
    let ghost value = word@.skip(p + 1);
    assert(word@.subrange(0, p as int) =~= key);
    assert(word@.subrange(p + 1, n as int) =~= value);
    let mut result = settings;
    proof {
        reveal_strlit("scale");
        reveal_strlit("aa");
        reveal_strlit("shadows");
        reveal_strlit("effects");
        reveal_strlit("forest");
        reveal_strlit("fps");
        assert("scale"@ =~= key_scale());
        assert("aa"@ =~= key_aa());
        assert("shadows"@ =~= key_shadows());
        assert("effects"@ =~= key_effects());
        assert("forest"@ =~= key_forest());
        assert("fps"@ =~= key_fps());
    }
    if chars_match(word, 0, p, "scale") {
        if let Some(v) = parse_render_scale_at(word, p + 1, n) {
            result.render_scale = v;
        }
    } else if chars_match(word, 0, p, "aa") {
        if let Some(v) = parse_switch_at(word, p + 1, n) {
            result.anti_aliasing = v;
        }
    } else if chars_match(word, 0, p, "shadows") {
        if let Some(v) = parse_shadows_at(word, p + 1, n) {
            result.shadows = v;
        }
    } else if chars_match(word, 0, p, "effects") {
        if let Some(v) = parse_effects_at(word, p + 1, n) {
            result.effects = v;
        }
    } else if chars_match(word, 0, p, "forest") {
        if let Some(v) = parse_forest_at(word, p + 1, n) {
            result.forest = v;
        }
    } else if chars_match(word, 0, p, "fps") {
        if let Some(v) = parse_switch_at(word, p + 1, n) {
            result.show_fps = v;
        }
    }
    result
}

impl VideoSettings {
    /// A compact, human-readable form for saving between visits.
    #[verifier::rlimit(60)]
    pub fn encode(&self) -> (text: String)
        ensures
            text@ == encoded(*self),
    {
        let mut text = String::new();
        append_pair(&mut text, "scale=", self.render_scale.label());
        append_pair(&mut text, " aa=", switch_label(self.anti_aliasing));
        append_pair(&mut text, " shadows=", self.shadows.label());
        append_pair(&mut text, " effects=", self.effects.label());
        append_pair(&mut text, " forest=", self.forest.label());
        append_pair(&mut text, " fps=", switch_label(self.show_fps));
        proof {
            reveal_strlit("scale=");
            reveal_strlit(" aa=");
            reveal_strlit(" shadows=");
            reveal_strlit(" effects=");
            reveal_strlit(" forest=");
            reveal_strlit(" fps=");
            let s = *self;
            let a = pair(key_scale(), s.render_scale.label_chars());
            let b = pair(key_aa(), switch_label_chars(s.anti_aliasing));
            let c = pair(key_shadows(), s.shadows.label_chars());
            let d = pair(key_effects(), s.effects.label_chars());
            let e = pair(key_forest(), s.forest.label_chars());
            let f = pair(key_fps(), switch_label_chars(s.show_fps));
            assert("scale="@ + s.render_scale.label_chars() =~= a);
            assert(" aa="@ + switch_label_chars(s.anti_aliasing) =~= seq![' '] + b);
            assert(" shadows="@ + s.shadows.label_chars() =~= seq![' '] + c);
            assert(" effects="@ + s.effects.label_chars() =~= seq![' '] + d);
            assert(" forest="@ + s.forest.label_chars() =~= seq![' '] + e);
            assert(" fps="@ + switch_label_chars(s.show_fps) =~= seq![' '] + f);
            assert(text@ =~= encoded(s));
        }
        text
    }

    /// Read what `encode` wrote. Anything unknown or missing keeps its
    /// default, so settings from an older build still load.
    pub fn decode(text: &str) -> (settings: Self)
        ensures
            settings == decoded(text@),
    {
        let length = text.unicode_len();
        let mut settings = Self::default();
        let mut word: Vec<char> = Vec::new();
        let mut i: usize = 0;
        while i < length
            invariant
                length == text@.len(),
                i <= length,
                word@ == split_runs(text@.take(i as int)).1,
                settings == apply_words(preset_settings(Preset::High), split_runs(text@.take(i as int)).0),
            decreases length - i,
        {
            let c = text.get_char(i);
            assert(text@.take(i + 1).drop_last() =~= text@.take(i as int));
            assert(text@.take(i + 1).last() == c);
            if is_whitespace(c) {
                if word.len() > 0 {
                    let ghost closed = split_runs(text@.take(i as int)).0;
                    settings = apply_pair(settings, &word);
                    assert(closed.push(word@).drop_last() =~= closed);
                    word = Vec::new();
                    assert(word@ =~= Seq::<char>::empty());
                } else {
                    assert(word@ =~= Seq::<char>::empty());
                }
            } else {
                word.push(c);
            }
            i += 1;
        }
        assert(text@.take(length as int) =~= text@);
        if word.len() > 0 {
            let ghost closed = split_runs(text@).0;
            settings = apply_pair(settings, &word);
            assert(closed.push(word@).drop_last() =~= closed);
        }
        settings
    }
}

} // verus!

verus! {

/// No character of `w` is white space.
pub open spec fn no_space(w: Seq<char>) -> bool {
    forall|i: int| 0 <= i < w.len() ==> !is_space(#[trigger] w[i])
}

/// No character of `w` is `=`.
pub open spec fn no_equals(w: Seq<char>) -> bool {
    forall|i: int| 0 <= i < w.len() ==> #[trigger] w[i] != '='
}

proof fn lemma_runs_extend(prefix: Seq<char>, w: Seq<char>)
    requires
        no_space(w),
    ensures
        split_runs(prefix + w) == (split_runs(prefix).0, split_runs(prefix).1 + w),
    decreases w.len(),
{
    if w.len() == 0 {
        assert(prefix + w =~= prefix);
        assert(split_runs(prefix).1 + w =~= split_runs(prefix).1);
    } else {
        let front = w.drop_last();
        lemma_runs_extend(prefix, front);
        assert((prefix + w).drop_last() =~= prefix + front);
        assert((prefix + w).last() == w.last());
        assert(!is_space(w[w.len() - 1]));
        assert((split_runs(prefix).1 + front).push(w.last()) =~= split_runs(prefix).1 + w);
    }
}

proof fn lemma_first_equals_pair(k: Seq<char>, v: Seq<char>, i: int)
    requires
        no_equals(k),
        0 <= i <= k.len(),
    ensures
        first_equals(pair(k, v), i) == Some(k.len() as int),
    decreases k.len() - i,
{
    let w = pair(k, v);
    assert(w[k.len() as int] == '=');
    if i < k.len() {
        assert(w[i] == k[i]);
        lemma_first_equals_pair(k, v, i + 1);
    }
}

proof fn lemma_pair_parts(k: Seq<char>, v: Seq<char>)
    requires
        no_equals(k),
    ensures
        first_equals(pair(k, v), 0) == Some(k.len() as int),
        pair(k, v).take(k.len() as int) == k,
        pair(k, v).skip(k.len() as int + 1) == v,
{
    lemma_first_equals_pair(k, v, 0);
    assert(pair(k, v).take(k.len() as int) =~= k);
    assert(pair(k, v).skip(k.len() as int + 1) =~= v);
}

proof fn lemma_labels_plain(s: VideoSettings)
    ensures
        no_space(pair(key_scale(), s.render_scale.label_chars())),
        no_space(pair(key_aa(), switch_label_chars(s.anti_aliasing))),
        no_space(pair(key_shadows(), s.shadows.label_chars())),
        no_space(pair(key_effects(), s.effects.label_chars())),
        no_space(pair(key_forest(), s.forest.label_chars())),
        no_space(pair(key_fps(), switch_label_chars(s.show_fps))),
        no_equals(key_scale()),
        no_equals(key_aa()),
        no_equals(key_shadows()),
        no_equals(key_effects()),
        no_equals(key_forest()),
        no_equals(key_fps()),
{
}

/// The words of the saved form are its six `key=value` pairs.
proof fn lemma_encoded_words(s: VideoSettings)
    ensures
        words(encoded(s)) == seq![
            pair(key_scale(), s.render_scale.label_chars()),
            pair(key_aa(), switch_label_chars(s.anti_aliasing)),
            pair(key_shadows(), s.shadows.label_chars()),
            pair(key_effects(), s.effects.label_chars()),
            pair(key_forest(), s.forest.label_chars()),
            pair(key_fps(), switch_label_chars(s.show_fps)),
        ],
{
    lemma_labels_plain(s);
    let a = pair(key_scale(), s.render_scale.label_chars());
    let b = pair(key_aa(), switch_label_chars(s.anti_aliasing));
    let c = pair(key_shadows(), s.shadows.label_chars());
    let d = pair(key_effects(), s.effects.label_chars());
    let e = pair(key_forest(), s.forest.label_chars());
    let f = pair(key_fps(), switch_label_chars(s.show_fps));
    let sp = seq![' '];
    let empty = Seq::<char>::empty();
    assert(is_space(' '));
    lemma_runs_extend(empty, a);
    assert(empty + a =~= a);
    assert(split_runs(a) == (Seq::<Seq<char>>::empty(), Seq::<char>::empty() + a));
    assert(Seq::<char>::empty() + a =~= a);
    let t1 = a + sp;
    assert(t1 =~= a.push(' '));
    assert(t1.drop_last() =~= a);
    assert(split_runs(t1) == (seq![a], Seq::<char>::empty()));
    lemma_runs_extend(t1, b);
    let t2 = t1 + b + sp;
    assert(t2.drop_last() =~= t1 + b);
    assert(Seq::<char>::empty() + b =~= b);
    assert(split_runs(t2) == (seq![a, b], Seq::<char>::empty()));
    lemma_runs_extend(t2, c);
    let t3 = t2 + c + sp;
    assert(t3.drop_last() =~= t2 + c);
    assert(Seq::<char>::empty() + c =~= c);
    assert(seq![a, b].push(c) =~= seq![a, b, c]);
    assert(split_runs(t3) == (seq![a, b, c], Seq::<char>::empty()));
    lemma_runs_extend(t3, d);
    let t4 = t3 + d + sp;
    assert(t4.drop_last() =~= t3 + d);
    assert(Seq::<char>::empty() + d =~= d);
    assert(seq![a, b, c].push(d) =~= seq![a, b, c, d]);
    assert(split_runs(t4) == (seq![a, b, c, d], Seq::<char>::empty()));
    lemma_runs_extend(t4, e);
    let t5 = t4 + e + sp;
    assert(t5.drop_last() =~= t4 + e);
    assert(Seq::<char>::empty() + e =~= e);
    assert(seq![a, b, c, d].push(e) =~= seq![a, b, c, d, e]);
    assert(split_runs(t5) == (seq![a, b, c, d, e], Seq::<char>::empty()));
    lemma_runs_extend(t5, f);
    assert(Seq::<char>::empty() + f =~= f);
    assert(encoded(s) == t5 + f);
    assert(f.len() > 0);
    assert(seq![a, b, c, d, e].push(f) =~= seq![a, b, c, d, e, f]);
}

/// What `encode` writes, `decode` reads back unchanged.
pub proof fn lemma_settings_round_trip(s: VideoSettings)
    ensures
        decoded(encoded(s)) == s,
{
    lemma_encoded_words(s);
    lemma_labels_plain(s);
    let a = pair(key_scale(), s.render_scale.label_chars());
    let b = pair(key_aa(), switch_label_chars(s.anti_aliasing));
    let c = pair(key_shadows(), s.shadows.label_chars());
    let d = pair(key_effects(), s.effects.label_chars());
    let e = pair(key_forest(), s.forest.label_chars());
    let f = pair(key_fps(), switch_label_chars(s.show_fps));
    lemma_pair_parts(key_scale(), s.render_scale.label_chars());
    lemma_pair_parts(key_aa(), switch_label_chars(s.anti_aliasing));
    lemma_pair_parts(key_shadows(), s.shadows.label_chars());
    lemma_pair_parts(key_effects(), s.effects.label_chars());
    lemma_pair_parts(key_forest(), s.forest.label_chars());
    lemma_pair_parts(key_fps(), switch_label_chars(s.show_fps));
    let ws = seq![a, b, c, d, e, f];
    assert(ws.drop_last() =~= seq![a, b, c, d, e]);
    assert(seq![a, b, c, d, e].drop_last() =~= seq![a, b, c, d]);
    assert(seq![a, b, c, d].drop_last() =~= seq![a, b, c]);
    assert(seq![a, b, c].drop_last() =~= seq![a, b]);
    assert(seq![a, b].drop_last() =~= seq![a]);
    assert(seq![a].drop_last() =~= Seq::<Seq<char>>::empty());
    assert(parse_render_scale(s.render_scale.label_chars()) == Some(s.render_scale));
    assert(parse_switch(switch_label_chars(s.anti_aliasing)) == Some(s.anti_aliasing));
    assert(parse_shadows(s.shadows.label_chars()) == Some(s.shadows));
    assert(parse_effects(s.effects.label_chars()) == Some(s.effects));
    assert(parse_forest(s.forest.label_chars()) == Some(s.forest));
    assert(parse_switch(switch_label_chars(s.show_fps)) == Some(s.show_fps));
    assert(key_aa() != key_scale());
    assert(key_shadows() != key_scale() && key_shadows() != key_aa());
    assert(key_effects() != key_scale() && key_effects() != key_aa() && key_effects()[0] != key_shadows()[0]);
    assert(key_forest() != key_scale() && key_forest() != key_aa() && key_forest() != key_shadows() && key_forest() != key_effects());
    assert(key_fps() != key_scale() && key_fps() != key_aa() && key_fps() != key_shadows() && key_fps() != key_effects() && key_fps() != key_forest());
    let st0 = preset_settings(Preset::High);
    let st1 = apply_word(st0, a);
    assert(st1 == VideoSettings { render_scale: s.render_scale, ..st0 });
    let st2 = apply_word(st1, b);
    assert(st2 == VideoSettings { anti_aliasing: s.anti_aliasing, ..st1 });
    let st3 = apply_word(st2, c);
    assert(st3 == VideoSettings { shadows: s.shadows, ..st2 });
    let st4 = apply_word(st3, d);
    assert(st4 == VideoSettings { effects: s.effects, ..st3 });
    let st5 = apply_word(st4, e);
    assert(st5 == VideoSettings { forest: s.forest, ..st4 });
    let st6 = apply_word(st5, f);
    assert(st6 == VideoSettings { show_fps: s.show_fps, ..st5 });
    assert(apply_words(st0, Seq::<Seq<char>>::empty()) == st0);
    assert(apply_words(st0, seq![a]) == st1);
    assert(apply_words(st0, seq![a, b]) == st2);
    assert(apply_words(st0, seq![a, b, c]) == st3);
    assert(apply_words(st0, seq![a, b, c, d]) == st4);
    assert(apply_words(st0, seq![a, b, c, d, e]) == st5);
    assert(apply_words(st0, ws) == st6);
}

} // verus!

verus! {

/// One line of the settings screen.
#[derive(Clone, Copy, Debug, PartialEq, Eq, Structural)]
pub enum SettingRow {
    Preset,
    RenderScale,
    AntiAliasing,
    Shadows,
    Effects,
    Forest,
    ShowFps,
}

/// The preset the quality row steps to from `current`: from a hand-made mix,
/// forwards starts at the lowest and backwards at the highest.
pub open spec fn next_preset(current: Preset, step: int) -> Preset {
    if current == Preset::Custom {
        if step > 0 {
            Preset::Low
        } else {
            Preset::High
        }
    } else {
        Preset::at(wrapped(current.position(), step, 3))
    }
}

impl SettingRow {
    /// The row's name on the settings screen.
    pub open spec fn title_chars(self) -> Seq<char> {
        match self {
            SettingRow::Preset => seq!['Q', 'U', 'A', 'L', 'I', 'T', 'Y'],
            SettingRow::RenderScale => seq!['R', 'E', 'S', 'O', 'L', 'U', 'T', 'I', 'O', 'N'],
            SettingRow::AntiAliasing => seq!['A', 'N', 'T', 'I', '-', 'A', 'L', 'I', 'A', 'S', 'I', 'N', 'G'],
            SettingRow::Shadows => seq!['S', 'H', 'A', 'D', 'O', 'W', 'S'],
            SettingRow::Effects => seq!['E', 'F', 'F', 'E', 'C', 'T', 'S'],
            SettingRow::Forest => seq!['F', 'O', 'R', 'E', 'S', 'T'],
            SettingRow::ShowFps => seq!['S', 'H', 'O', 'W', ' ', 'F', 'P', 'S'],
        }
    }

    /// The row's name on the settings screen.
    pub fn title(self) -> (title: &'static str)
        ensures
            title@ == self.title_chars(),
    {
        match self {
            SettingRow::Preset => {
                proof {
                    reveal_strlit("QUALITY");
                }
                "QUALITY"
            },
            SettingRow::RenderScale => {
                proof {
                    reveal_strlit("RESOLUTION");
                }
                "RESOLUTION"
            },
            SettingRow::AntiAliasing => {
                proof {
                    reveal_strlit("ANTI-ALIASING");
                }
                "ANTI-ALIASING"
            },
            SettingRow::Shadows => {
                proof {
                    reveal_strlit("SHADOWS");
                }
                "SHADOWS"
            },
            SettingRow::Effects => {
                proof {
                    reveal_strlit("EFFECTS");
                }
                "EFFECTS"
            },
            SettingRow::Forest => {
                proof {
                    reveal_strlit("FOREST");
                }
                "FOREST"
            },
            SettingRow::ShowFps => {
                proof {
                    reveal_strlit("SHOW FPS");
                }
                "SHOW FPS"
            },
        }
    }

    /// The row's current value as the screen shows it.
    pub fn value(self, settings: &VideoSettings) -> (value: &'static str)
        ensures
            value@ == match self {
                SettingRow::Preset => spec_matching_preset(*settings).label_chars(),
                SettingRow::RenderScale => settings.render_scale.label_chars(),
                SettingRow::AntiAliasing => switch_label_chars(settings.anti_aliasing),
                SettingRow::Shadows => settings.shadows.label_chars(),
                SettingRow::Effects => settings.effects.label_chars(),
                SettingRow::Forest => settings.forest.label_chars(),
                SettingRow::ShowFps => switch_label_chars(settings.show_fps),
            },
    {
        match self {
            SettingRow::Preset => settings.matching_preset().label(),
            SettingRow::RenderScale => settings.render_scale.label(),
            SettingRow::AntiAliasing => switch_label(settings.anti_aliasing),
            SettingRow::Shadows => settings.shadows.label(),
            SettingRow::Effects => settings.effects.label(),
            SettingRow::Forest => settings.forest.label(),
            SettingRow::ShowFps => switch_label(settings.show_fps),
        }
    }

    /// Step this row's value by `step`.
    pub fn cycle(self, settings: &mut VideoSettings, step: i32)
        ensures
            *final(settings) == match self {
                SettingRow::Preset => VideoSettings {
                    show_fps: old(settings).show_fps,
                    ..preset_settings(next_preset(spec_matching_preset(*old(settings)), step as int))
                },
                SettingRow::RenderScale => VideoSettings {
                    render_scale: RenderScale::at(wrapped(old(settings).render_scale.position(), step as int, 4)),
                    ..*old(settings)
                },
                SettingRow::AntiAliasing => VideoSettings {
                    anti_aliasing: wrapped(switch_position(old(settings).anti_aliasing), step as int, 2) == 1,
                    ..*old(settings)
                },
                SettingRow::Shadows => VideoSettings {
                    shadows: Shadows::at(wrapped(old(settings).shadows.position(), step as int, 3)),
                    ..*old(settings)
                },
                SettingRow::Effects => VideoSettings {
                    effects: Effects::at(wrapped(old(settings).effects.position(), step as int, 3)),
                    ..*old(settings)
                },
                SettingRow::Forest => VideoSettings {
                    forest: ForestDensity::at(wrapped(old(settings).forest.position(), step as int, 2)),
                    ..*old(settings)
                },
                SettingRow::ShowFps => VideoSettings {
                    show_fps: wrapped(switch_position(old(settings).show_fps), step as int, 2) == 1,
                    ..*old(settings)
                },
            },
    {
        match self {
            SettingRow::Preset => {
                let preset = match settings.matching_preset() {
                    Preset::Custom => if step > 0 {
                        Preset::Low
                    } else {
                        Preset::High
                    },
                    preset => preset.cycled(step),
                };
                settings.apply_preset(preset);
            },
            SettingRow::RenderScale => settings.render_scale = settings.render_scale.cycled(step),
            SettingRow::AntiAliasing => settings.anti_aliasing = switch_cycled(settings.anti_aliasing, step),
            SettingRow::Shadows => settings.shadows = settings.shadows.cycled(step),
            SettingRow::Effects => settings.effects = settings.effects.cycled(step),
            SettingRow::Forest => settings.forest = settings.forest.cycled(step),
            SettingRow::ShowFps => settings.show_fps = switch_cycled(settings.show_fps, step),
        }
    }
}

/// Below this many frames a second, held for ten seconds, the game suggests
/// a lower preset.
pub const LOW_FPS: u32 = 45;

/// How long, in microseconds, the frame rate has to stay low.
pub const LOW_FPS_MICROS: u64 = 10_000_000;

/// How long, in microseconds, the suggestion stays on screen.
pub const HINT_MICROS: u64 = 8_000_000;

/// How long, in microseconds, after loading the frame rate is not watched.
pub const WARM_UP_MICROS: u64 = 5_000_000;

/// Tracks how long the frame rate has stayed low. The suggestion is made at
/// most once per visit, and nothing is ever changed on its own.
#[derive(Clone, Copy, Debug, PartialEq, Eq, Structural)]
pub struct LowFpsWatch {
    /// Microseconds the frame rate has stayed low.
    pub low_for: u64,
    /// Microseconds the note has left on screen; `None` until it has shown.
    pub showing: Option<u64>,
}

/// What the note on screen should do this frame.
#[derive(Clone, Copy, Debug, PartialEq, Eq, Structural)]
pub enum HintChange {
    Show,
    Hide,
    Keep,
}

impl Default for LowFpsWatch {
    fn default() -> (watch: Self)
        ensures
            watch.low_for == 0,
            watch.showing.is_none(),
    {
        LowFpsWatch { low_for: 0, showing: None }
    }
}

/// The watch after one frame at `frames_per_second` lasting `dt`
/// microseconds, and whether the note appears on it. Nothing is counted
/// once the note has shown, or at the lowest preset, which has nothing lower
/// to suggest; otherwise a low frame adds its length, a good one starts the
/// count again, and the note appears once the count reaches ten seconds.
pub open spec fn watched(watch: LowFpsWatch, frames_per_second: u32, dt: u64, preset: Preset) -> (bool, LowFpsWatch) {
    if watch.showing.is_some() || preset == Preset::Low {
        (false, watch)
    } else {
        let low_for: u64 = if frames_per_second < LOW_FPS {
            if watch.low_for + dt > u64::MAX {
                u64::MAX
            } else {
                (watch.low_for + dt) as u64
            }
        } else {
            0
        };
        if low_for >= LOW_FPS_MICROS {
            (true, LowFpsWatch { low_for, showing: Some(HINT_MICROS) })
        } else {
            (false, LowFpsWatch { low_for, showing: None })
        }
    }
}

impl LowFpsWatch {
    /// Feed one frame's smoothed rate, in whole frames a second, and its
    /// length in microseconds. True on the frame the note should appear.
    pub fn observe(&mut self, frames_per_second: u32, dt: u64, preset: Preset) -> (show: bool)
        ensures
            (show, *final(self)) == watched(*old(self), frames_per_second, dt, preset),
            preset != Preset::Low && old(self).showing is None && frames_per_second < 45
                && old(self).low_for + dt >= 10_000_000 ==> show && final(self).showing == Some(8_000_000u64),
            preset == Preset::Low || old(self).showing is Some ==> !show && *final(self) == *old(self),
            frames_per_second >= 45 ==> !show,
    {
        if self.showing.is_some() || preset == Preset::Low {
            return false;
        }
        if frames_per_second < LOW_FPS {
            self.low_for = self.low_for.saturating_add(dt);
        } else {
            self.low_for = 0;
        }
        if self.low_for >= LOW_FPS_MICROS {
            self.showing = Some(HINT_MICROS);
            return true;
        }
        false
    }

    /// One frame of the watch, `dt` microseconds long and `elapsed` after
    /// loading: count down a note on screen and hide it when its time is up;
    /// otherwise ignore the first seconds after loading and frames whose rate
    /// is unknown, and watch the rate of the rest.
    pub fn advance(&mut self, dt: u64, elapsed: u64, frames_per_second: Option<u32>, preset: Preset) -> (change: HintChange)
        ensures
            match old(self).showing {
                Some(left) if left > 0 => {
                    &&& *final(self) == (LowFpsWatch {
                        low_for: old(self).low_for,
                        showing: Some(if left > dt { (left - dt) as u64 } else { 0u64 }),
                    })
                    &&& change == if left > dt { HintChange::Keep } else { HintChange::Hide }
                },
                _ => match frames_per_second {
                    Some(rate) if elapsed >= WARM_UP_MICROS => {
                        let (show, next) = watched(*old(self), rate, dt, preset);
                        &&& *final(self) == next
                        &&& change == if show { HintChange::Show } else { HintChange::Keep }
                    },
                    _ => change == HintChange::Keep && *final(self) == *old(self),
                },
            },
    {
        if let Some(left) = self.showing {
            if left > 0 {
                let remaining = left.saturating_sub(dt);
                self.showing = Some(remaining);
                return if remaining == 0 {
                    HintChange::Hide
                } else {
                    HintChange::Keep
                };
            }
        }
        if elapsed < WARM_UP_MICROS {
            return HintChange::Keep;
        }
        match frames_per_second {
            Some(rate) => if self.observe(rate, dt, preset) {
                HintChange::Show
            } else {
                HintChange::Keep
            },
            None => HintChange::Keep,
        }
    }
}

/// Below 45 frames a second, the note is suggested at any preset but the
/// lowest: Medium, High and a hand-made mix alike. Ten seconds of low frames
/// in a row bring it up, with eight seconds on screen; a good frame starts
/// the count again, and at the lowest preset there is nothing to suggest.
pub proof fn lemma_ten_low_seconds_suggest_a_lower_preset(watch: LowFpsWatch, frames_per_second: u32, dt: u64, preset: Preset)
    requires
        watch.showing is None,
    ensures
        preset != Preset::Low && frames_per_second < 45 && watch.low_for + dt >= 10_000_000 ==> {
            &&& watched(watch, frames_per_second, dt, preset).0
            &&& watched(watch, frames_per_second, dt, preset).1.showing == Some(8_000_000u64)
        },
        preset != Preset::Low && frames_per_second < 45 && watch.low_for + dt < 10_000_000 ==> {
            &&& !watched(watch, frames_per_second, dt, preset).0
            &&& watched(watch, frames_per_second, dt, preset).1.low_for == watch.low_for + dt
        },
        preset != Preset::Low && frames_per_second >= 45 ==> {
            &&& !watched(watch, frames_per_second, dt, preset).0
            &&& watched(watch, frames_per_second, dt, preset).1.low_for == 0
        },
        preset == Preset::Low ==> watched(watch, frames_per_second, dt, preset) == (false, watch),
{
}

/// The note is suggested at most once: after the frame it appears on, the
/// watch reports nothing more however long the frame rate stays low.
pub proof fn lemma_hint_shows_once(watch: LowFpsWatch, frames_per_second: u32, dt: u64, preset: Preset)
    requires
        watched(watch, frames_per_second, dt, preset).0,
    ensures
        forall|rate: u32, more: u64, any: Preset|
            !(#[trigger] watched(watched(watch, frames_per_second, dt, preset).1, rate, more, any)).0,
{
}

/// The quality row steps from a preset to the next one along, and from a
/// hand-made mix forwards to Low and backwards to High.
pub proof fn lemma_quality_row_steps(current: Preset, step: int)
    requires
        step == 1 || step == -1,
    ensures
        current == Preset::Custom && step == 1 ==> next_preset(current, step) == Preset::Low,
        current == Preset::Custom && step == -1 ==> next_preset(current, step) == Preset::High,
        current == Preset::High && step == 1 ==> next_preset(current, step) == Preset::Low,
        current == Preset::Low && step == -1 ==> next_preset(current, step) == Preset::High,
{
    if current == Preset::High && step == 1 {
        vstd::arithmetic::div_mod::lemma_mod_self_0(3);
    }
    if current == Preset::Low && step == -1 {
        vstd::arithmetic::div_mod::lemma_mod_add_multiples_vanish(-1, 3);
    }
}

} // verus!
