//! The names of render and color modes in the configuration file, and the
//! commented-out configuration file written on request.
use vstd::prelude::*;
use crate::canvas::{ColorMode, RenderMode};
use crate::record::push_literal;
use crate::text::string_of;

verus! {

/// A render mode as named in the configuration file.
#[derive(Clone, Copy, Debug, PartialEq, Eq, Structural)]
pub enum RenderModeConfig {
    Braille,
    HalfBlock,
    Ascii,
}

/// A color mode as named in the configuration file.
#[derive(Clone, Copy, Debug, PartialEq, Eq, Structural)]
pub enum ColorModeConfig {
    Mono,
    Ansi16,
    Ansi256,
    TrueColor,
}

/// The render mode a configuration name stands for.
pub open spec fn render_mode_of(c: RenderModeConfig) -> RenderMode {
    match c {
        RenderModeConfig::Braille => RenderMode::Braille,
        RenderModeConfig::HalfBlock => RenderMode::HalfBlock,
        RenderModeConfig::Ascii => RenderMode::Ascii,
    }
}

/// The color mode a configuration name stands for.
pub open spec fn color_mode_of(c: ColorModeConfig) -> ColorMode {
    match c {
        ColorModeConfig::Mono => ColorMode::Mono,
        ColorModeConfig::Ansi16 => ColorMode::Ansi16,
        ColorModeConfig::Ansi256 => ColorMode::Ansi256,
        ColorModeConfig::TrueColor => ColorMode::TrueColor,
    }
}

impl From<RenderModeConfig> for RenderMode {
    fn from(c: RenderModeConfig) -> (m: RenderMode) {
        match c {
            RenderModeConfig::Braille => RenderMode::Braille,
            RenderModeConfig::HalfBlock => RenderMode::HalfBlock,
            RenderModeConfig::Ascii => RenderMode::Ascii,
        }
    }
}

impl vstd::std_specs::convert::FromSpecImpl<RenderModeConfig> for RenderMode {
    open spec fn obeys_from_spec() -> bool {
        true
    }

    open spec fn from_spec(c: RenderModeConfig) -> RenderMode {
        render_mode_of(c)
    }
}

impl From<ColorModeConfig> for ColorMode {
    fn from(c: ColorModeConfig) -> (m: ColorMode) {
        match c {
            ColorModeConfig::Mono => ColorMode::Mono,
            ColorModeConfig::Ansi16 => ColorMode::Ansi16,
            ColorModeConfig::Ansi256 => ColorMode::Ansi256,
            ColorModeConfig::TrueColor => ColorMode::TrueColor,
        }
    }
}

impl vstd::std_specs::convert::FromSpecImpl<ColorModeConfig> for ColorMode {
    open spec fn obeys_from_spec() -> bool {
        true
    }

    open spec fn from_spec(c: ColorModeConfig) -> ColorMode {
        color_mode_of(c)
    }
}

/// The text of the default configuration file: every option, commented out.
pub open spec fn default_config_text() -> Seq<char> {
    "# termflix configuration
# Use --show-config to see the active config file path.
# CLI flags override these settings.

# Default animation (use --list to see all)
# animation = \"fire\"

# Default render mode: braille, half-block, ascii
# render = \"half-block\"

# Default color mode: mono, ansi16, ansi256, true-color
# color = \"true-color\"

# Target FPS (1-120)
# fps = 24

# Particle/element scale factor (0.5-2.0)
# scale = 1.0

# Hide status bar
# clean = false

# Auto-cycle interval in seconds (0 = disabled)
# cycle = 0

# Color quantization step (0 = off, 4/8/16 = coarser colors, less output)
# Useful for slow terminals or tmux
# color_quant = 0
"@
}

/// The default configuration file, with every option commented out.
pub fn default_config_string() -> (s: String)
    ensures
        s@ == default_config_text(),
{
    let mut out: Vec<char> = Vec::new();
    push_literal(
        &mut out,
        "# termflix configuration
# Use --show-config to see the active config file path.
# CLI flags override these settings.

# Default animation (use --list to see all)
# animation = \"fire\"

# Default render mode: braille, half-block, ascii
# render = \"half-block\"

# Default color mode: mono, ansi16, ansi256, true-color
# color = \"true-color\"

# Target FPS (1-120)
# fps = 24

# Particle/element scale factor (0.5-2.0)
# scale = 1.0

# Hide status bar
# clean = false

# Auto-cycle interval in seconds (0 = disabled)
# cycle = 0

# Color quantization step (0 = off, 4/8/16 = coarser colors, less output)
# Useful for slow terminals or tmux
# color_quant = 0
",
    );
    string_of(&out)
}

} // verus!
