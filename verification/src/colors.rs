//! Color setup as a pure decision: from the forced flag and the relevant
//! environment values, decide whether color is on and what the terminal
//! variables should become. The caller applies the decision.
use vstd::prelude::*;

use crate::ids::str_eq;

verus! {

/// What the caller should do about color.
pub enum ColorDecision {
    /// Disable color and mark the environment so.
    Disable,
    /// Force color at the given level.
    Force(String),
    /// Follow the terminal's own support level.
    Auto(u8),
}

/// The environment values color setup reads.
pub struct ColorEnv {
    pub moon_color: Option<String>,
    pub force_color: Option<String>,
    pub clicolor_force: Option<String>,
    pub no_color: bool,
    pub supports_color: u8,
}

/// The level a forced run uses: the first of the color variables, `3`
/// where none is set; an empty value or `true` means `1`, and `false`
/// means `0`.
pub open spec fn spec_forced_level(env: &ColorEnv) -> Seq<char> {
    let raw = match env.moon_color {
        Some(v) => v@,
        None => match env.force_color {
            Some(v) => v@,
            None => "3"@,
        },
    };
    if raw.len() == 0 || raw == "true"@ {
        "1"@
    } else if raw == "false"@ {
        "0"@
    } else {
        raw
    }
}

/// The shape of a color decision, without its payload.
pub enum ColorMode {
    Disable,
    Force,
    Auto,
}

/// The decision the original rules give: a forced run disables on level
/// zero and forces otherwise; an unforced run disables under a no-color
/// marker and otherwise follows the terminal.
pub open spec fn spec_color_mode(force: bool, env: &ColorEnv) -> ColorMode {
    if force || env.moon_color is Some || env.force_color is Some || env.clicolor_force is Some {
        if spec_forced_level(env) == "0"@ {
            ColorMode::Disable
        } else {
            ColorMode::Force
        }
    } else if env.no_color {
        ColorMode::Disable
    } else {
        ColorMode::Auto
    }
}

/// Decide the color setup.
pub fn setup_colors(force: bool, env: &ColorEnv) -> (r: ColorDecision)
    ensures
        r is Disable <==> spec_color_mode(force, env) is Disable,
        r is Force <==> spec_color_mode(force, env) is Force,
        r is Auto <==> spec_color_mode(force, env) is Auto,
        r matches ColorDecision::Force(level) ==> level@ == spec_forced_level(env)
            && spec_forced_level(env) != "0"@,
        r matches ColorDecision::Auto(level) ==> level == env.supports_color,
{
    proof {
        reveal_strlit("true");
        reveal_strlit("false");
        reveal_strlit("0");
        reveal_strlit("1");
        reveal_strlit("3");
        assert("0"@.len() == 1 && "1"@.len() == 1 && "3"@.len() == 1);
        assert("0"@[0] == '0' && "1"@[0] == '1' && "3"@[0] == '3');
        assert("1"@ != "0"@ && "3"@ != "0"@);
    }
    if force || env.moon_color.is_some() || env.force_color.is_some()
        || env.clicolor_force.is_some() {
        let raw: String = match &env.moon_color {
            Some(v) => v.clone(),
            None => match &env.force_color {
                Some(v) => v.clone(),
                None => "3".to_owned(),
            },
        };
        let level: String = if raw.unicode_len() == 0 || str_eq(raw.as_str(), "true") {
            "1".to_owned()
        } else if str_eq(raw.as_str(), "false") {
            "0".to_owned()
        } else {
            raw
        };
        if str_eq(level.as_str(), "0") {
            ColorDecision::Disable
        } else {
            ColorDecision::Force(level)
        }
    } else if env.no_color {
        ColorDecision::Disable
    } else {
        ColorDecision::Auto(env.supports_color)
    }
}

} // verus!
