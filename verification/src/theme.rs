//! Colors and status icons of the sidebar.

use vstd::prelude::*;
use crate::pane::{AgentType, PaneStatus};
use crate::style::Color;

verus! {

/// The colors the sidebar draws with.
#[derive(Clone, Copy, Debug, PartialEq, Eq, Structural)]
pub struct ColorTheme {
    pub border_active: Color,
    pub border_inactive: Color,
    pub selection_bg: Color,
    pub text_active: Color,
    pub text_muted: Color,
    pub status_running: Color,
    pub status_waiting: Color,
    pub status_idle: Color,
    pub status_error: Color,
    pub status_unknown: Color,
    pub status_attention: Color,
    pub agent_gemini: Color,
    pub agent_codex: Color,
    pub badge_danger: Color,
    pub badge_auto: Color,
    pub badge_plan: Color,
    pub branch: Color,
    pub port: Color,
    pub task_progress: Color,
    pub subagent: Color,
    pub wait_reason: Color,
    pub response_arrow: Color,
}

/// Color of the status icon: the attention color when the pane asks for
/// attention, else the color of its status.
pub open spec fn status_color_of(t: ColorTheme, status: PaneStatus, attention: bool) -> Color {
    if attention {
        t.status_attention
    } else {
        match status {
            PaneStatus::Running => t.status_running,
            PaneStatus::Waiting => t.status_waiting,
            PaneStatus::Idle => t.status_idle,
            PaneStatus::Error => t.status_error,
            PaneStatus::Unknown => t.status_unknown,
        }
    }
}

/// Color of an agent's title.
pub open spec fn agent_color_of(t: ColorTheme, agent: AgentType) -> Color {
    match agent {
        AgentType::Gemini => t.agent_gemini,
        AgentType::Codex => t.agent_codex,
    }
}

impl ColorTheme {
    /// Color of the status icon of a pane.
    pub fn status_color(&self, status: &PaneStatus, attention: bool) -> (c: Color)
        ensures
            c == status_color_of(*self, *status, attention),
    {
        if attention {
            self.status_attention
        } else {
            match status {
                PaneStatus::Running => self.status_running,
                PaneStatus::Waiting => self.status_waiting,
                PaneStatus::Idle => self.status_idle,
                PaneStatus::Error => self.status_error,
                PaneStatus::Unknown => self.status_unknown,
            }
        }
    }

    /// Color of an agent's title.
    pub fn agent_color(&self, agent: &AgentType) -> (c: Color)
        ensures
            c == agent_color_of(*self, *agent),
    {
        match agent {
            AgentType::Gemini => self.agent_gemini,
            AgentType::Codex => self.agent_codex,
        }
    }
}

/// The default palette, on the 256-color terminal palette.
pub open spec fn default_theme() -> ColorTheme {
    ColorTheme {
        border_active: Color::Indexed(75),
        border_inactive: Color::Indexed(240),
        selection_bg: Color::Indexed(236),
        text_active: Color::Indexed(255),
        text_muted: Color::Indexed(245),
        status_running: Color::Indexed(82),
        status_waiting: Color::Indexed(221),
        status_idle: Color::Indexed(245),
        status_error: Color::Indexed(203),
        status_unknown: Color::Indexed(240),
        status_attention: Color::Indexed(214),
        agent_gemini: Color::Indexed(209),
        agent_codex: Color::Indexed(117),
        badge_danger: Color::Indexed(196),
        badge_auto: Color::Indexed(114),
        badge_plan: Color::Indexed(141),
        branch: Color::Indexed(179),
        port: Color::Indexed(80),
        task_progress: Color::Indexed(150),
        subagent: Color::Indexed(183),
        wait_reason: Color::Indexed(221),
        response_arrow: Color::Indexed(117),
    }
}

impl Default for ColorTheme {
    fn default() -> (t: ColorTheme)
        ensures
            t == default_theme(),
    {
        ColorTheme {
            border_active: Color::Indexed(75),
            border_inactive: Color::Indexed(240),
            selection_bg: Color::Indexed(236),
            text_active: Color::Indexed(255),
            text_muted: Color::Indexed(245),
            status_running: Color::Indexed(82),
            status_waiting: Color::Indexed(221),
            status_idle: Color::Indexed(245),
            status_error: Color::Indexed(203),
            status_unknown: Color::Indexed(240),
            status_attention: Color::Indexed(214),
            agent_gemini: Color::Indexed(209),
            agent_codex: Color::Indexed(117),
            badge_danger: Color::Indexed(196),
            badge_auto: Color::Indexed(114),
            badge_plan: Color::Indexed(141),
            branch: Color::Indexed(179),
            port: Color::Indexed(80),
            task_progress: Color::Indexed(150),
            subagent: Color::Indexed(183),
            wait_reason: Color::Indexed(221),
            response_arrow: Color::Indexed(117),
        }
    }
}

/// The icon drawn for each pane status.
#[derive(Clone, Debug)]
pub struct StatusIcons {
    pub running: String,
    pub waiting: String,
    pub idle: String,
    pub error: String,
    pub unknown: String,
}

/// The icon for `status` in `icons`.
pub open spec fn status_icon_of(icons: StatusIcons, status: PaneStatus) -> Seq<char> {
    match status {
        PaneStatus::Running => icons.running@,
        PaneStatus::Waiting => icons.waiting@,
        PaneStatus::Idle => icons.idle@,
        PaneStatus::Error => icons.error@,
        PaneStatus::Unknown => icons.unknown@,
    }
}

impl StatusIcons {
    /// The icon drawn for `status`.
    pub fn status_icon(&self, status: &PaneStatus) -> (r: &str)
        ensures
            r@ == status_icon_of(*self, *status),
    {
        match status {
            PaneStatus::Running => self.running.as_str(),
            PaneStatus::Waiting => self.waiting.as_str(),
            PaneStatus::Idle => self.idle.as_str(),
            PaneStatus::Error => self.error.as_str(),
            PaneStatus::Unknown => self.unknown.as_str(),
        }
    }
}

impl Default for StatusIcons {
    fn default() -> (i: StatusIcons)
        ensures
            i.running@ == "\u{25cf}"@,
            i.waiting@ == "\u{25d0}"@,
            i.idle@ == "\u{25cb}"@,
            i.error@ == "\u{2715}"@,
            i.unknown@ == "\u{b7}"@,
    {
        StatusIcons {
            running: "\u{25cf}".to_owned(),
            waiting: "\u{25d0}".to_owned(),
            idle: "\u{25cb}".to_owned(),
            error: "\u{2715}".to_owned(),
            unknown: "\u{b7}".to_owned(),
        }
    }
}

/// Number of steps in the pulse of the running spinner.
pub const SPINNER_PULSE_LEN: usize = 6;

/// Palette index of the running icon's color at step `i` of its pulse.
pub open spec fn spinner_pulse_at(i: int) -> u8 {
    if i == 0 {
        82
    } else if i == 1 {
        118
    } else if i == 2 {
        154
    } else if i == 3 {
        190
    } else if i == 4 {
        154
    } else {
        118
    }
}

/// Palette index of the running icon's color at step `i` of its pulse.
pub fn spinner_pulse(i: usize) -> (c: u8)
    requires
        i < SPINNER_PULSE_LEN,
    ensures
        c == spinner_pulse_at(i as int),
{
    if i == 0 {
        82
    } else if i == 1 {
        118
    } else if i == 2 {
        154
    } else if i == 3 {
        190
    } else if i == 4 {
        154
    } else {
        118
    }
}

} // verus!
