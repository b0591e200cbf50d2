use pane_rows::pane::{
    AgentType, PaneGitInfo, PaneInfo, PaneStatus, PermissionMode, TaskProgress, TaskStatus,
};
use pane_rows::row::{
    branch_ports_row, idle_hint_row, render_pane_lines_with_ports, running_icon_for,
    subagent_rows, task_progress_row, wait_reason_row, RowCtx,
};
use pane_rows::style::{Color, Line, Style};
use pane_rows::theme::{ColorTheme, StatusIcons};

fn pane(permission_mode: PermissionMode, status: PaneStatus, prompt: &str) -> PaneInfo {
    pane_with_response(permission_mode, status, prompt, false)
}

fn pane_with_response(
    permission_mode: PermissionMode,
    status: PaneStatus,
    prompt: &str,
    is_response: bool,
) -> PaneInfo {
    PaneInfo {
        pane_id: "%1".into(),
        pane_active: false,
        status,
        attention: false,
        agent: AgentType::Codex,
        path: "/tmp/project".into(),
        current_command: String::new(),
        prompt: prompt.into(),
        prompt_is_response: is_response,
        started_at: None,
        wait_reason: String::new(),
        permission_mode,
        subagents: vec![],
        pane_pid: None,
        worktree_name: String::new(),
        worktree_branch: String::new(),
    }
}

fn line_text(line: &Line) -> String {
    line.spans.iter().map(|span| span.content.as_str()).collect()
}

/// A row context with no selection background.
fn test_ctx<'a>(
    theme: &'a ColorTheme,
    inner_width: usize,
    active: bool,
    selection_bg: Option<Color>,
) -> RowCtx<'a> {
    RowCtx {
        border_style: Style::default().fg(theme.border_active),
        inner_width,
        theme,
        selection_bg,
        active,
    }
}

#[test]
fn render_pane_lines_shows_permission_badge() {
    let theme = ColorTheme::default();
    let pane = pane(PermissionMode::Auto, PaneStatus::Running, "");
    let lines = render_pane_lines_with_ports(
        &pane,
        &PaneGitInfo::default(),
        None,
        None,
        None,
        false,
        false,
        theme.border_active,
        40,
        &StatusIcons::default(),
        &theme,
        0,
        0,
    );

    let status = line_text(&lines[0]);
    assert!(status.contains(" codex auto"));
}

#[test]
fn render_pane_lines_shows_branch_and_ports_on_same_row() {
    let theme = ColorTheme::default();
    let pane = pane(PermissionMode::Default, PaneStatus::Running, "");
    let ports = vec![3000, 5173];
    let lines = render_pane_lines_with_ports(
        &pane,
        &PaneGitInfo {
            repo_root: Some("/tmp/project".into()),
            branch: Some("feature/sidebar".into()),
            is_worktree: false,
            worktree_name: None,
        },
        Some(&ports),
        None,
        None,
        false,
        false,
        theme.border_active,
        40,
        &StatusIcons::default(),
        &theme,
        0,
        0,
    );

    assert!(lines.len() >= 2);
    let branch_port_line = line_text(&lines[1]);
    assert!(branch_port_line.contains("feature/sidebar"));
    assert!(branch_port_line.contains(":3000, 5173"));
    assert!(branch_port_line.find("feature/sidebar") < branch_port_line.find(":3000, 5173"));
}

#[test]
fn render_pane_lines_shows_command_row() {
    let theme = ColorTheme::default();
    let mut pane = pane(PermissionMode::Default, PaneStatus::Running, "");
    pane.current_command = "npm run dev -- --port 3000".into();
    let lines = render_pane_lines_with_ports(
        &pane,
        &PaneGitInfo::default(),
        None,
        Some("npm run dev -- --port 3000"),
        None,
        false,
        false,
        theme.border_active,
        40,
        &StatusIcons::default(),
        &theme,
        0,
        0,
    );

    assert_eq!(lines.len(), 1);
    assert!(lines.iter().all(|line| !line_text(line).contains("cmd:")));
}

#[test]
fn render_pane_lines_truncates_long_branch_when_ports_present() {
    let theme = ColorTheme::default();
    let pane = pane(PermissionMode::Default, PaneStatus::Running, "");
    let ports = vec![3000];
    let lines = render_pane_lines_with_ports(
        &pane,
        &PaneGitInfo {
            repo_root: Some("/tmp/project".into()),
            branch: Some("feature/sidebar/really-long-branch-name-that-should-truncate".into()),
            is_worktree: false,
            worktree_name: None,
        },
        Some(&ports),
        None,
        None,
        false,
        false,
        theme.border_active,
        40,
        &StatusIcons::default(),
        &theme,
        0,
        0,
    );

    assert!(lines.len() >= 2);
    let branch_port_line = line_text(&lines[1]);
    assert!(
        branch_port_line.contains('…'),
        "long branch should be truncated"
    );
    assert!(branch_port_line.contains(":3000"));
    assert!(
        branch_port_line.find('…') < branch_port_line.find(":3000"),
        "branch truncation should remain left of the port text"
    );
}

#[test]
fn render_pane_lines_uses_injected_now_for_elapsed() {
    let theme = ColorTheme::default();
    let mut pane = pane(PermissionMode::Default, PaneStatus::Running, "");
    pane.started_at = Some(1_000_000 - 125);
    let lines = render_pane_lines_with_ports(
        &pane,
        &PaneGitInfo::default(),
        None,
        None,
        None,
        false,
        false,
        theme.border_active,
        40,
        &StatusIcons::default(),
        &theme,
        0,
        1_000_000,
    );

    let status = line_text(&lines[0]);
    assert!(status.contains("2m5s"));
}

#[test]
fn running_icon_for_all_statuses() {
    let icons = StatusIcons::default();
    assert_eq!(running_icon_for(&PaneStatus::Idle, 0, &icons), ("○", None));
    assert_eq!(
        running_icon_for(&PaneStatus::Waiting, 0, &icons),
        ("◐", None)
    );
    assert_eq!(running_icon_for(&PaneStatus::Error, 0, &icons), ("✕", None));
    assert_eq!(
        running_icon_for(&PaneStatus::Unknown, 0, &icons),
        ("·", None)
    );

    let (icon, color) = running_icon_for(&PaneStatus::Running, 0, &icons);
    assert_eq!(icon, "●");
    assert_eq!(color, Some(Color::Indexed(82)));
}

#[test]
fn render_pane_lines_shows_idle_prompt_hint() {
    let theme = ColorTheme::default();
    let pane = pane(PermissionMode::Default, PaneStatus::Idle, "");
    let lines = render_pane_lines_with_ports(
        &pane,
        &PaneGitInfo::default(),
        None,
        None,
        None,
        false,
        false,
        theme.border_active,
        40,
        &StatusIcons::default(),
        &theme,
        0,
        0,
    );

    assert_eq!(lines.len(), 2);
    let hint = line_text(&lines[1]);
    assert!(hint.contains("Waiting for prompt"));
}

#[test]
fn render_pane_lines_wraps_prompt_when_present() {
    let theme = ColorTheme::default();
    let pane = pane(
        PermissionMode::BypassPermissions,
        PaneStatus::Idle,
        "hello world from codex",
    );
    let lines = render_pane_lines_with_ports(
        &pane,
        &PaneGitInfo::default(),
        None,
        None,
        None,
        false,
        false,
        theme.border_active,
        18,
        &StatusIcons::default(),
        &theme,
        0,
        0,
    );

    assert!(lines.len() >= 2);
    let status = line_text(&lines[0]);
    assert!(status.contains(" codex !"));
    assert!(!line_text(&lines[1]).contains("Waiting for prompt"));
}

#[test]
fn render_pane_lines_shows_single_subagent() {
    let theme = ColorTheme::default();
    let mut p = pane(PermissionMode::Default, PaneStatus::Running, "test");
    p.subagents = vec!["Explore".into()];
    let lines = render_pane_lines_with_ports(
        &p,
        &PaneGitInfo::default(),
        None,
        None,
        None,
        false,
        false,
        theme.border_active,
        40,
        &StatusIcons::default(),
        &theme,
        0,
        0,
    );

    // status + subagent + prompt = 3 lines minimum
    assert!(lines.len() >= 3);
    let sub_line = line_text(&lines[1]);
    assert!(sub_line.contains("└ "));
    assert!(sub_line.contains("Explore #1"));
}

#[test]
fn render_pane_lines_shows_multiple_subagents_tree() {
    let theme = ColorTheme::default();
    let mut p = pane(PermissionMode::Default, PaneStatus::Running, "test");
    p.subagents = vec!["Explore #1".into(), "Plan".into(), "Explore #2".into()];
    let lines = render_pane_lines_with_ports(
        &p,
        &PaneGitInfo::default(),
        None,
        None,
        None,
        false,
        false,
        theme.border_active,
        40,
        &StatusIcons::default(),
        &theme,
        0,
        0,
    );

    // status + 3 subagents + prompt = 5 lines minimum
    assert!(lines.len() >= 5);
    assert!(line_text(&lines[1]).contains("├ "));
    assert!(line_text(&lines[1]).contains("Explore #1"));
    assert!(line_text(&lines[2]).contains("├ "));
    assert!(line_text(&lines[2]).contains("Plan #2"));
    assert!(line_text(&lines[3]).contains("└ "));
    assert!(line_text(&lines[3]).contains("Explore #2"));
}

#[test]
fn render_pane_lines_subagents_before_wait_reason() {
    let theme = ColorTheme::default();
    let mut p = pane(PermissionMode::Default, PaneStatus::Waiting, "");
    p.subagents = vec!["Explore".into()];
    p.wait_reason = "permission_prompt".into();
    let lines = render_pane_lines_with_ports(
        &p,
        &PaneGitInfo::default(),
        None,
        None,
        None,
        false,
        false,
        theme.border_active,
        40,
        &StatusIcons::default(),
        &theme,
        0,
        0,
    );

    // status + subagent + wait_reason + idle hint = 4
    assert!(lines.len() >= 3);
    let sub_line = line_text(&lines[1]);
    assert!(sub_line.contains("Explore #1"));
    let reason_line = line_text(&lines[2]);
    assert!(reason_line.contains("permission required"));
}

#[test]
fn render_pane_lines_response_shows_arrow() {
    let theme = ColorTheme::default();
    let p = pane_with_response(
        PermissionMode::Default,
        PaneStatus::Idle,
        "Task completed successfully",
        true,
    );
    let lines = render_pane_lines_with_ports(
        &p,
        &PaneGitInfo::default(),
        None,
        None,
        None,
        false,
        false,
        theme.border_active,
        40,
        &StatusIcons::default(),
        &theme,
        0,
        0,
    );

    assert!(lines.len() >= 2);
    let response_line = line_text(&lines[1]);
    assert!(response_line.contains("▶"));
    assert!(response_line.contains("Task completed successfully"));
}

#[test]
fn render_pane_lines_response_uses_char_wrap() {
    let theme = ColorTheme::default();
    // Long response that would word-wrap at spaces but should char-wrap instead
    let p = pane_with_response(
        PermissionMode::Default,
        PaneStatus::Idle,
        "abcdef ghijk lmnop qrstu vwxyz",
        true,
    );
    // Width 20: inner_width=17, prefix=4, so wrap at 13 chars
    let lines = render_pane_lines_with_ports(
        &p,
        &PaneGitInfo::default(),
        None,
        None,
        None,
        false,
        false,
        theme.border_active,
        20,
        &StatusIcons::default(),
        &theme,
        0,
        0,
    );

    assert!(lines.len() >= 2);
    // First line has ▶ + start of text
    let first = line_text(&lines[1]);
    assert!(first.contains("▶"));
    // Second line should NOT have trimmed spaces (char-wrap, not word-wrap)
    // With word-wrap "abcdef ghijk " would break at "ghijk", char-wrap fills fully
    let second = line_text(&lines[2]);
    assert!(!second.starts_with("│  ghijk"));
}

#[test]
fn render_pane_lines_normal_prompt_not_detected_as_response() {
    let theme = ColorTheme::default();
    let p = pane(PermissionMode::Default, PaneStatus::Running, "fix the bug");
    let lines = render_pane_lines_with_ports(
        &p,
        &PaneGitInfo::default(),
        None,
        None,
        None,
        false,
        false,
        theme.border_active,
        40,
        &StatusIcons::default(),
        &theme,
        0,
        0,
    );

    assert!(lines.len() >= 2);
    let prompt_line = line_text(&lines[1]);
    assert!(!prompt_line.contains("▶"));
    assert!(prompt_line.contains("fix the bug"));
}

#[test]
fn render_pane_lines_shows_task_progress() {
    let theme = ColorTheme::default();
    let p = pane(PermissionMode::Default, PaneStatus::Running, "");
    let progress = TaskProgress {
        tasks: vec![
            ("Task A".into(), TaskStatus::Completed),
            ("Task B".into(), TaskStatus::InProgress),
            ("Task C".into(), TaskStatus::Pending),
        ],
    };
    let lines = render_pane_lines_with_ports(
        &p,
        &PaneGitInfo::default(),
        None,
        None,
        Some(&progress),
        false,
        false,
        theme.border_active,
        40,
        &StatusIcons::default(),
        &theme,
        0,
        0,
    );

    // status + task progress + idle hint = 3 lines
    assert!(lines.len() >= 2);
    let task_line = line_text(&lines[1]);
    assert!(task_line.contains("✔◼◻"));
    assert!(task_line.contains("1/3"));
}

#[test]
fn render_pane_lines_no_task_line_when_empty() {
    let theme = ColorTheme::default();
    let p = pane(PermissionMode::Default, PaneStatus::Idle, "");
    let progress = TaskProgress { tasks: vec![] };
    let lines = render_pane_lines_with_ports(
        &p,
        &PaneGitInfo::default(),
        None,
        None,
        Some(&progress),
        false,
        false,
        theme.border_active,
        40,
        &StatusIcons::default(),
        &theme,
        0,
        0,
    );

    // Should not have task line, just status + idle hint
    assert_eq!(lines.len(), 2);
    let hint = line_text(&lines[1]);
    assert!(hint.contains("Waiting for prompt"));
}

#[test]
fn branch_ports_row_returns_none_when_branch_and_ports_empty() {
    let theme = ColorTheme::default();
    let ctx = test_ctx(&theme, 40, false, None);
    let result = branch_ports_row(&PaneGitInfo::default(), None, &ctx);
    assert!(result.is_none());
}

#[test]
fn branch_ports_row_returns_some_when_only_ports() {
    let theme = ColorTheme::default();
    let ctx = test_ctx(&theme, 40, false, None);
    let ports = vec![3000];
    let result = branch_ports_row(&PaneGitInfo::default(), Some(&ports), &ctx);
    let line = result.expect("should render port line");
    let text = line_text(&line);
    assert!(text.contains(":3000"));
}

#[test]
fn subagent_rows_empty_returns_empty_vec() {
    let theme = ColorTheme::default();
    let ctx = test_ctx(&theme, 40, false, None);
    let rows = subagent_rows(&[], &ctx);
    assert!(rows.is_empty());
}

#[test]
fn wait_reason_row_empty_returns_none() {
    let theme = ColorTheme::default();
    let ctx = test_ctx(&theme, 40, false, None);
    let result = wait_reason_row("", &PaneStatus::Waiting, &ctx);
    assert!(result.is_none());
}

#[test]
fn wait_reason_row_uses_error_color_when_status_is_error() {
    let theme = ColorTheme::default();
    let ctx = test_ctx(&theme, 40, false, None);
    let line = wait_reason_row("permission_prompt", &PaneStatus::Error, &ctx)
        .expect("should render reason line");
    // The colored content span is the second (index=2): border, space, text
    let text_span = line
        .spans
        .iter()
        .find(|s| s.content.contains("permission"))
        .expect("reason text should be present");
    assert_eq!(text_span.style.fg, Some(theme.status_error));
}

#[test]
fn task_progress_row_none_when_progress_empty() {
    let theme = ColorTheme::default();
    let ctx = test_ctx(&theme, 40, false, None);
    let progress = TaskProgress { tasks: vec![] };
    assert!(task_progress_row(Some(&progress), &ctx).is_none());
    assert!(task_progress_row(None, &ctx).is_none());
}

#[test]
fn idle_hint_row_contains_waiting_text() {
    let theme = ColorTheme::default();
    let ctx = test_ctx(&theme, 40, false, None);
    let line = idle_hint_row(&ctx);
    assert!(line_text(&line).contains("Waiting for prompt"));
}
