use pane_rows::pane::{
    branch_label, AgentType, PaneGitInfo, PaneInfo, PaneStatus, PermissionMode, TaskProgress,
    TaskStatus,
};
use pane_rows::row::{
    bordered_line, bordered_split_line, card_texts_fit, render_pane_lines_with_ports, running_icon_for,
    status_row, subagent_rows, task_progress_row, RowCtx,
};
use pane_rows::style::{Color, Line, Modifier, Span, Style};
use pane_rows::text::{
    concat_text, contains_char, decimal_string, elapsed_label, same_text, wait_reason_label,
};
use pane_rows::theme::{ColorTheme, StatusIcons};
use pane_rows::width::{display_width, pad_to, truncate_to_width};
use pane_rows::wrap::{wrap_text, wrap_text_char};

fn sample_pane(status: PaneStatus, prompt: &str) -> PaneInfo {
    PaneInfo {
        pane_id: "%7".into(),
        pane_active: true,
        status,
        attention: false,
        agent: AgentType::Codex,
        path: "/work".into(),
        current_command: String::new(),
        prompt: prompt.into(),
        prompt_is_response: false,
        started_at: None,
        wait_reason: String::new(),
        permission_mode: PermissionMode::Default,
        subagents: vec![],
        pane_pid: Some(42),
        worktree_name: String::new(),
        worktree_branch: String::new(),
    }
}

fn text_of(line: &Line) -> String {
    line.spans.iter().map(|s| s.content.as_str()).collect()
}

fn render(pane: &PaneInfo, git: &PaneGitInfo, ports: Option<&[u16]>, selected: bool, width: usize) -> Vec<Line> {
    let theme = ColorTheme::default();
    render_pane_lines_with_ports(
        pane,
        git,
        ports,
        None,
        None,
        selected,
        false,
        theme.border_active,
        width,
        &StatusIcons::default(),
        &theme,
        0,
        0,
    )
}

#[test]
fn display_width_counts_cells() {
    assert_eq!(display_width("abc"), 3);
    assert_eq!(display_width("中文"), 4);
    assert_eq!(display_width(""), 0);
    assert_eq!(display_width("a\u{301}"), 1);
}

#[test]
fn truncate_keeps_text_that_fits() {
    assert_eq!(truncate_to_width("hello", 5), "hello");
    assert_eq!(truncate_to_width("hello", 9), "hello");
}

#[test]
fn truncate_cuts_with_ellipsis() {
    assert_eq!(truncate_to_width("hello world", 5), "hell…");
    assert_eq!(truncate_to_width("hello", 1), "…");
    assert_eq!(truncate_to_width("hello", 0), "");
    assert_eq!(truncate_to_width("中文字", 4), "中…");
}

#[test]
fn truncated_text_never_exceeds_width() {
    for max in 0..12 {
        let cut = truncate_to_width("a 中 wide 文 text", max);
        assert!(display_width(&cut) <= max);
    }
}

#[test]
fn pad_to_fills_remaining_cells() {
    assert_eq!(pad_to(3, 7), "    ");
    assert_eq!(pad_to(9, 7), "");
    assert_eq!(pad_to(7, 7), "");
}

#[test]
fn decimal_string_formats_numbers() {
    assert_eq!(decimal_string(0), "0");
    assert_eq!(decimal_string(125), "125");
    assert_eq!(decimal_string(u64::MAX), "18446744073709551615");
}

#[test]
fn elapsed_label_formats_durations() {
    assert_eq!(elapsed_label(None, 100), "");
    assert_eq!(elapsed_label(Some(58), 100), "42s");
    assert_eq!(elapsed_label(Some(1_000_000 - 125), 1_000_000), "2m5s");
    assert_eq!(elapsed_label(Some(0), 3 * 3600 + 7 * 60 + 9), "3h7m");
    assert_eq!(elapsed_label(Some(500), 100), "0s");
}

#[test]
fn wait_reason_label_maps_known_reasons() {
    assert_eq!(wait_reason_label("permission_prompt"), "permission required");
    assert_eq!(wait_reason_label("elicitation"), "elicitation");
}

#[test]
fn text_helpers() {
    assert_eq!(concat_text("ab", "cd"), "abcd");
    assert!(contains_char("Explore #2", '#'));
    assert!(!contains_char("Plan", '#'));
    assert!(same_text("abc", "abc"));
    assert!(!same_text("abc", "abd"));
    assert!(!same_text("abc", "ab"));
}

#[test]
fn word_wrap_packs_words() {
    assert_eq!(wrap_text("hello world from codex", 13, 3), vec!["hello world", "from codex"]);
    assert_eq!(wrap_text("  spaced   out  ", 20, 3), vec!["spaced out"]);
    assert_eq!(wrap_text("", 10, 3), Vec::<String>::new());
    assert_eq!(wrap_text("abc", 0, 3), Vec::<String>::new());
}

#[test]
fn word_wrap_cuts_the_last_line() {
    assert_eq!(wrap_text("one two three four", 7, 2), vec!["one two", "three …"]);
}

#[test]
fn word_wrap_breaks_long_words() {
    assert_eq!(wrap_text("abcdefghij xy", 4, 3), vec!["abcd", "efgh", "ij …"]);
    assert_eq!(wrap_text("abcdefghij xy", 4, 4), vec!["abcd", "efgh", "ij", "xy"]);
    assert_eq!(wrap_text("abcdefghij xy", 5, 4), vec!["abcde", "fghij", "xy"]);
}

#[test]
fn char_wrap_keeps_every_character() {
    assert_eq!(
        wrap_text_char("abcdef ghijk lmnop qrstu vwxyz", 13, 3),
        vec!["abcdef ghijk ", "lmnop qrstu v", "wxyz"]
    );
    assert_eq!(
        wrap_text_char("abcdef ghijk lmnop qrstu vwxyz", 13, 2),
        vec!["abcdef ghijk ", "lmnop qrstu …"]
    );
}

#[test]
fn every_row_is_as_wide_as_the_card() {
    let mut pane = sample_pane(PaneStatus::Waiting, "please look at the change in the sidebar code");
    pane.subagents = vec!["Explore".into(), "Plan #4".into()];
    pane.wait_reason = "permission_prompt".into();
    pane.started_at = Some(10);
    let git = PaneGitInfo {
        repo_root: Some("/work".into()),
        branch: Some("feature/a-rather-long-branch-name-for-the-card".into()),
        is_worktree: false,
        worktree_name: None,
    };
    let ports = vec![8080, 3000];
    for width in [24usize, 30, 40, 60] {
        let lines = render(&pane, &git, Some(&ports), false, width);
        for line in &lines {
            assert_eq!(display_width(&text_of(line)), width, "row {:?}", text_of(line));
        }
    }
}

#[test]
fn selected_card_has_uniform_background() {
    let theme = ColorTheme::default();
    let mut pane = sample_pane(PaneStatus::Idle, "");
    pane.subagents = vec!["Explore".into()];
    let git = PaneGitInfo {
        repo_root: None,
        branch: Some("main".into()),
        is_worktree: false,
        worktree_name: None,
    };
    for (selected, bg) in [(true, Some(theme.selection_bg)), (false, None)] {
        let lines = render(&pane, &git, None, selected, 30);
        for line in &lines {
            let n = line.spans.len();
            assert_eq!(line.spans[0].content, "│");
            assert_eq!(line.spans[n - 1].content, "│");
            assert_eq!(line.spans[0].style.bg, None);
            for span in &line.spans[1..n - 1] {
                assert_eq!(span.style.bg, bg);
            }
        }
    }
}

#[test]
fn rows_come_in_order() {
    let mut pane = sample_pane(PaneStatus::Waiting, "go on");
    pane.subagents = vec!["A".into(), "B".into()];
    pane.wait_reason = "idle_prompt".into();
    let git = PaneGitInfo {
        repo_root: None,
        branch: Some("dev".into()),
        is_worktree: false,
        worktree_name: None,
    };
    let theme = ColorTheme::default();
    let progress = TaskProgress { tasks: vec![("t".into(), TaskStatus::Pending)] };
    let lines = render_pane_lines_with_ports(
        &pane,
        &git,
        None,
        None,
        Some(&progress),
        false,
        false,
        theme.border_active,
        40,
        &StatusIcons::default(),
        &theme,
        0,
        0,
    );
    assert_eq!(lines.len(), 7);
    assert!(text_of(&lines[0]).contains("codex"));
    assert!(text_of(&lines[1]).contains("dev"));
    assert!(text_of(&lines[2]).contains("0/1"));
    assert!(text_of(&lines[3]).contains("├ A #1"));
    assert!(text_of(&lines[4]).contains("└ B #2"));
    assert!(text_of(&lines[5]).contains("idle_prompt"));
    assert!(text_of(&lines[6]).contains("go on"));
}

#[test]
fn busy_pane_without_prompt_has_no_hint() {
    let pane = sample_pane(PaneStatus::Running, "");
    let lines = render(&pane, &PaneGitInfo::default(), None, false, 40);
    assert_eq!(lines.len(), 1);
}

#[test]
fn branch_without_ports_has_no_port_text() {
    let pane = sample_pane(PaneStatus::Running, "");
    let git = PaneGitInfo {
        repo_root: None,
        branch: Some("main".into()),
        is_worktree: false,
        worktree_name: None,
    };
    let empty: Vec<u16> = vec![];
    let lines = render(&pane, &git, Some(&empty), false, 40);
    assert_eq!(lines.len(), 2);
    let row = text_of(&lines[1]);
    assert!(row.contains("  main"));
    assert!(!row.contains(':'));
    assert_eq!(lines[1].spans.len(), 5);
}

#[test]
fn branch_label_of_git_info() {
    assert_eq!(branch_label(&PaneGitInfo::default()), "");
    let git = PaneGitInfo {
        repo_root: None,
        branch: Some("topic".into()),
        is_worktree: true,
        worktree_name: Some("wt".into()),
    };
    assert_eq!(branch_label(&git), "topic");
}

#[test]
fn active_pane_title_is_bold() {
    let theme = ColorTheme::default();
    let icons = StatusIcons::default();
    let pane = sample_pane(PaneStatus::Running, "");
    for (active, bits) in [(true, 1u16), (false, 0u16)] {
        let ctx = RowCtx {
            border_style: Style::default(),
            inner_width: 30,
            theme: &theme,
            selection_bg: None,
            active,
        };
        let line = status_row(&pane, &ctx, &icons, 0, 0);
        assert_eq!(line.spans[3].content, " codex");
        assert_eq!(line.spans[3].style.add_modifier.bits, bits);
        assert_eq!(line.spans[3].style.fg, Some(theme.agent_codex));
    }
}

#[test]
fn badges_by_permission_mode() {
    let theme = ColorTheme::default();
    let icons = StatusIcons::default();
    let ctx = RowCtx {
        border_style: Style::default(),
        inner_width: 30,
        theme: &theme,
        selection_bg: None,
        active: false,
    };
    let cases = [
        (PermissionMode::Auto, " auto", theme.badge_auto),
        (PermissionMode::Plan, " plan", theme.badge_plan),
        (PermissionMode::AcceptEdits, " edit", theme.badge_auto),
        (PermissionMode::BypassPermissions, " !", theme.badge_danger),
    ];
    for (mode, text, color) in cases {
        let mut pane = sample_pane(PaneStatus::Idle, "");
        pane.permission_mode = mode;
        let line = status_row(&pane, &ctx, &icons, 0, 0);
        assert_eq!(line.spans[4].content, text);
        assert_eq!(line.spans[4].style.fg, Some(color));
    }
    let pane = sample_pane(PaneStatus::Idle, "");
    let line = status_row(&pane, &ctx, &icons, 0, 0);
    assert_eq!(line.spans.len(), 7);
}

#[test]
fn running_icon_pulses_with_frame() {
    let icons = StatusIcons::default();
    assert_eq!(running_icon_for(&PaneStatus::Running, 1, &icons).1, Some(Color::Indexed(118)));
    assert_eq!(
        running_icon_for(&PaneStatus::Running, 6, &icons),
        running_icon_for(&PaneStatus::Running, 0, &icons)
    );
}

#[test]
fn attention_colors_the_icon() {
    let theme = ColorTheme::default();
    let icons = StatusIcons::default();
    let ctx = RowCtx {
        border_style: Style::default(),
        inner_width: 30,
        theme: &theme,
        selection_bg: None,
        active: false,
    };
    let mut pane = sample_pane(PaneStatus::Waiting, "");
    pane.attention = true;
    let line = status_row(&pane, &ctx, &icons, 0, 0);
    assert_eq!(line.spans[2].style.fg, Some(theme.status_attention));
    pane.attention = false;
    let line = status_row(&pane, &ctx, &icons, 0, 0);
    assert_eq!(line.spans[2].style.fg, Some(theme.status_waiting));
}

#[test]
fn subagent_rows_number_and_cut_names() {
    let theme = ColorTheme::default();
    let ctx = RowCtx {
        border_style: Style::default(),
        inner_width: 12,
        theme: &theme,
        selection_bg: None,
        active: false,
    };
    let names: Vec<String> = vec!["Explore".into(), "Research the codebase".into()];
    let rows = subagent_rows(&names, &ctx);
    assert_eq!(rows.len(), 2);
    assert_eq!(rows[0].spans[3].content, "Explore…");
    assert_eq!(rows[1].spans[2].content, "  └ ");
    assert_eq!(rows[1].spans[3].content, "Researc…");
}

#[test]
fn task_row_counts_completed() {
    let theme = ColorTheme::default();
    let ctx = RowCtx {
        border_style: Style::default(),
        inner_width: 30,
        theme: &theme,
        selection_bg: None,
        active: false,
    };
    let progress = TaskProgress {
        tasks: vec![
            ("a".into(), TaskStatus::Completed),
            ("b".into(), TaskStatus::Completed),
            ("c".into(), TaskStatus::Pending),
        ],
    };
    assert_eq!(progress.completed_count(), 2);
    assert_eq!(progress.total(), 3);
    let line = task_progress_row(Some(&progress), &ctx).expect("task row");
    assert_eq!(line.spans[2].content, "  ✔✔◻ 2/3");
    assert_eq!(line.spans[2].style.fg, Some(theme.task_progress));
}

#[test]
fn bordered_lines_pad_to_inner_width() {
    let border = Style::default().fg(Color::Blue);
    let line = bordered_line(border, None, 6, vec![Span::styled("ab".into(), Style::default())], 2);
    assert_eq!(text_of(&line), "│ ab    │");
    let line = bordered_split_line(
        border,
        Some(Color::Black),
        6,
        vec![Span::styled("ab".into(), Style::default())],
        2,
        vec![Span::styled("c".into(), Style::default())],
        1,
    );
    assert_eq!(text_of(&line), "│ ab   c│");
    assert_eq!(line.spans[1].style.bg, Some(Color::Black));
    assert_eq!(Modifier::bold().bits, 1);
}

#[test]
fn prompt_response_rows() {
    let mut pane = sample_pane(PaneStatus::Idle, "done");
    pane.prompt_is_response = true;
    let lines = render(&pane, &PaneGitInfo::default(), None, false, 20);
    assert_eq!(lines.len(), 2);
    assert_eq!(lines[1].spans[2].content, "  ▶ ");
    assert_eq!(lines[1].spans[2].style.add_modifier.bits, 1);
    assert_eq!(lines[1].spans[3].content, "done");
}

#[test]
fn ordinary_cards_fit() {
    let mut pane = sample_pane(PaneStatus::Running, "a prompt");
    pane.subagents = vec!["Explore".into()];
    let progress = TaskProgress { tasks: vec![("t".into(), TaskStatus::Pending)] };
    let ports = vec![80u16];
    assert!(card_texts_fit(
        &pane,
        &PaneGitInfo::default(),
        Some(&ports),
        Some(&progress),
        &StatusIcons::default()
    ));
}

#[test]
fn word_wrap_with_room_keeps_all_words() {
    let text = "alpha  beta\tgammadelta epsilon";
    let lines = wrap_text(text, 6, 8);
    assert!(lines.len() < 8);
    let glued: String = lines.iter().flat_map(|l| l.chars()).filter(|c| *c != ' ').collect();
    let expected: String = text.chars().filter(|c| !c.is_whitespace()).collect();
    assert_eq!(glued, expected);
    for line in &lines {
        assert!(display_width(line) <= 6);
    }
}

#[test]
fn char_wrap_with_room_gives_back_the_text() {
    let text = "one two three";
    let lines = wrap_text_char(text, 4, 9);
    assert_eq!(lines.concat(), text);
    assert_eq!(lines, vec!["one ", "two ", "thre", "e"]);
}

#[test]
fn styling_arguments_leave_texts_unchanged() {
    let mut pane = sample_pane(PaneStatus::Running, "keep the texts the same whatever the styling");
    pane.subagents = vec!["Explore".into(), "Lint #2".into()];
    pane.wait_reason = "permission_prompt".into();
    pane.started_at = Some(5);
    pane.permission_mode = PermissionMode::Plan;
    let git = PaneGitInfo {
        repo_root: Some("/work".into()),
        branch: Some("feature/styling".into()),
        is_worktree: false,
        worktree_name: None,
    };
    let ports = vec![8080];
    let tasks = TaskProgress {
        tasks: vec![("a".into(), TaskStatus::Completed), ("b".into(), TaskStatus::Pending)],
    };
    let icons = StatusIcons::default();
    let plain = ColorTheme::default();
    let mut other = ColorTheme::default();
    other.text_muted = Color::Red;
    other.branch = Color::Green;
    other.selection_bg = Color::Blue;
    let first = render_pane_lines_with_ports(
        &pane, &git, Some(&ports), None, Some(&tasks), false, false, plain.border_inactive, 36,
        &icons, &plain, 0, 65,
    );
    let second = render_pane_lines_with_ports(
        &pane, &git, Some(&ports), None, Some(&tasks), true, true, Color::Magenta, 36, &icons,
        &other, 4, 65,
    );
    assert_eq!(first.len(), second.len());
    for (a, b) in first.iter().zip(second.iter()) {
        let ta: Vec<&str> = a.spans.iter().map(|s| s.content.as_str()).collect();
        let tb: Vec<&str> = b.spans.iter().map(|s| s.content.as_str()).collect();
        assert_eq!(ta, tb);
    }
    assert_ne!(first[0].spans[0].style, second[0].spans[0].style);
}

#[test]
fn bordered_rows_are_three_cells_wider_than_their_room() {
    let border = Style::default();
    let content = vec![Span::styled("abc".into(), Style::default())];
    let line = bordered_line(border, None, 10, content, 3);
    assert_eq!(display_width(&text_of(&line)), 13);
    let long = vec![Span::styled("abcdefgh".into(), Style::default())];
    let line = bordered_line(border, None, 5, long, 8);
    assert_eq!(display_width(&text_of(&line)), 11);
    let line = bordered_split_line(
        border,
        None,
        10,
        vec![Span::styled("ab".into(), Style::default())],
        2,
        vec![Span::styled(":80".into(), Style::default())],
        3,
    );
    assert_eq!(display_width(&text_of(&line)), 13);
    assert!(text_of(&line).ends_with(":80│"));
}
