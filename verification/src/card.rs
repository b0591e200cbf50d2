//! Properties that hold of every pane card: how its rows are framed, in
//! what order they come, and how wide they are.

use vstd::prelude::*;
use crate::pane::{PaneGitInfo, PaneInfo, PaneStatus, TaskStatus};
use crate::row::{
    arrow_text, border_text, bordered_view, branch_ports_view, card_ctx, emphasis_color, fill_style,
    idle_hint_text, opt_rows, pane_lines_view, port_text, prompt_lines, prompt_part,
    prompt_row_view, sat_sub, split_view, status_left_width, status_view, subagent_prefix,
    subagent_view, task_progress_view, text_row_view, text_style, wait_reason_view, LineView,
    RowCtx,
};
use crate::style::{Color, Style};
use crate::theme::{ColorTheme, StatusIcons};
use crate::width::{
    cell_width, ellipsis, glyphs_one_cell, lemma_text_width_concat, lemma_text_width_push, lemma_truncated_fits,
    pad_len, spaces, text_width, truncated,
};

verus! {

/// `v` is closed by `border` on both sides, and every span between the
/// borders has the background `bg`.
pub open spec fn framed_by(v: LineView, border: Style, bg: Option<Color>) -> bool {
    &&& v.len() >= 2
    &&& v[0] == (border_text(), border)
    &&& v[v.len() - 1] == (border_text(), border)
    &&& forall|i: int| 1 <= i < v.len() - 1 ==> (#[trigger] v[i]).1.bg == bg
}

/// Every span of `content` has the background `bg`.
pub open spec fn all_bg(content: LineView, bg: Option<Color>) -> bool {
    forall|i: int| 0 <= i < content.len() ==> (#[trigger] content[i]).1.bg == bg
}

proof fn lemma_bordered_framed(
    border: Style,
    bg: Option<Color>,
    inner: nat,
    content: LineView,
    cw: nat,
)
    requires
        all_bg(content, bg),
    ensures
        framed_by(bordered_view(border, bg, inner, content, cw), border, bg),
{
    let v = bordered_view(border, bg, inner, content, cw);
    assert forall|i: int| 1 <= i < v.len() - 1 implies (#[trigger] v[i]).1.bg == bg by {
        if 2 <= i < 2 + content.len() {
            assert(v[i] == content[i - 2]);
        }
    }
}

proof fn lemma_split_framed(
    border: Style,
    bg: Option<Color>,
    inner: nat,
    left: LineView,
    lw: nat,
    right: LineView,
    rw: nat,
)
    requires
        all_bg(left, bg),
        all_bg(right, bg),
    ensures
        framed_by(split_view(border, bg, inner, left, lw, right, rw), border, bg),
{
    let v = split_view(border, bg, inner, left, lw, right, rw);
    assert forall|i: int| 1 <= i < v.len() - 1 implies (#[trigger] v[i]).1.bg == bg by {
        if 2 <= i < 2 + left.len() {
            assert(v[i] == left[i - 2]);
        } else if 3 + left.len() <= i < 3 + left.len() + right.len() {
            assert(v[i] == right[i - 3 - left.len()]);
        }
    }
}

proof fn lemma_text_row_framed(ctx: RowCtx, text: Seq<char>, c: Color)
    ensures
        framed_by(text_row_view(ctx, text, c), ctx.border_style, ctx.selection_bg),
{
    let content = seq![(text, text_style(ctx.selection_bg, c))];
    assert(all_bg(content, ctx.selection_bg));
    lemma_bordered_framed(
        ctx.border_style,
        ctx.selection_bg,
        ctx.inner_width as nat,
        content,
        crate::width::text_width(text),
    );
}

proof fn lemma_opt_rows_framed(ctx: RowCtx, o: Option<LineView>)
    requires
        o matches Some(v) ==> framed_by(v, ctx.border_style, ctx.selection_bg),
    ensures
        forall|i: int|
            0 <= i < opt_rows(o).len() ==> framed_by(
                #[trigger] opt_rows(o)[i],
                ctx.border_style,
                ctx.selection_bg,
            ),
{
}

/// Every row of a pane card is closed by the border on both sides, and
/// every span between the borders carries the card's selection background
/// (none when the card is not selected).
pub proof fn lemma_card_rows_framed(
    ctx: RowCtx,
    pane: PaneInfo,
    git_info: PaneGitInfo,
    ports: Option<Seq<u16>>,
    tasks: Option<Seq<(String, TaskStatus)>>,
    icons: StatusIcons,
    spinner_frame: nat,
    now: u64,
)
    ensures
        forall|i: int|
            0 <= i < pane_lines_view(ctx, pane, git_info, ports, tasks, icons, spinner_frame, now).len()
                ==> framed_by(
                #[trigger] pane_lines_view(
                    ctx,
                    pane,
                    git_info,
                    ports,
                    tasks,
                    icons,
                    spinner_frame,
                    now,
                )[i],
                ctx.border_style,
                ctx.selection_bg,
            ),
{
    let bg = ctx.selection_bg;
    let border = ctx.border_style;
    let rows = pane_lines_view(ctx, pane, git_info, ports, tasks, icons, spinner_frame, now);
    // status row
    let sv = status_view(ctx, pane, icons, spinner_frame, now);
    assert(framed_by(sv, border, bg));
    // branch and ports row
    let bp = branch_ports_view(ctx, crate::pane::branch_text(git_info), ports);
    if let Some(v) = bp {
        let branch = crate::pane::branch_text(git_info);
        let pt = port_text(ports);
        let right_text = match pt {
            Some(t) => t,
            None => Seq::empty(),
        };
        let right_width = if right_text.len() == 0 {
            0
        } else {
            crate::width::text_width("  "@) + crate::width::text_width(right_text)
        };
        let left_room = sat_sub(ctx.inner_width as nat, right_width);
        let left_text = "  "@ + crate::width::truncated(
            branch,
            sat_sub(left_room, crate::width::text_width("  "@)),
        );
        let left: LineView = if branch.len() == 0 {
            Seq::empty()
        } else {
            seq![(left_text, text_style(bg, ctx.theme.branch))]
        };
        let left_width = if branch.len() == 0 {
            0
        } else {
            crate::width::text_width(left_text)
        };
        let right: LineView = if right_text.len() == 0 {
            Seq::empty()
        } else {
            seq![("  "@ + right_text, text_style(bg, ctx.theme.port))]
        };
        assert(all_bg(left, bg));
        assert(all_bg(right, bg));
        lemma_split_framed(
            border,
            bg,
            ctx.inner_width as nat,
            left,
            left_width,
            right,
            right_width,
        );
    }
    lemma_opt_rows_framed(ctx, bp);
    // task row
    let tv = task_progress_view(ctx, tasks);
    if let Some(t) = tasks {
        if t.len() > 0 {
            lemma_text_row_framed(ctx, crate::row::task_summary(t), ctx.theme.task_progress);
        }
    }
    lemma_opt_rows_framed(ctx, tv);
    // sub-agent rows
    let n = pane.subagents@.len();
    let subs = Seq::new(n, |i: int| subagent_view(ctx, pane.subagents@[i]@, i as nat, n));
    assert forall|i: int| 0 <= i < subs.len() implies framed_by(
        #[trigger] subs[i],
        border,
        bg,
    ) by {
        let prefix = subagent_prefix(i as nat, n);
        let shown = crate::width::truncated(
            crate::row::numbered_name(pane.subagents@[i]@, i as nat),
            sat_sub(ctx.inner_width as nat, crate::width::text_width(prefix)),
        );
        let content = seq![
            (prefix, text_style(bg, ctx.theme.text_muted)),
            (shown, text_style(bg, ctx.theme.subagent)),
        ];
        assert(all_bg(content, bg));
        lemma_bordered_framed(
            border,
            bg,
            ctx.inner_width as nat,
            content,
            crate::width::text_width(prefix) + crate::width::text_width(shown),
        );
    }
    // wait reason row
    let wv = wait_reason_view(ctx, pane.wait_reason@, pane.status);
    if pane.wait_reason@.len() > 0 {
        lemma_text_row_framed(
            ctx,
            crate::row::wait_row_text(pane.wait_reason@),
            crate::row::wait_row_color(pane.status, *ctx.theme),
        );
    }
    lemma_opt_rows_framed(ctx, wv);
    // prompt rows or idle hint
    let pp = prompt_part(ctx, pane);
    let lines = prompt_lines(ctx, pane);
    assert forall|i: int| 0 <= i < pp.len() implies framed_by(#[trigger] pp[i], border, bg) by {
        if pane.prompt@.len() > 0 {
            let line = lines[i];
            if pane.prompt_is_response && i == 0 {
                let content = seq![
                    (
                        arrow_text(),
                        crate::row::bg_applied(
                            bg,
                            crate::style::with_modifier(
                                crate::style::with_fg(
                                    crate::style::plain_style(),
                                    ctx.theme.response_arrow,
                                ),
                                crate::style::Modifier { bits: 1 },
                            ),
                        ),
                    ),
                    (line, text_style(bg, emphasis_color(ctx))),
                ];
                assert(all_bg(content, bg));
                lemma_bordered_framed(
                    border,
                    bg,
                    ctx.inner_width as nat,
                    content,
                    4 + crate::width::text_width(line),
                );
            } else {
                lemma_text_row_framed(
                    ctx,
                    (if pane.prompt_is_response {
                        "    "@
                    } else {
                        "  "@
                    }) + line,
                    emphasis_color(ctx),
                );
            }
            assert(pp[i] == prompt_row_view(ctx, pane.prompt_is_response, i == 0, line));
        } else {
            lemma_text_row_framed(ctx, idle_hint_text(), emphasis_color(ctx));
        }
    }
    let a = seq![sv];
    let b = opt_rows(bp);
    let c = opt_rows(tv);
    let d = opt_rows(wv);
    assert(rows == a + b + c + subs + d + pp);
    assert forall|i: int| 0 <= i < rows.len() implies framed_by(#[trigger] rows[i], border, bg) by {
        if i < 1 {
            assert(rows[i] == a[i]);
        } else if i < 1 + b.len() {
            assert(rows[i] == b[i - 1]);
        } else if i < 1 + b.len() + c.len() {
            assert(rows[i] == c[i - 1 - b.len()]);
        } else if i < 1 + b.len() + c.len() + subs.len() {
            assert(rows[i] == subs[i - 1 - b.len() - c.len()]);
        } else if i < 1 + b.len() + c.len() + subs.len() + d.len() {
            assert(rows[i] == d[i - 1 - b.len() - c.len() - subs.len()]);
        } else {
            assert(rows[i] == pp[i - 1 - b.len() - c.len() - subs.len() - d.len()]);
        }
    }
}

/// Display width of a row: the sum of the widths of its spans.
pub open spec fn line_width(v: LineView) -> nat
    decreases v.len(),
{
    if v.len() == 0 {
        0
    } else {
        text_width(v[0].0) + line_width(v.drop_first())
    }
}

/// The width of two runs of spans is the sum of their widths.
pub proof fn lemma_line_width_concat(a: LineView, b: LineView)
    ensures
        line_width(a + b) == line_width(a) + line_width(b),
    decreases a.len(),
{
    if a.len() == 0 {
        assert(a + b =~= b);
    } else {
        lemma_line_width_concat(a.drop_first(), b);
        assert((a + b).drop_first() =~= a.drop_first() + b);
        assert((a + b)[0] == a[0]);
    }
}

proof fn lemma_line_width_one(x: (Seq<char>, Style))
    ensures
        line_width(seq![x]) == text_width(x.0),
{
    assert(seq![x].drop_first() =~= Seq::<(Seq<char>, Style)>::empty());
    assert(line_width(Seq::<(Seq<char>, Style)>::empty()) == 0);
}

proof fn lemma_line_width_two(x: (Seq<char>, Style), y: (Seq<char>, Style))
    ensures
        line_width(seq![x, y]) == text_width(x.0) + text_width(y.0),
{
    lemma_line_width_one(x);
    lemma_line_width_one(y);
    lemma_line_width_concat(seq![x], seq![y]);
    assert(seq![x] + seq![y] =~= seq![x, y]);
}

proof fn lemma_spaces_width(n: nat)
    ensures
        cell_width(' ') == 1 ==> text_width(spaces(n)) == n,
    decreases n,
{
    if n > 0 {
        lemma_spaces_width((n - 1) as nat);
        assert(spaces(n).drop_last() =~= spaces((n - 1) as nat));
    }
}

proof fn lemma_literal_widths()
    ensures
        text_width(" "@) == cell_width(' '),
        text_width("  "@) == 2 * cell_width(' '),
        text_width(border_text()) == cell_width('\u{2502}'),
{
    reveal_strlit(" ");
    reveal_strlit("  ");
    reveal_strlit("\u{2502}");
    assert(text_width(Seq::<char>::empty()) == 0);
    lemma_text_width_push(Seq::empty(), ' ');
    assert(" "@ =~= Seq::<char>::empty().push(' '));
    lemma_text_width_push(" "@, ' ');
    assert("  "@ =~= " "@.push(' '));
    lemma_text_width_push(Seq::empty(), '\u{2502}');
    assert(border_text() =~= Seq::<char>::empty().push('\u{2502}'));
}

/// A bordered row is three cells (the two borders and the blank after the
/// left one) wider than its content and the padding after it.
pub proof fn lemma_bordered_width(
    border: Style,
    bg: Option<Color>,
    inner: nat,
    content: LineView,
    cw: nat,
)
    ensures
        glyphs_one_cell() ==> line_width(bordered_view(border, bg, inner, content, cw)) == 3
            + line_width(content) + pad_len(cw, inner),
{
    lemma_literal_widths();
    lemma_spaces_width(pad_len(cw, inner));
    let head: LineView = seq![(border_text(), border), (" "@, fill_style(bg))];
    let tail: LineView = seq![
        (spaces(pad_len(cw, inner)), fill_style(bg)),
        (border_text(), border),
    ];
    lemma_line_width_concat(head, content);
    lemma_line_width_concat(head + content, tail);
    lemma_line_width_two(head[0], head[1]);
    lemma_line_width_two(tail[0], tail[1]);
    assert(head =~= seq![head[0], head[1]]);
    assert(tail =~= seq![tail[0], tail[1]]);
}

/// A split row is three cells wider than its left and right content and
/// the padding between them.
pub proof fn lemma_split_width(
    border: Style,
    bg: Option<Color>,
    inner: nat,
    left: LineView,
    lw: nat,
    right: LineView,
    rw: nat,
)
    ensures
        glyphs_one_cell() ==> line_width(split_view(border, bg, inner, left, lw, right, rw)) == 3
            + line_width(left) + line_width(right) + pad_len(lw + rw, inner),
{
    lemma_literal_widths();
    lemma_spaces_width(pad_len(lw + rw, inner));
    let head: LineView = seq![(border_text(), border), (" "@, fill_style(bg))];
    let mid: LineView = seq![(spaces(pad_len(lw + rw, inner)), fill_style(bg))];
    let last: LineView = seq![(border_text(), border)];
    assert(split_view(border, bg, inner, left, lw, right, rw) == head + left + mid + right + last);
    lemma_line_width_concat(head, left);
    lemma_line_width_concat(head + left, mid);
    lemma_line_width_concat(head + left + mid, right);
    lemma_line_width_concat(head + left + mid + right, last);
    lemma_line_width_two(head[0], head[1]);
    assert(head =~= seq![head[0], head[1]]);
    lemma_line_width_one(mid[0]);
    assert(mid =~= seq![mid[0]]);
    lemma_line_width_one(last[0]);
    assert(last =~= seq![last[0]]);
}

/// A row holding one text that fits between the borders is exactly as wide
/// as the card.
pub proof fn lemma_text_row_width(ctx: RowCtx, text: Seq<char>, c: Color)
    ensures
        glyphs_one_cell() && text_width(text) <= ctx.inner_width ==> line_width(
            text_row_view(ctx, text, c),
        ) == ctx.inner_width + 3,
{
    let content: LineView = seq![(text, text_style(ctx.selection_bg, c))];
    lemma_bordered_width(
        ctx.border_style,
        ctx.selection_bg,
        ctx.inner_width as nat,
        content,
        text_width(text),
    );
    lemma_line_width_one(content[0]);
    assert(content =~= seq![content[0]]);
}

/// The status row is exactly as wide as the card whenever its left part
/// (icon, title and badge) fits: the elapsed time is cut to the room left.
pub proof fn lemma_status_row_width(
    ctx: RowCtx,
    pane: PaneInfo,
    icons: StatusIcons,
    spinner_frame: nat,
    now: u64,
)
    ensures
        glyphs_one_cell() && status_left_width(
            crate::theme::status_icon_of(icons, pane.status),
            crate::pane::agent_label(pane.agent),
            crate::pane::badge_text(pane.permission_mode),
        ) <= ctx.inner_width ==> line_width(status_view(ctx, pane, icons, spinner_frame, now))
            == ctx.inner_width + 3,
{
    let icon = crate::theme::status_icon_of(icons, pane.status);
    let title = crate::pane::agent_label(pane.agent);
    let badge = crate::pane::badge_text(pane.permission_mode);
    let left_dw = status_left_width(icon, title, badge);
    let inner = ctx.inner_width as nat;
    if glyphs_one_cell() && left_dw <= inner {
        let raw = crate::text::elapsed_text(pane.started_at, now);
        let elapsed = truncated(raw, sat_sub(inner, left_dw));
        lemma_truncated_fits(raw, sat_sub(inner, left_dw));
        lemma_literal_widths();
        lemma_text_width_concat(" "@, title);
        lemma_text_width_concat(" "@, badge);
        let v = status_view(ctx, pane, icons, spinner_frame, now);
        let pad = spaces(pad_len(left_dw + text_width(elapsed), inner));
        lemma_spaces_width(pad_len(left_dw + text_width(elapsed), inner));
        let head: LineView = seq![
            (border_text(), ctx.border_style),
            (" "@, fill_style(ctx.selection_bg)),
            (icon, text_style(ctx.selection_bg, crate::row::icon_color_of(ctx, pane, spinner_frame))),
            (
                " "@ + title,
                crate::row::bg_applied(
                    ctx.selection_bg,
                    crate::style::with_modifier(
                        crate::style::with_fg(
                            crate::style::plain_style(),
                            crate::theme::agent_color_of(*ctx.theme, pane.agent),
                        ),
                        crate::style::Modifier {
                            bits: if ctx.active {
                                1
                            } else {
                                0
                            },
                        },
                    ),
                ),
            ),
        ];
        let badge_part: LineView = if badge.len() == 0 {
            Seq::empty()
        } else {
            seq![
                (
                    " "@ + badge,
                    text_style(
                        ctx.selection_bg,
                        crate::row::badge_color_of(*ctx.theme, pane.permission_mode),
                    ),
                ),
            ]
        };
        let elapsed_fg = if pane.status == PaneStatus::Running || pane.status
            == PaneStatus::Waiting {
            ctx.theme.text_active
        } else {
            ctx.theme.text_muted
        };
        let tail: LineView = seq![
            (pad, fill_style(ctx.selection_bg)),
            (elapsed, text_style(ctx.selection_bg, elapsed_fg)),
            (border_text(), ctx.border_style),
        ];
        assert(v == head + badge_part + tail);
        lemma_line_width_concat(head, badge_part);
        lemma_line_width_concat(head + badge_part, tail);
        lemma_line_width_two(head[0], head[1]);
        lemma_line_width_two(head[2], head[3]);
        lemma_line_width_concat(seq![head[0], head[1]], seq![head[2], head[3]]);
        assert(head =~= seq![head[0], head[1]] + seq![head[2], head[3]]);
        lemma_line_width_two(tail[0], tail[1]);
        lemma_line_width_one(tail[2]);
        lemma_line_width_concat(seq![tail[0], tail[1]], seq![tail[2]]);
        assert(tail =~= seq![tail[0], tail[1]] + seq![tail[2]]);
        if badge.len() > 0 {
            lemma_line_width_one(badge_part[0]);
            assert(badge_part =~= seq![badge_part[0]]);
        } else {
            assert(badge =~= Seq::<char>::empty());
            assert(text_width(badge) == 0);
            assert(line_width(badge_part) == 0);
        }
    }
}

/// A sub-agent row is exactly as wide as the card whenever its connector
/// fits: the name is cut to the room left.
pub proof fn lemma_subagent_row_width(ctx: RowCtx, name: Seq<char>, i: nat, n: nat)
    ensures
        glyphs_one_cell() && text_width(subagent_prefix(i, n)) <= ctx.inner_width ==> line_width(
            subagent_view(ctx, name, i, n),
        ) == ctx.inner_width + 3,
{
    let prefix = subagent_prefix(i, n);
    let inner = ctx.inner_width as nat;
    let room = sat_sub(inner, text_width(prefix));
    let shown = truncated(crate::row::numbered_name(name, i), room);
    lemma_truncated_fits(crate::row::numbered_name(name, i), room);
    let content: LineView = seq![
        (prefix, text_style(ctx.selection_bg, ctx.theme.text_muted)),
        (shown, text_style(ctx.selection_bg, ctx.theme.subagent)),
    ];
    lemma_bordered_width(
        ctx.border_style,
        ctx.selection_bg,
        inner,
        content,
        text_width(prefix) + text_width(shown),
    );
    lemma_line_width_two(content[0], content[1]);
    assert(content =~= seq![content[0], content[1]]);
}

/// The indentation and connector of a sub-agent row take four cells.
pub proof fn lemma_subagent_prefix_width(i: nat, n: nat)
    ensures
        glyphs_one_cell() ==> text_width(subagent_prefix(i, n)) == 4,
{
    reveal_strlit("  ");
    reveal_strlit("\u{2514} ");
    reveal_strlit("\u{251c} ");
    let c = if i + 1 == n {
        '\u{2514}'
    } else {
        '\u{251c}'
    };
    let p = subagent_prefix(i, n);
    assert(p =~= seq![' ', ' '].push(c).push(' '));
    assert(seq![' ', ' '] =~= seq![' '].push(' '));
    assert(seq![' '] =~= Seq::<char>::empty().push(' '));
    assert(text_width(Seq::<char>::empty()) == 0);
    lemma_text_width_push(Seq::empty(), ' ');
    lemma_text_width_push(seq![' '], ' ');
    lemma_text_width_push(seq![' ', ' '], c);
    lemma_text_width_push(seq![' ', ' '].push(c), ' ');
}

/// Cells taken at the right of the branch row by the ports text and the
/// gap before it.
pub open spec fn ports_room(ports: Option<Seq<u16>>) -> nat {
    match port_text(ports) {
        Some(t) => text_width("  "@) + text_width(t),
        None => 0,
    }
}

/// The branch and ports row is exactly as wide as the card whenever the
/// ports text and the gaps fit: the branch is cut to the room left.
pub proof fn lemma_branch_row_width(ctx: RowCtx, branch: Seq<char>, ports: Option<Seq<u16>>)
    ensures
        glyphs_one_cell() && ports_room(ports) + 2 <= ctx.inner_width ==> (branch_ports_view(
            ctx,
            branch,
            ports,
        ) matches Some(v) ==> line_width(v) == ctx.inner_width + 3),
{
    let inner = ctx.inner_width as nat;
    if glyphs_one_cell() && ports_room(ports) + 2 <= inner && branch_ports_view(
        ctx,
        branch,
        ports,
    ) is Some {
        lemma_literal_widths();
        lemma_spaces_width(0);
        let bg = ctx.selection_bg;
        let pt = port_text(ports);
        let right_text = match pt {
            Some(t) => t,
            None => Seq::empty(),
        };
        let right_width = if right_text.len() == 0 {
            0
        } else {
            text_width("  "@) + text_width(right_text)
        };
        let left_room = sat_sub(inner, right_width);
        let cut = truncated(branch, sat_sub(left_room, text_width("  "@)));
        lemma_truncated_fits(branch, sat_sub(left_room, text_width("  "@)));
        let left_text = "  "@ + cut;
        lemma_text_width_concat("  "@, cut);
        let left: LineView = if branch.len() == 0 {
            Seq::empty()
        } else {
            seq![(left_text, text_style(bg, ctx.theme.branch))]
        };
        let left_width = if branch.len() == 0 {
            0
        } else {
            text_width(left_text)
        };
        let right: LineView = if right_text.len() == 0 {
            Seq::empty()
        } else {
            seq![("  "@ + right_text, text_style(bg, ctx.theme.port))]
        };
        lemma_text_width_concat("  "@, right_text);
        if let Some(t) = pt {
            reveal_strlit(":");
            assert(t.len() > 0);
        }
        let pad = spaces(pad_len(left_width + right_width, inner));
        lemma_spaces_width(pad_len(left_width + right_width, inner));
        let head: LineView = seq![(border_text(), ctx.border_style), (" "@, fill_style(bg))];
        let mid: LineView = seq![(pad, fill_style(bg))];
        let last: LineView = seq![(border_text(), ctx.border_style)];
        let v = split_view(ctx.border_style, bg, inner, left, left_width, right, right_width);
        assert(v == head + left + mid + right + last);
        lemma_line_width_concat(head, left);
        lemma_line_width_concat(head + left, mid);
        lemma_line_width_concat(head + left + mid, right);
        lemma_line_width_concat(head + left + mid + right, last);
        lemma_line_width_two(head[0], head[1]);
        assert(head =~= seq![head[0], head[1]]);
        lemma_line_width_one(mid[0]);
        assert(mid =~= seq![mid[0]]);
        lemma_line_width_one(last[0]);
        assert(last =~= seq![last[0]]);
        if branch.len() > 0 {
            lemma_line_width_one(left[0]);
            assert(left =~= seq![left[0]]);
        } else {
            assert(line_width(left) == 0);
        }
        if right_text.len() > 0 {
            lemma_line_width_one(right[0]);
            assert(right =~= seq![right[0]]);
        } else {
            assert(line_width(right) == 0);
        }
    }
}

/// A prompt row is exactly as wide as the card whenever its line fits
/// after the indent (or the four-cell arrow).
pub proof fn lemma_prompt_row_width(ctx: RowCtx, is_response: bool, first: bool, line: Seq<char>)
    ensures
        glyphs_one_cell() && text_width(line) + (if is_response {
            4nat
        } else {
            2nat
        }) <= ctx.inner_width ==> line_width(prompt_row_view(ctx, is_response, first, line))
            == ctx.inner_width + 3,
{
    let inner = ctx.inner_width as nat;
    let indent_w: nat = if is_response {
        4
    } else {
        2
    };
    if glyphs_one_cell() && text_width(line) + indent_w <= inner {
        lemma_literal_widths();
        if is_response && first {
            reveal_strlit("  \u{25b6} ");
            let a = arrow_text();
            reveal_strlit("  ");
            assert(a =~= "  "@.push('\u{25b6}').push(' '));
            lemma_text_width_push("  "@, '\u{25b6}');
            lemma_text_width_push("  "@.push('\u{25b6}'), ' ');
            let content: LineView = seq![
                (
                    a,
                    crate::row::bg_applied(
                        ctx.selection_bg,
                        crate::style::with_modifier(
                            crate::style::with_fg(
                                crate::style::plain_style(),
                                ctx.theme.response_arrow,
                            ),
                            crate::style::Modifier { bits: 1 },
                        ),
                    ),
                ),
                (line, text_style(ctx.selection_bg, emphasis_color(ctx))),
            ];
            lemma_bordered_width(
                ctx.border_style,
                ctx.selection_bg,
                inner,
                content,
                4 + text_width(line),
            );
            lemma_line_width_two(content[0], content[1]);
            assert(content =~= seq![content[0], content[1]]);
        } else {
            let indent = if is_response {
                "    "@
            } else {
                "  "@
            };
            reveal_strlit("    ");
            reveal_strlit("  ");
            if is_response {
                assert(indent =~= "  "@ + "  "@);
                lemma_text_width_concat("  "@, "  "@);
            }
            lemma_text_width_concat(indent, line);
            lemma_text_row_width(ctx, indent + line, emphasis_color(ctx));
        }
    }
}

/// The rows of a card come in a fixed order: the status row; the branch
/// and ports row, when there is a branch or a port; the task row, when
/// there are tasks; one row per sub-agent, in order; the wait reason, when
/// there is one; then at most three prompt rows, or, for an idle pane with
/// no prompt, the idle hint.
pub proof fn lemma_card_rows_order(
    ctx: RowCtx,
    pane: PaneInfo,
    git_info: PaneGitInfo,
    ports: Option<Seq<u16>>,
    tasks: Option<Seq<(String, TaskStatus)>>,
    icons: StatusIcons,
    spinner_frame: nat,
    now: u64,
)
    ensures
        ({
            let rows = pane_lines_view(ctx, pane, git_info, ports, tasks, icons, spinner_frame, now);
            let bp = branch_ports_view(ctx, crate::pane::branch_text(git_info), ports);
            let tv = task_progress_view(ctx, tasks);
            let wv = wait_reason_view(ctx, pane.wait_reason@, pane.status);
            let b = opt_rows(bp).len();
            let t = opt_rows(tv).len();
            let n = pane.subagents@.len();
            let w = opt_rows(wv).len();
            let pp = prompt_part(ctx, pane);
            &&& rows.len() == 1 + b + t + n + w + pp.len()
            &&& rows[0] == status_view(ctx, pane, icons, spinner_frame, now)
            &&& (bp is Some <==> (crate::pane::branch_text(git_info).len() > 0 || port_text(
                ports,
            ) is Some))
            &&& (bp matches Some(v) ==> rows[1] == v)
            &&& (tv is Some <==> (tasks matches Some(ts) && ts.len() > 0))
            &&& (tv matches Some(v) ==> rows[1 + b as int] == v)
            &&& (forall|i: int|
                0 <= i < n ==> #[trigger] rows[1 + b + t + i] == subagent_view(
                    ctx,
                    pane.subagents@[i]@,
                    i as nat,
                    n,
                ))
            &&& (wv is Some <==> pane.wait_reason@.len() > 0)
            &&& (wv matches Some(v) ==> rows[1 + b + t + n as int] == v)
            &&& (forall|i: int| 0 <= i < pp.len() ==> #[trigger] rows[1 + b + t + n + w + i] == pp[i])
            &&& pp.len() <= 3
            &&& (pane.prompt@.len() == 0 ==> pp.len() == (if pane.status == PaneStatus::Idle {
                1nat
            } else {
                0nat
            }))
        }),
{
    let rows = pane_lines_view(ctx, pane, git_info, ports, tasks, icons, spinner_frame, now);
    let a = seq![status_view(ctx, pane, icons, spinner_frame, now)];
    let b = opt_rows(branch_ports_view(ctx, crate::pane::branch_text(git_info), ports));
    let c = opt_rows(task_progress_view(ctx, tasks));
    let n = pane.subagents@.len();
    let subs = Seq::new(n, |i: int| subagent_view(ctx, pane.subagents@[i]@, i as nat, n));
    let d = opt_rows(wait_reason_view(ctx, pane.wait_reason@, pane.status));
    let pp = prompt_part(ctx, pane);
    assert(rows == a + b + c + subs + d + pp);
    crate::wrap::lemma_char_wrap_lines(pane.prompt@, sat_sub(ctx.inner_width as nat, 4), 3);
    crate::wrap::lemma_word_wrap_lines(
        crate::wrap::words_of(pane.prompt@),
        sat_sub(ctx.inner_width as nat, 2),
        3,
    );
    assert forall|i: int| 0 <= i < n implies #[trigger] rows[1 + b.len() + c.len() + i]
        == subagent_view(ctx, pane.subagents@[i]@, i as nat, n) by {
        assert(rows[1 + b.len() + c.len() + i] == subs[i]);
    }
    assert forall|i: int| 0 <= i < pp.len() implies #[trigger] rows[1 + b.len() + c.len() + n
        + d.len() + i] == pp[i] by {
        assert(rows[1 + b.len() + c.len() + n + d.len() + i] == pp[i]);
    }
    if b.len() == 1 {
        assert(rows[1] == b[0]);
    }
    if c.len() == 1 {
        assert(rows[1 + b.len() as int] == c[0]);
    }
    if d.len() == 1 {
        assert(rows[1 + b.len() + c.len() + n as int] == d[0]);
    }
}

/// The running icon's color follows the spinner pulse: frames a whole
/// pulse apart draw the icon in the same color.
pub proof fn lemma_spinner_period(ctx: RowCtx, pane: PaneInfo, spinner_frame: nat)
    ensures
        crate::row::icon_color_of(ctx, pane, spinner_frame) == crate::row::icon_color_of(
            ctx,
            pane,
            spinner_frame + crate::theme::SPINNER_PULSE_LEN as nat,
        ),
{
    assert((spinner_frame + 6) % 6 == spinner_frame % 6) by (nonlinear_arith);
}

/// Room enough in a card for every row to fit between the borders: the
/// left part of the status row, the ports text, the task summary, the
/// sub-agent connectors, the wait reason, the prompt lines after their
/// indent, and the idle hint.
pub open spec fn card_has_room(
    ctx: RowCtx,
    pane: PaneInfo,
    ports: Option<Seq<u16>>,
    tasks: Option<Seq<(String, TaskStatus)>>,
    icons: StatusIcons,
) -> bool {
    let inner = ctx.inner_width as nat;
    &&& status_left_width(
        crate::theme::status_icon_of(icons, pane.status),
        crate::pane::agent_label(pane.agent),
        crate::pane::badge_text(pane.permission_mode),
    ) <= inner
    &&& ports_room(ports) + 2 <= inner
    &&& (tasks matches Some(t) ==> (t.len() > 0 ==> text_width(crate::row::task_summary(t)) <= inner))
    &&& (pane.subagents@.len() > 0 ==> inner >= 4)
    &&& (pane.wait_reason@.len() > 0 ==> text_width(crate::row::wait_row_text(pane.wait_reason@))
        <= inner)
    &&& (pane.prompt@.len() > 0 ==> forall|i: int|
        0 <= i < prompt_lines(ctx, pane).len() ==> text_width(#[trigger] prompt_lines(ctx, pane)[i])
            + (if pane.prompt_is_response {
            4nat
        } else {
            2nat
        }) <= inner)
    &&& (pane.prompt@.len() == 0 && pane.status == PaneStatus::Idle ==> text_width(idle_hint_text())
        <= inner)
}

/// When the card has room for every row, every row is exactly as wide as
/// the card.
pub proof fn lemma_card_width(
    ctx: RowCtx,
    pane: PaneInfo,
    git_info: PaneGitInfo,
    ports: Option<Seq<u16>>,
    tasks: Option<Seq<(String, TaskStatus)>>,
    icons: StatusIcons,
    spinner_frame: nat,
    now: u64,
)
    ensures
        glyphs_one_cell() && card_has_room(ctx, pane, ports, tasks, icons) ==> forall|i: int|
            0 <= i < pane_lines_view(ctx, pane, git_info, ports, tasks, icons, spinner_frame, now).len()
                ==> line_width(
                #[trigger] pane_lines_view(
                    ctx,
                    pane,
                    git_info,
                    ports,
                    tasks,
                    icons,
                    spinner_frame,
                    now,
                )[i],
            ) == ctx.inner_width + 3,
{
    if glyphs_one_cell() && card_has_room(ctx, pane, ports, tasks, icons) {
        let rows = pane_lines_view(ctx, pane, git_info, ports, tasks, icons, spinner_frame, now);
        let inner = ctx.inner_width as nat;
        let a = seq![status_view(ctx, pane, icons, spinner_frame, now)];
        let bp = branch_ports_view(ctx, crate::pane::branch_text(git_info), ports);
        let b = opt_rows(bp);
        let tv = task_progress_view(ctx, tasks);
        let c = opt_rows(tv);
        let n = pane.subagents@.len();
        let subs = Seq::new(n, |i: int| subagent_view(ctx, pane.subagents@[i]@, i as nat, n));
        let wv = wait_reason_view(ctx, pane.wait_reason@, pane.status);
        let d = opt_rows(wv);
        let pp = prompt_part(ctx, pane);
        assert(rows == a + b + c + subs + d + pp);
        lemma_status_row_width(ctx, pane, icons, spinner_frame, now);
        lemma_branch_row_width(ctx, crate::pane::branch_text(git_info), ports);
        if let Some(t) = tasks {
            if t.len() > 0 {
                lemma_text_row_width(ctx, crate::row::task_summary(t), ctx.theme.task_progress);
            }
        }
        if pane.wait_reason@.len() > 0 {
            lemma_text_row_width(
                ctx,
                crate::row::wait_row_text(pane.wait_reason@),
                crate::row::wait_row_color(pane.status, *ctx.theme),
            );
        }
        assert forall|i: int| 0 <= i < n implies line_width(#[trigger] subs[i]) == inner + 3 by {
            lemma_subagent_prefix_width(i as nat, n);
            lemma_subagent_row_width(ctx, pane.subagents@[i]@, i as nat, n);
        }
        let lines = prompt_lines(ctx, pane);
        assert forall|i: int| 0 <= i < pp.len() implies line_width(#[trigger] pp[i]) == inner + 3 by {
            if pane.prompt@.len() > 0 {
                lemma_prompt_row_width(ctx, pane.prompt_is_response, i == 0, lines[i]);
                assert(pp[i] == prompt_row_view(ctx, pane.prompt_is_response, i == 0, lines[i]));
            } else {
                lemma_text_row_width(ctx, idle_hint_text(), emphasis_color(ctx));
            }
        }
        assert forall|i: int| 0 <= i < rows.len() implies line_width(#[trigger] rows[i]) == inner
            + 3 by {
            if i < 1 {
                assert(rows[i] == a[i]);
            } else if i < 1 + b.len() {
                assert(rows[i] == b[i - 1]);
            } else if i < 1 + b.len() + c.len() {
                assert(rows[i] == c[i - 1 - b.len()]);
            } else if i < 1 + b.len() + c.len() + subs.len() {
                assert(rows[i] == subs[i - 1 - b.len() - c.len()]);
            } else if i < 1 + b.len() + c.len() + subs.len() + d.len() {
                assert(rows[i] == d[i - 1 - b.len() - c.len() - subs.len()]);
            } else {
                assert(rows[i] == pp[i - 1 - b.len() - c.len() - subs.len() - d.len()]);
            }
        }
    }
}

/// The texts of the spans of a row, in order.
pub open spec fn span_texts(v: LineView) -> Seq<Seq<char>> {
    v.map_values(|s: (Seq<char>, Style)| s.0)
}

/// Two runs of rows hold as many rows, and row by row the same span texts.
pub open spec fn same_texts(a: Seq<LineView>, b: Seq<LineView>) -> bool {
    &&& a.len() == b.len()
    &&& forall|k: int| 0 <= k < a.len() ==> span_texts(#[trigger] a[k]) == span_texts(b[k])
}

proof fn lemma_texts_eq(a: LineView, b: LineView)
    requires
        a.len() == b.len(),
        forall|i: int| 0 <= i < a.len() ==> (#[trigger] a[i]).0 == b[i].0,
    ensures
        span_texts(a) == span_texts(b),
{
    assert(span_texts(a) =~= span_texts(b));
}

proof fn lemma_texts_concat(a: LineView, b: LineView)
    ensures
        span_texts(a + b) == span_texts(a) + span_texts(b),
{
    assert(span_texts(a + b) =~= span_texts(a) + span_texts(b));
}

proof fn lemma_same_texts_concat(a1: Seq<LineView>, a2: Seq<LineView>, b1: Seq<LineView>, b2: Seq<LineView>)
    requires
        same_texts(a1, a2),
        same_texts(b1, b2),
    ensures
        same_texts(a1 + b1, a2 + b2),
{
    assert forall|k: int| 0 <= k < (a1 + b1).len() implies span_texts(#[trigger] (a1 + b1)[k])
        == span_texts((a2 + b2)[k]) by {
        if k < a1.len() {
            assert((a1 + b1)[k] == a1[k]);
            assert((a2 + b2)[k] == a2[k]);
        } else {
            assert((a1 + b1)[k] == b1[k - a1.len()]);
            assert((a2 + b2)[k] == b2[k - a2.len()]);
        }
    }
}

proof fn lemma_bordered_texts(
    b1: Style,
    g1: Option<Color>,
    b2: Style,
    g2: Option<Color>,
    inner: nat,
    c1: LineView,
    c2: LineView,
    cw: nat,
)
    requires
        span_texts(c1) == span_texts(c2),
    ensures
        span_texts(bordered_view(b1, g1, inner, c1, cw)) == span_texts(
            bordered_view(b2, g2, inner, c2, cw),
        ),
{
    let h1: LineView = seq![(border_text(), b1), (" "@, fill_style(g1))];
    let h2: LineView = seq![(border_text(), b2), (" "@, fill_style(g2))];
    let t1: LineView = seq![(spaces(pad_len(cw, inner)), fill_style(g1)), (border_text(), b1)];
    let t2: LineView = seq![(spaces(pad_len(cw, inner)), fill_style(g2)), (border_text(), b2)];
    lemma_texts_concat(h1, c1);
    lemma_texts_concat(h1 + c1, t1);
    lemma_texts_concat(h2, c2);
    lemma_texts_concat(h2 + c2, t2);
    assert(span_texts(h1) =~= span_texts(h2));
    assert(span_texts(t1) =~= span_texts(t2));
}

proof fn lemma_split_texts(
    b1: Style,
    g1: Option<Color>,
    b2: Style,
    g2: Option<Color>,
    inner: nat,
    l1: LineView,
    l2: LineView,
    lw: nat,
    r1: LineView,
    r2: LineView,
    rw: nat,
)
    requires
        span_texts(l1) == span_texts(l2),
        span_texts(r1) == span_texts(r2),
    ensures
        span_texts(split_view(b1, g1, inner, l1, lw, r1, rw)) == span_texts(
            split_view(b2, g2, inner, l2, lw, r2, rw),
        ),
{
    let h1: LineView = seq![(border_text(), b1), (" "@, fill_style(g1))];
    let h2: LineView = seq![(border_text(), b2), (" "@, fill_style(g2))];
    let m1: LineView = seq![(spaces(pad_len(lw + rw, inner)), fill_style(g1))];
    let m2: LineView = seq![(spaces(pad_len(lw + rw, inner)), fill_style(g2))];
    let e1: LineView = seq![(border_text(), b1)];
    let e2: LineView = seq![(border_text(), b2)];
    assert(split_view(b1, g1, inner, l1, lw, r1, rw) == h1 + l1 + m1 + r1 + e1);
    assert(split_view(b2, g2, inner, l2, lw, r2, rw) == h2 + l2 + m2 + r2 + e2);
    lemma_texts_concat(h1, l1);
    lemma_texts_concat(h1 + l1, m1);
    lemma_texts_concat(h1 + l1 + m1, r1);
    lemma_texts_concat(h1 + l1 + m1 + r1, e1);
    lemma_texts_concat(h2, l2);
    lemma_texts_concat(h2 + l2, m2);
    lemma_texts_concat(h2 + l2 + m2, r2);
    lemma_texts_concat(h2 + l2 + m2 + r2, e2);
    assert(span_texts(h1) =~= span_texts(h2));
    assert(span_texts(m1) =~= span_texts(m2));
    assert(span_texts(e1) =~= span_texts(e2));
}

proof fn lemma_text_row_texts(ctx1: RowCtx, ctx2: RowCtx, text: Seq<char>, c1: Color, c2: Color)
    requires
        ctx1.inner_width == ctx2.inner_width,
    ensures
        span_texts(text_row_view(ctx1, text, c1)) == span_texts(text_row_view(ctx2, text, c2)),
{
    let k1: LineView = seq![(text, text_style(ctx1.selection_bg, c1))];
    let k2: LineView = seq![(text, text_style(ctx2.selection_bg, c2))];
    assert(span_texts(k1) =~= span_texts(k2));
    lemma_bordered_texts(
        ctx1.border_style,
        ctx1.selection_bg,
        ctx2.border_style,
        ctx2.selection_bg,
        ctx1.inner_width as nat,
        k1,
        k2,
        text_width(text),
    );
}

proof fn lemma_opt_texts(o1: Option<LineView>, o2: Option<LineView>)
    requires
        o1 is Some <==> o2 is Some,
        o1 is Some ==> span_texts(o1->0) == span_texts(o2->0),
    ensures
        same_texts(opt_rows(o1), opt_rows(o2)),
{
}

proof fn lemma_status_texts(
    ctx1: RowCtx,
    ctx2: RowCtx,
    pane: PaneInfo,
    icons: StatusIcons,
    f1: nat,
    f2: nat,
    now: u64,
)
    requires
        ctx1.inner_width == ctx2.inner_width,
    ensures
        span_texts(status_view(ctx1, pane, icons, f1, now)) == span_texts(
            status_view(ctx2, pane, icons, f2, now),
        ),
{
    let v1 = status_view(ctx1, pane, icons, f1, now);
    let v2 = status_view(ctx2, pane, icons, f2, now);
    assert forall|i: int| 0 <= i < v1.len() implies (#[trigger] v1[i]).0 == v2[i].0 by {}
    lemma_texts_eq(v1, v2);
}

proof fn lemma_branch_texts(ctx1: RowCtx, ctx2: RowCtx, branch: Seq<char>, ports: Option<Seq<u16>>)
    requires
        ctx1.inner_width == ctx2.inner_width,
    ensures
        same_texts(
            opt_rows(branch_ports_view(ctx1, branch, ports)),
            opt_rows(branch_ports_view(ctx2, branch, ports)),
        ),
{
    let pt = port_text(ports);
    if !(branch.len() == 0 && pt is None) {
        let right_text = match pt {
            Some(t) => t,
            None => Seq::empty(),
        };
        let right_width = if right_text.len() == 0 {
            0
        } else {
            text_width("  "@) + text_width(right_text)
        };
        let left_room = sat_sub(ctx1.inner_width as nat, right_width);
        let left_text = "  "@ + truncated(branch, sat_sub(left_room, text_width("  "@)));
        let left_width: nat = if branch.len() == 0 {
            0
        } else {
            text_width(left_text)
        };
        let l1: LineView = if branch.len() == 0 {
            Seq::empty()
        } else {
            seq![(left_text, text_style(ctx1.selection_bg, ctx1.theme.branch))]
        };
        let l2: LineView = if branch.len() == 0 {
            Seq::empty()
        } else {
            seq![(left_text, text_style(ctx2.selection_bg, ctx2.theme.branch))]
        };
        let r1: LineView = if right_text.len() == 0 {
            Seq::empty()
        } else {
            seq![("  "@ + right_text, text_style(ctx1.selection_bg, ctx1.theme.port))]
        };
        let r2: LineView = if right_text.len() == 0 {
            Seq::empty()
        } else {
            seq![("  "@ + right_text, text_style(ctx2.selection_bg, ctx2.theme.port))]
        };
        assert(span_texts(l1) =~= span_texts(l2));
        assert(span_texts(r1) =~= span_texts(r2));
        lemma_split_texts(
            ctx1.border_style,
            ctx1.selection_bg,
            ctx2.border_style,
            ctx2.selection_bg,
            ctx1.inner_width as nat,
            l1,
            l2,
            left_width,
            r1,
            r2,
            right_width,
        );
    }
    lemma_opt_texts(branch_ports_view(ctx1, branch, ports), branch_ports_view(ctx2, branch, ports));
}

proof fn lemma_subagent_texts(ctx1: RowCtx, ctx2: RowCtx, name: Seq<char>, i: nat, n: nat)
    requires
        ctx1.inner_width == ctx2.inner_width,
    ensures
        span_texts(subagent_view(ctx1, name, i, n)) == span_texts(subagent_view(ctx2, name, i, n)),
{
    let prefix = subagent_prefix(i, n);
    let shown = truncated(
        crate::row::numbered_name(name, i),
        sat_sub(ctx1.inner_width as nat, text_width(prefix)),
    );
    let k1: LineView = seq![
        (prefix, text_style(ctx1.selection_bg, ctx1.theme.text_muted)),
        (shown, text_style(ctx1.selection_bg, ctx1.theme.subagent)),
    ];
    let k2: LineView = seq![
        (prefix, text_style(ctx2.selection_bg, ctx2.theme.text_muted)),
        (shown, text_style(ctx2.selection_bg, ctx2.theme.subagent)),
    ];
    assert(span_texts(k1) =~= span_texts(k2));
    lemma_bordered_texts(
        ctx1.border_style,
        ctx1.selection_bg,
        ctx2.border_style,
        ctx2.selection_bg,
        ctx1.inner_width as nat,
        k1,
        k2,
        text_width(prefix) + text_width(shown),
    );
}

proof fn lemma_prompt_row_texts(ctx1: RowCtx, ctx2: RowCtx, is_response: bool, first: bool, line: Seq<char>)
    requires
        ctx1.inner_width == ctx2.inner_width,
    ensures
        span_texts(prompt_row_view(ctx1, is_response, first, line)) == span_texts(
            prompt_row_view(ctx2, is_response, first, line),
        ),
{
    if is_response && first {
        let k1: LineView = seq![
            (
                arrow_text(),
                crate::row::bg_applied(
                    ctx1.selection_bg,
                    crate::style::with_modifier(
                        crate::style::with_fg(crate::style::plain_style(), ctx1.theme.response_arrow),
                        crate::style::Modifier { bits: 1 },
                    ),
                ),
            ),
            (line, text_style(ctx1.selection_bg, emphasis_color(ctx1))),
        ];
        let k2: LineView = seq![
            (
                arrow_text(),
                crate::row::bg_applied(
                    ctx2.selection_bg,
                    crate::style::with_modifier(
                        crate::style::with_fg(crate::style::plain_style(), ctx2.theme.response_arrow),
                        crate::style::Modifier { bits: 1 },
                    ),
                ),
            ),
            (line, text_style(ctx2.selection_bg, emphasis_color(ctx2))),
        ];
        assert(span_texts(k1) =~= span_texts(k2));
        lemma_bordered_texts(
            ctx1.border_style,
            ctx1.selection_bg,
            ctx2.border_style,
            ctx2.selection_bg,
            ctx1.inner_width as nat,
            k1,
            k2,
            4 + text_width(line),
        );
    } else {
        let indent = if is_response {
            "    "@
        } else {
            "  "@
        };
        lemma_text_row_texts(ctx1, ctx2, indent + line, emphasis_color(ctx1), emphasis_color(ctx2));
    }
}

proof fn lemma_card_texts(
    ctx1: RowCtx,
    ctx2: RowCtx,
    pane: PaneInfo,
    git_info: PaneGitInfo,
    ports: Option<Seq<u16>>,
    tasks: Option<Seq<(String, TaskStatus)>>,
    icons: StatusIcons,
    f1: nat,
    f2: nat,
    now: u64,
)
    requires
        ctx1.inner_width == ctx2.inner_width,
    ensures
        same_texts(
            pane_lines_view(ctx1, pane, git_info, ports, tasks, icons, f1, now),
            pane_lines_view(ctx2, pane, git_info, ports, tasks, icons, f2, now),
        ),
{
    let branch = crate::pane::branch_text(git_info);
    lemma_status_texts(ctx1, ctx2, pane, icons, f1, f2, now);
    let a1 = seq![status_view(ctx1, pane, icons, f1, now)];
    let a2 = seq![status_view(ctx2, pane, icons, f2, now)];
    assert(same_texts(a1, a2));
    lemma_branch_texts(ctx1, ctx2, branch, ports);
    let b1 = opt_rows(branch_ports_view(ctx1, branch, ports));
    let b2 = opt_rows(branch_ports_view(ctx2, branch, ports));
    if let Some(t) = tasks {
        if t.len() > 0 {
            lemma_text_row_texts(
                ctx1,
                ctx2,
                crate::row::task_summary(t),
                ctx1.theme.task_progress,
                ctx2.theme.task_progress,
            );
        }
    }
    lemma_opt_texts(task_progress_view(ctx1, tasks), task_progress_view(ctx2, tasks));
    let c1 = opt_rows(task_progress_view(ctx1, tasks));
    let c2 = opt_rows(task_progress_view(ctx2, tasks));
    let n = pane.subagents@.len();
    let s1 = Seq::new(n, |i: int| subagent_view(ctx1, pane.subagents@[i]@, i as nat, n));
    let s2 = Seq::new(n, |i: int| subagent_view(ctx2, pane.subagents@[i]@, i as nat, n));
    assert forall|k: int| 0 <= k < s1.len() implies span_texts(#[trigger] s1[k]) == span_texts(
        s2[k],
    ) by {
        lemma_subagent_texts(ctx1, ctx2, pane.subagents@[k]@, k as nat, n);
    }
    assert(same_texts(s1, s2));
    if pane.wait_reason@.len() > 0 {
        lemma_text_row_texts(
            ctx1,
            ctx2,
            crate::row::wait_row_text(pane.wait_reason@),
            crate::row::wait_row_color(pane.status, *ctx1.theme),
            crate::row::wait_row_color(pane.status, *ctx2.theme),
        );
    }
    lemma_opt_texts(
        wait_reason_view(ctx1, pane.wait_reason@, pane.status),
        wait_reason_view(ctx2, pane.wait_reason@, pane.status),
    );
    let d1 = opt_rows(wait_reason_view(ctx1, pane.wait_reason@, pane.status));
    let d2 = opt_rows(wait_reason_view(ctx2, pane.wait_reason@, pane.status));
    let p1 = prompt_part(ctx1, pane);
    let p2 = prompt_part(ctx2, pane);
    assert(prompt_lines(ctx1, pane) == prompt_lines(ctx2, pane));
    assert forall|k: int| 0 <= k < p1.len() implies span_texts(#[trigger] p1[k]) == span_texts(
        p2[k],
    ) by {
        if pane.prompt@.len() > 0 {
            let lines = prompt_lines(ctx1, pane);
            lemma_prompt_row_texts(ctx1, ctx2, pane.prompt_is_response, k == 0, lines[k]);
        } else {
            lemma_text_row_texts(
                ctx1,
                ctx2,
                idle_hint_text(),
                emphasis_color(ctx1),
                emphasis_color(ctx2),
            );
        }
    }
    assert(same_texts(p1, p2));
    lemma_same_texts_concat(a1, a2, b1, b2);
    lemma_same_texts_concat(a1 + b1, a2 + b2, c1, c2);
    lemma_same_texts_concat(a1 + b1 + c1, a2 + b2 + c2, s1, s2);
    lemma_same_texts_concat(a1 + b1 + c1 + s1, a2 + b2 + c2 + s2, d1, d2);
    lemma_same_texts_concat(a1 + b1 + c1 + s1 + d1, a2 + b2 + c2 + s2 + d2, p1, p2);
    assert(pane_lines_view(ctx1, pane, git_info, ports, tasks, icons, f1, now) == a1 + b1 + c1 + s1
        + d1 + p1);
    assert(pane_lines_view(ctx2, pane, git_info, ports, tasks, icons, f2, now) == a2 + b2 + c2 + s2
        + d2 + p2);
}

/// Selection, activity, border color, theme and spinner frame only style a
/// card: two cards of one pane at one width hold as many rows, and row by
/// row the same span texts, whatever those five are.
pub proof fn lemma_card_texts_ignore_styling(
    theme1: &ColorTheme,
    selected1: bool,
    active1: bool,
    border1: Color,
    frame1: nat,
    theme2: &ColorTheme,
    selected2: bool,
    active2: bool,
    border2: Color,
    frame2: nat,
    width: usize,
    pane: PaneInfo,
    git_info: PaneGitInfo,
    ports: Option<Seq<u16>>,
    tasks: Option<Seq<(String, TaskStatus)>>,
    icons: StatusIcons,
    now: u64,
)
    ensures
        same_texts(
            pane_lines_view(
                card_ctx(theme1, selected1, active1, border1, width),
                pane,
                git_info,
                ports,
                tasks,
                icons,
                frame1,
                now,
            ),
            pane_lines_view(
                card_ctx(theme2, selected2, active2, border2, width),
                pane,
                git_info,
                ports,
                tasks,
                icons,
                frame2,
                now,
            ),
        ),
{
    lemma_card_texts(
        card_ctx(theme1, selected1, active1, border1, width),
        card_ctx(theme2, selected2, active2, border2, width),
        pane,
        git_info,
        ports,
        tasks,
        icons,
        frame1,
        frame2,
        now,
    );
}

} // verus!
