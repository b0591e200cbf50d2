//! The rows of a pane card, each framed by the sidebar's border.

use vstd::prelude::*;
use crate::pane::{
    agent_label, badge_text, branch_label, branch_text, completed_in, task_states, PaneGitInfo,
    PaneInfo, PaneStatus, PermissionMode, TaskProgress, TaskStatus,
};
use crate::style::{
    line_views, plain_style, span_views, with_bg, with_fg, with_modifier, Color, Line, Modifier,
    Span, Style,
};
use crate::text::{
    concat_text, contains_char, decimal, decimal_string, elapsed_label, elapsed_text,
    lemma_decimal_len, lemma_decimal_len_u16, lemma_elapsed_text_len, push_char, wait_label_text,
    wait_reason_label,
};
use crate::theme::{
    agent_color_of, spinner_pulse, spinner_pulse_at, status_color_of, status_icon_of, ColorTheme,
    StatusIcons, SPINNER_PULSE_LEN,
};
use crate::wrap::{
    char_wrap, lemma_char_wrap_lines, lemma_word_wrap_lines, lemma_words_len, string_views,
    word_wrap, words_of, wrap_text, wrap_text_char,
};
use crate::card::{
    card_has_room, lemma_bordered_width, lemma_branch_row_width, lemma_card_width,
    lemma_prompt_row_width, lemma_split_width, lemma_status_row_width, lemma_subagent_prefix_width,
    lemma_subagent_row_width, lemma_text_row_width, line_width, ports_room,
};
use crate::width::{
    measure_layout_glyphs, display_width, fits_limit, pad_len, pad_to, spaces, text_limit, text_width, truncate_to_width,
    truncated,
};

verus! {

/// What every row of one pane card shares: the border style, the width
/// between the borders, the theme, the background of a selected card and
/// whether the pane is the active one.
pub struct RowCtx<'a> {
    pub border_style: Style,
    pub inner_width: usize,
    pub theme: &'a ColorTheme,
    /// Background of every cell inside the borders when the card is
    /// selected; `None` leaves the background as it is.
    pub selection_bg: Option<Color>,
    pub active: bool,
}

/// `s` with the card's selection background, if any.
pub open spec fn bg_applied(selection_bg: Option<Color>, s: Style) -> Style {
    match selection_bg {
        Some(c) => with_bg(s, c),
        None => s,
    }
}

/// The style of text drawn in color `c` inside the card.
pub open spec fn text_style(selection_bg: Option<Color>, c: Color) -> Style {
    bg_applied(selection_bg, with_fg(plain_style(), c))
}

/// The style of blank cells inside the card.
pub open spec fn fill_style(selection_bg: Option<Color>) -> Style {
    bg_applied(selection_bg, plain_style())
}

impl<'a> RowCtx<'a> {
    /// `s` with the card's selection background, if any.
    pub fn apply_bg(&self, s: Style) -> (r: Style)
        ensures
            r == bg_applied(self.selection_bg, s),
    {
        match self.selection_bg {
            Some(c) => s.bg(c),
            None => s,
        }
    }
}

/// The spans of one row, as (text, style) pairs.
pub type LineView = Seq<(Seq<char>, Style)>;

/// The vertical border character.
pub open spec fn border_text() -> Seq<char> {
    "\u{2502}"@
}

/// A row: border, one blank cell, the content, blank cells padding the
/// content (of width `content_width`) out to `inner_width`, and the closing
/// border.
pub open spec fn bordered_view(
    border_style: Style,
    selection_bg: Option<Color>,
    inner_width: nat,
    content: LineView,
    content_width: nat,
) -> LineView {
    seq![(border_text(), border_style), (" "@, fill_style(selection_bg))] + content + seq![
        (spaces(pad_len(content_width, inner_width)), fill_style(selection_bg)),
        (border_text(), border_style),
    ]
}

/// A row: like `bordered_view`, with `left` content at the left edge and
/// `right` content pushed against the right border.
pub open spec fn split_view(
    border_style: Style,
    selection_bg: Option<Color>,
    inner_width: nat,
    left: LineView,
    left_width: nat,
    right: LineView,
    right_width: nat,
) -> LineView {
    seq![(border_text(), border_style), (" "@, fill_style(selection_bg))] + left + seq![
        (spaces(pad_len(left_width + right_width, inner_width)), fill_style(selection_bg)),
    ] + right + seq![(border_text(), border_style)]
}

fn border_span(style: Style) -> (s: Span)
    ensures
        s@ == (border_text(), style),
{
    Span::styled("\u{2502}".to_owned(), style)
}

/// A row holding `content_spans` (of width `content_width`) between the
/// borders, padded out to `inner_width`.
pub fn bordered_line(
    border_style: Style,
    selection_bg: Option<Color>,
    inner_width: usize,
    content_spans: Vec<Span>,
    content_width: usize,
) -> (l: Line)
    ensures
        l@ == bordered_view(
            border_style,
            selection_bg,
            inner_width as nat,
            span_views(content_spans@),
            content_width as nat,
        ),
        line_width(l@) == 3 + line_width(span_views(content_spans@)) + pad_len(
            content_width as nat,
            inner_width as nat,
        ),
{
    measure_layout_glyphs();
    proof {
        lemma_bordered_width(
            border_style,
            selection_bg,
            inner_width as nat,
            span_views(content_spans@),
            content_width as nat,
        );
    }
    let fill = match selection_bg {
        Some(c) => Style::default().bg(c),
        None => Style::default(),
    };
    let padding = pad_to(content_width, inner_width);
    let mut content_spans = content_spans;
    let ghost content = content_spans@;
    let mut spans: Vec<Span> = Vec::new();
    spans.push(border_span(border_style));
    spans.push(Span::styled(" ".to_owned(), fill));
    spans.append(&mut content_spans);
    spans.push(Span::styled(padding, fill));
    spans.push(border_span(border_style));
    let l = Line::from_spans(spans);
    assert(l@ =~= bordered_view(
        border_style,
        selection_bg,
        inner_width as nat,
        span_views(content),
        content_width as nat,
    ));
    l
}

/// A row with `left_spans` (of width `left_width`) at the left edge and
/// `right_spans` (of width `right_width`) against the right border.
pub fn bordered_split_line(
    border_style: Style,
    selection_bg: Option<Color>,
    inner_width: usize,
    left_spans: Vec<Span>,
    left_width: usize,
    right_spans: Vec<Span>,
    right_width: usize,
) -> (l: Line)
    requires
        left_width + right_width <= usize::MAX,
    ensures
        l@ == split_view(
            border_style,
            selection_bg,
            inner_width as nat,
            span_views(left_spans@),
            left_width as nat,
            span_views(right_spans@),
            right_width as nat,
        ),
        line_width(l@) == 3 + line_width(span_views(left_spans@)) + line_width(
            span_views(right_spans@),
        ) + pad_len((left_width + right_width) as nat, inner_width as nat),
{
    measure_layout_glyphs();
    proof {
        lemma_split_width(
            border_style,
            selection_bg,
            inner_width as nat,
            span_views(left_spans@),
            left_width as nat,
            span_views(right_spans@),
            right_width as nat,
        );
    }
    let fill = match selection_bg {
        Some(c) => Style::default().bg(c),
        None => Style::default(),
    };
    let padding = pad_to(left_width + right_width, inner_width);
    let mut left_spans = left_spans;
    let mut right_spans = right_spans;
    let ghost left = left_spans@;
    let ghost right = right_spans@;
    let mut spans: Vec<Span> = Vec::new();
    spans.push(border_span(border_style));
    spans.push(Span::styled(" ".to_owned(), fill));
    spans.append(&mut left_spans);
    spans.push(Span::styled(padding, fill));
    spans.append(&mut right_spans);
    spans.push(border_span(border_style));
    let l = Line::from_spans(spans);
    assert(l@ =~= split_view(
        border_style,
        selection_bg,
        inner_width as nat,
        span_views(left),
        left_width as nat,
        span_views(right),
        right_width as nat,
    ));
    l
}

fn text_span(ctx: &RowCtx, text: String, c: Color) -> (s: Span)
    ensures
        s@ == (text@, text_style(ctx.selection_bg, c)),
{
    Span::styled(text, ctx.apply_bg(Style::default().fg(c)))
}

/// Color of text that is brighter on the active pane.
pub open spec fn emphasis_color(ctx: RowCtx) -> Color {
    if ctx.active {
        ctx.theme.text_active
    } else {
        ctx.theme.text_muted
    }
}

/// A row holding the single text `text` in color `c`.
pub open spec fn text_row_view(ctx: RowCtx, text: Seq<char>, c: Color) -> LineView {
    bordered_view(
        ctx.border_style,
        ctx.selection_bg,
        ctx.inner_width as nat,
        seq![(text, text_style(ctx.selection_bg, c))],
        text_width(text),
    )
}

/// Text of the hint shown for an idle pane without a prompt.
pub open spec fn idle_hint_text() -> Seq<char> {
    "  Waiting for prompt\u{2026}"@
}

/// The hint row shown for an idle pane that has no prompt to show.
pub fn idle_hint_row(ctx: &RowCtx) -> (l: Line)
    ensures
        l@ == text_row_view(*ctx, idle_hint_text(), emphasis_color(*ctx)),
        text_width(idle_hint_text()) <= ctx.inner_width ==> line_width(l@) == ctx.inner_width + 3,
{
    measure_layout_glyphs();
    proof {
        lemma_text_row_width(*ctx, idle_hint_text(), emphasis_color(*ctx));
    }
    let text = "  Waiting for prompt\u{2026}";
    proof {
        reveal_strlit("  Waiting for prompt\u{2026}");
    }
    let text_dw = display_width(text);
    let idle_color = if ctx.active {
        ctx.theme.text_active
    } else {
        ctx.theme.text_muted
    };
    let mut content: Vec<Span> = Vec::new();
    content.push(text_span(ctx, text.to_owned(), idle_color));
    let l = bordered_line(ctx.border_style, ctx.selection_bg, ctx.inner_width, content, text_dw);
    assert(span_views(content@) =~= seq![(idle_hint_text(), text_style(ctx.selection_bg, idle_color))]);
    l
}

/// Text of the row stating why an agent waits.
pub open spec fn wait_row_text(reason: Seq<char>) -> Seq<char> {
    "  "@ + wait_label_text(reason)
}

/// Color of the wait reason: the error color when the pane is in error.
pub open spec fn wait_row_color(status: PaneStatus, theme: ColorTheme) -> Color {
    if status == PaneStatus::Error {
        theme.status_error
    } else {
        theme.wait_reason
    }
}

/// The row stating why the agent waits; none when there is no reason.
pub open spec fn wait_reason_view(ctx: RowCtx, reason: Seq<char>, status: PaneStatus) -> Option<
    LineView,
> {
    if reason.len() == 0 {
        None
    } else {
        Some(text_row_view(ctx, wait_row_text(reason), wait_row_color(status, *ctx.theme)))
    }
}

/// The view of a line, if there is one.
pub open spec fn line_option_view(l: Option<Line>) -> Option<LineView> {
    match l {
        Some(l) => Some(l@),
        None => None,
    }
}

/// The row stating why the agent waits; none when there is no reason.
pub fn wait_reason_row(wait_reason: &str, status: &PaneStatus, ctx: &RowCtx) -> (r: Option<Line>)
    requires
        fits_limit(wait_reason@),
    ensures
        line_option_view(r) == wait_reason_view(*ctx, wait_reason@, *status),
        r matches Some(l) ==> (text_width(wait_row_text(wait_reason@)) <= ctx.inner_width
            ==> line_width(l@) == ctx.inner_width + 3),
{
    measure_layout_glyphs();
    proof {
        lemma_text_row_width(*ctx, wait_row_text(wait_reason@), wait_row_color(*status, *ctx.theme));
    }
    if wait_reason.is_empty() {
        return None;
    }
    let reason = wait_reason_label(wait_reason);
    proof {
        reveal_strlit("  ");
        reveal_strlit("permission required");
    }
    let text = concat_text("  ", reason.as_str());
    let text_dw = display_width(text.as_str());
    let reason_color = if *status == PaneStatus::Error {
        ctx.theme.status_error
    } else {
        ctx.theme.wait_reason
    };
    let mut content: Vec<Span> = Vec::new();
    let ghost t = text@;
    content.push(text_span(ctx, text, reason_color));
    let l = bordered_line(ctx.border_style, ctx.selection_bg, ctx.inner_width, content, text_dw);
    assert(span_views(content@) =~= seq![(t, text_style(ctx.selection_bg, reason_color))]);
    Some(l)
}

/// The mark drawn for a task in the given state.
pub open spec fn task_mark(s: TaskStatus) -> char {
    match s {
        TaskStatus::Completed => '\u{2714}',
        TaskStatus::InProgress => '\u{25fc}',
        TaskStatus::Pending => '\u{25fb}',
    }
}

/// One mark per task, in order.
pub open spec fn task_marks(states: Seq<TaskStatus>) -> Seq<char> {
    states.map_values(|s: TaskStatus| task_mark(s))
}

/// Text of the task row: the marks, then `completed/total`.
pub open spec fn task_summary(tasks: Seq<(String, TaskStatus)>) -> Seq<char> {
    seq![' ', ' '] + task_marks(task_states(tasks)) + seq![' '] + decimal(
        completed_in(task_states(tasks)),
    ) + seq!['/'] + decimal(tasks.len())
}

/// The tasks of a task list, when there is one.
pub open spec fn task_list(p: Option<&TaskProgress>) -> Option<Seq<(String, TaskStatus)>> {
    match p {
        Some(p) => Some(p.tasks@),
        None => None,
    }
}

/// The task-progress row; none without a task list or with an empty one.
pub open spec fn task_progress_view(ctx: RowCtx, tasks: Option<Seq<(String, TaskStatus)>>) -> Option<
    LineView,
> {
    match tasks {
        Some(t) => if t.len() == 0 {
            None
        } else {
            Some(text_row_view(ctx, task_summary(t), ctx.theme.task_progress))
        },
        None => None,
    }
}

/// The task-progress row; none without a task list or with an empty one.
pub fn task_progress_row(task_progress: Option<&TaskProgress>, ctx: &RowCtx) -> (r: Option<Line>)
    requires
        task_progress matches Some(p) ==> p.tasks@.len() <= text_limit(),
    ensures
        line_option_view(r) == task_progress_view(*ctx, task_list(task_progress)),
        r matches Some(l) ==> (text_width(task_summary(task_progress.unwrap().tasks@))
            <= ctx.inner_width ==> line_width(l@) == ctx.inner_width + 3),
{
    measure_layout_glyphs();
    proof {
        if let Some(p) = task_progress {
            lemma_text_row_width(*ctx, task_summary(p.tasks@), ctx.theme.task_progress);
        }
    }
    let progress = match task_progress {
        Some(p) => p,
        None => return None,
    };
    if progress.is_empty() {
        return None;
    }
    let n = progress.tasks.len();
    let mut summary = String::new();
    push_char(&mut summary, ' ');
    push_char(&mut summary, ' ');
    let ghost states = task_states(progress.tasks@);
    let mut i: usize = 0;
    while i < n
        invariant
            n == progress.tasks@.len(),
            states == task_states(progress.tasks@),
            i <= n,
            summary@ == seq![' ', ' '] + task_marks(states.take(i as int)),
        decreases n - i,
    {
        let ch = match progress.tasks[i].1 {
            TaskStatus::Completed => '\u{2714}',
            TaskStatus::InProgress => '\u{25fc}',
            TaskStatus::Pending => '\u{25fb}',
        };
        push_char(&mut summary, ch);
        assert(task_marks(states.take(i + 1)) =~= task_marks(states.take(i as int)).push(ch));
        i = i + 1;
    }
    assert(states.take(n as int) =~= states);
    push_char(&mut summary, ' ');
    let done = decimal_string(progress.completed_count() as u64);
    let total = decimal_string(progress.total() as u64);
    let mut summary = concat_text(summary.as_str(), done.as_str());
    push_char(&mut summary, '/');
    let summary = concat_text(summary.as_str(), total.as_str());
    proof {
        lemma_decimal_len(completed_in(states));
        lemma_decimal_len(n as nat);
    }
    assert(summary@ =~= task_summary(progress.tasks@));
    let summary_dw = display_width(summary.as_str());
    let ghost t = summary@;
    let mut content: Vec<Span> = Vec::new();
    content.push(text_span(ctx, summary, ctx.theme.task_progress));
    let l = bordered_line(ctx.border_style, ctx.selection_bg, ctx.inner_width, content, summary_dw);
    assert(span_views(content@) =~= seq![(t, text_style(ctx.selection_bg, ctx.theme.task_progress))]);
    Some(l)
}

/// `a - b`, or zero when `b` exceeds `a`.
pub open spec fn sat_sub(a: nat, b: nat) -> nat {
    if a >= b {
        (a - b) as nat
    } else {
        0
    }
}

/// Connector drawn before the `i`-th of `n` sub-agents: a corner for the
/// last one, a tee for the others.
pub open spec fn connector_text(i: nat, n: nat) -> Seq<char> {
    if i + 1 == n {
        "\u{2514} "@
    } else {
        "\u{251c} "@
    }
}

/// Indentation and connector of the `i`-th of `n` sub-agent rows.
pub open spec fn subagent_prefix(i: nat, n: nat) -> Seq<char> {
    "  "@ + connector_text(i, n)
}

/// Name shown for the `i`-th sub-agent (counting from zero): numbered
/// `#i+1` unless its name already holds a `#`.
pub open spec fn numbered_name(name: Seq<char>, i: nat) -> Seq<char> {
    if name.contains('#') {
        name
    } else {
        name + " #"@ + decimal(i + 1)
    }
}

/// The row of the `i`-th of `n` sub-agents named `name`: the tree connector
/// and the numbered name, cut to the room left of the connector.
pub open spec fn subagent_view(ctx: RowCtx, name: Seq<char>, i: nat, n: nat) -> LineView {
    let prefix = subagent_prefix(i, n);
    let shown = truncated(numbered_name(name, i), sat_sub(ctx.inner_width as nat, text_width(prefix)));
    bordered_view(
        ctx.border_style,
        ctx.selection_bg,
        ctx.inner_width as nat,
        seq![
            (prefix, text_style(ctx.selection_bg, ctx.theme.text_muted)),
            (shown, text_style(ctx.selection_bg, ctx.theme.subagent)),
        ],
        text_width(prefix) + text_width(shown),
    )
}

fn subagent_row(ctx: &RowCtx, name: &str, i: usize, n: usize) -> (l: Line)
    requires
        fits_limit(name@),
        i < n,
    ensures
        l@ == subagent_view(*ctx, name@, i as nat, n as nat),
{
    proof {
        reveal_strlit("  ");
        reveal_strlit("\u{2514} ");
        reveal_strlit("\u{251c} ");
        reveal_strlit(" #");
        lemma_decimal_len(i as nat + 1);
    }
    let connector = if i + 1 == n {
        "\u{2514} "
    } else {
        "\u{251c} "
    };
    let numbered = if contains_char(name, '#') {
        name.to_owned()
    } else {
        let tail = decimal_string((i + 1) as u64);
        let with_hash = concat_text(name, " #");
        concat_text(with_hash.as_str(), tail.as_str())
    };
    let prefix = concat_text("  ", connector);
    let prefix_dw = display_width(prefix.as_str());
    let max_sa_w = ctx.inner_width.saturating_sub(prefix_dw);
    let shown = truncate_to_width(numbered.as_str(), max_sa_w);
    let shown_dw = display_width(shown.as_str());
    let text_dw = prefix_dw + shown_dw;
    let ghost p = prefix@;
    let ghost t = shown@;
    let mut content: Vec<Span> = Vec::new();
    content.push(text_span(ctx, prefix, ctx.theme.text_muted));
    content.push(text_span(ctx, shown, ctx.theme.subagent));
    let l = bordered_line(ctx.border_style, ctx.selection_bg, ctx.inner_width, content, text_dw);
    assert(span_views(content@) =~= seq![
        (p, text_style(ctx.selection_bg, ctx.theme.text_muted)),
        (t, text_style(ctx.selection_bg, ctx.theme.subagent)),
    ]);
    l
}

/// One row per sub-agent, drawn as a tree under the status row.
pub fn subagent_rows(subagents: &[String], ctx: &RowCtx) -> (rows: Vec<Line>)
    requires
        forall|i: int| 0 <= i < subagents@.len() ==> fits_limit(#[trigger] subagents@[i]@),
    ensures
        rows@.len() == subagents@.len(),
        forall|i: int|
            0 <= i < subagents@.len() ==> (#[trigger] rows@[i])@ == subagent_view(
                *ctx,
                subagents@[i]@,
                i as nat,
                subagents@.len(),
            ),
        forall|i: int|
            0 <= i < subagents@.len() ==> text_width(
                #[trigger] subagent_prefix(i as nat, subagents@.len()),
            ) == 4,
        ctx.inner_width >= 4 ==> forall|i: int|
            0 <= i < subagents@.len() ==> line_width((#[trigger] rows@[i])@) == ctx.inner_width
                + 3,
{
    measure_layout_glyphs();
    let mut out: Vec<Line> = Vec::new();
    let n = subagents.len();
    let mut i: usize = 0;
    while i < n
        invariant
            n == subagents@.len(),
            i <= n,
            out@.len() == i,
            forall|j: int| 0 <= j < subagents@.len() ==> fits_limit(#[trigger] subagents@[j]@),
            forall|j: int|
                0 <= j < i ==> (#[trigger] out@[j])@ == subagent_view(
                    *ctx,
                    subagents@[j]@,
                    j as nat,
                    n as nat,
                ),
        decreases n - i,
    {
        let row = subagent_row(ctx, subagents[i].as_str(), i, n);
        out.push(row);
        i = i + 1;
    }
    assert forall|i: int| 0 <= i < subagents@.len() implies text_width(
        #[trigger] subagent_prefix(i as nat, subagents@.len()),
    ) == 4 by {
        lemma_subagent_prefix_width(i as nat, subagents@.len());
    }
    assert forall|i: int| ctx.inner_width >= 4 && 0 <= i < subagents@.len() implies line_width(
        (#[trigger] out@[i])@,
    ) == ctx.inner_width + 3 by {
        lemma_subagent_prefix_width(i as nat, subagents@.len());
        lemma_subagent_row_width(*ctx, subagents@[i]@, i as nat, subagents@.len());
    }
    out
}

/// The ports list: the ports in decimal, separated by `, `.
pub open spec fn port_list_text(ports: Seq<u16>) -> Seq<char>
    decreases ports.len(),
{
    if ports.len() == 0 {
        Seq::empty()
    } else if ports.len() == 1 {
        decimal(ports[0] as nat)
    } else {
        port_list_text(ports.drop_last()) + ", "@ + decimal(ports.last() as nat)
    }
}

/// The ports text (`:` and the list), present only for a non-empty list.
pub open spec fn port_text(ports: Option<Seq<u16>>) -> Option<Seq<char>> {
    match ports {
        Some(ps) => if ps.len() > 0 {
            Some(":"@ + port_list_text(ps))
        } else {
            None
        },
        None => None,
    }
}

/// The ports as a sequence, when there are any.
pub open spec fn ports_seq(ports: Option<&[u16]>) -> Option<Seq<u16>> {
    match ports {
        Some(p) => Some(p@),
        None => None,
    }
}

/// The branch and ports row: the branch at the left, cut to leave room for
/// the ports text against the right border; none when there is neither a
/// branch nor a port.
pub open spec fn branch_ports_view(ctx: RowCtx, branch: Seq<char>, ports: Option<Seq<u16>>) -> Option<
    LineView,
> {
    let pt = port_text(ports);
    if branch.len() == 0 && pt is None {
        None
    } else {
        let right_text = match pt {
            Some(t) => t,
            None => Seq::empty(),
        };
        let right_width = if right_text.len() == 0 {
            0
        } else {
            text_width("  "@) + text_width(right_text)
        };
        let left_room = sat_sub(ctx.inner_width as nat, right_width);
        let left_text = "  "@ + truncated(branch, sat_sub(left_room, text_width("  "@)));
        let left = if branch.len() == 0 {
            Seq::empty()
        } else {
            seq![(left_text, text_style(ctx.selection_bg, ctx.theme.branch))]
        };
        let left_width = if branch.len() == 0 {
            0
        } else {
            text_width(left_text)
        };
        let right = if right_text.len() == 0 {
            Seq::empty()
        } else {
            seq![("  "@ + right_text, text_style(ctx.selection_bg, ctx.theme.port))]
        };
        Some(
            split_view(
                ctx.border_style,
                ctx.selection_bg,
                ctx.inner_width as nat,
                left,
                left_width,
                right,
                right_width,
            ),
        )
    }
}

fn port_list(ports: &[u16]) -> (r: String)
    requires
        ports@.len() <= text_limit(),
    ensures
        r@ == port_list_text(ports@),
        r@.len() <= 7 * ports@.len(),
{
    let n = ports.len();
    let mut out = String::new();
    let mut i: usize = 0;
    while i < n
        invariant
            n == ports@.len(),
            n <= text_limit(),
            i <= n,
            out@ == port_list_text(ports@.take(i as int)),
            out@.len() <= 7 * i,
        decreases n - i,
    {
        proof {
            lemma_decimal_len_u16(ports@[i as int]);
            reveal_strlit(", ");
        }
        let digits = decimal_string(ports[i] as u64);
        if i > 0 {
            out = concat_text(out.as_str(), ", ");
        }
        out = concat_text(out.as_str(), digits.as_str());
        assert(ports@.take(i + 1).drop_last() =~= ports@.take(i as int));
        i = i + 1;
    }
    assert(ports@.take(n as int) =~= ports@);
    out
}

/// The row with the pane's branch and listening ports; none when it has
/// neither.
pub fn branch_ports_row(git_info: &PaneGitInfo, ports: Option<&[u16]>, ctx: &RowCtx) -> (r: Option<
    Line,
>)
    requires
        fits_limit(branch_text(*git_info)),
        ports matches Some(p) ==> p@.len() <= text_limit(),
    ensures
        line_option_view(r) == branch_ports_view(*ctx, branch_text(*git_info), ports_seq(ports)),
        ports_room(ports_seq(ports)) + 2 <= ctx.inner_width ==> (r matches Some(l) ==> line_width(
            l@,
        ) == ctx.inner_width + 3),
{
    measure_layout_glyphs();
    proof {
        lemma_branch_row_width(*ctx, branch_text(*git_info), ports_seq(ports));
    }
    let branch = branch_label(git_info);
    let port_text: Option<String> = match ports {
        Some(ps) => if ps.len() == 0 {
            None
        } else {
            let list = port_list(ps);
            Some(concat_text(":", list.as_str()))
        },
        None => None,
    };
    if branch.as_str().is_empty() && port_text.is_none() {
        return None;
    }
    proof {
        reveal_strlit("  ");
        reveal_strlit(":");
    }
    let left_prefix = "  ";
    let right_prefix = "  ";
    let right_text = match port_text {
        Some(t) => t,
        None => String::new(),
    };
    let right_width = if right_text.as_str().is_empty() {
        0
    } else {
        display_width(right_prefix) + display_width(right_text.as_str())
    };
    let left_room = ctx.inner_width.saturating_sub(right_width);
    let max_branch_width = left_room.saturating_sub(display_width(left_prefix));
    let truncated_branch = truncate_to_width(branch.as_str(), max_branch_width);
    let left_text = concat_text(left_prefix, truncated_branch.as_str());
    let left_width = display_width(left_text.as_str());
    let ghost lt = left_text@;
    let mut left_spans: Vec<Span> = Vec::new();
    if !branch.as_str().is_empty() {
        left_spans.push(text_span(ctx, left_text, ctx.theme.branch));
    }
    let ghost rt = right_text@;
    let mut right_spans: Vec<Span> = Vec::new();
    if !right_text.as_str().is_empty() {
        let shown = concat_text(right_prefix, right_text.as_str());
        right_spans.push(text_span(ctx, shown, ctx.theme.port));
    }
    let left_width = if branch.as_str().is_empty() {
        0
    } else {
        left_width
    };
    let ghost left_views = span_views(left_spans@);
    let ghost right_views = span_views(right_spans@);
    assert(left_views =~= (if branch@.len() == 0 {
        Seq::empty()
    } else {
        seq![(lt, text_style(ctx.selection_bg, ctx.theme.branch))]
    }));
    assert(right_views =~= (if rt.len() == 0 {
        Seq::empty()
    } else {
        seq![("  "@ + rt, text_style(ctx.selection_bg, ctx.theme.port))]
    }));
    Some(
        bordered_split_line(
            ctx.border_style,
            ctx.selection_bg,
            ctx.inner_width,
            left_spans,
            left_width,
            right_spans,
            right_width,
        ),
    )
}

/// The icon of a pane with the given status and, for a running pane, the
/// color of its pulse at `spinner_frame`.
pub fn running_icon_for<'a>(status: &PaneStatus, spinner_frame: usize, icons: &'a StatusIcons) -> (r: (
    &'a str,
    Option<Color>,
))
    ensures
        r.0@ == status_icon_of(*icons, *status),
        r.1 == (if *status == PaneStatus::Running {
            Some(Color::Indexed(spinner_pulse_at((spinner_frame % SPINNER_PULSE_LEN) as int)))
        } else {
            None
        }),
{
    match status {
        PaneStatus::Running => {
            let color_idx = spinner_pulse(spinner_frame % SPINNER_PULSE_LEN);
            (icons.status_icon(status), Some(Color::Indexed(color_idx)))
        },
        _ => (icons.status_icon(status), None),
    }
}

/// Color of the permission badge.
pub open spec fn badge_color_of(theme: ColorTheme, mode: PermissionMode) -> Color {
    match mode {
        PermissionMode::BypassPermissions => theme.badge_danger,
        PermissionMode::Auto => theme.badge_auto,
        PermissionMode::Plan => theme.badge_plan,
        PermissionMode::AcceptEdits => theme.badge_auto,
        PermissionMode::Default => theme.text_muted,
    }
}

/// Color of the status icon: the pulse color of a running pane, else the
/// theme's color for its status.
pub open spec fn icon_color_of(ctx: RowCtx, pane: PaneInfo, spinner_frame: nat) -> Color {
    if pane.status == PaneStatus::Running {
        Color::Indexed(spinner_pulse_at((spinner_frame % (SPINNER_PULSE_LEN as nat)) as int))
    } else {
        status_color_of(*ctx.theme, pane.status, pane.attention)
    }
}

/// Width of the left part of the status row: icon, space, title and, when
/// there is a badge, a space and the badge.
pub open spec fn status_left_width(icon: Seq<char>, title: Seq<char>, badge: Seq<char>) -> nat {
    text_width(icon) + 1 + text_width(title) + (if badge.len() == 0 {
        0nat
    } else {
        1nat
    }) + text_width(badge)
}

/// The status row: icon, agent title (bold on the active pane), permission
/// badge, and the elapsed time against the right border, cut to the room
/// left of the title.
pub open spec fn status_view(
    ctx: RowCtx,
    pane: PaneInfo,
    icons: StatusIcons,
    spinner_frame: nat,
    now: u64,
) -> LineView {
    let icon = status_icon_of(icons, pane.status);
    let title = agent_label(pane.agent);
    let badge = badge_text(pane.permission_mode);
    let left_dw = status_left_width(icon, title, badge);
    let elapsed = truncated(
        elapsed_text(pane.started_at, now),
        sat_sub(ctx.inner_width as nat, left_dw),
    );
    let elapsed_fg = if pane.status == PaneStatus::Running || pane.status == PaneStatus::Waiting {
        ctx.theme.text_active
    } else {
        ctx.theme.text_muted
    };
    let title_style = bg_applied(
        ctx.selection_bg,
        with_modifier(
            with_fg(plain_style(), agent_color_of(*ctx.theme, pane.agent)),
            Modifier {
                bits: if ctx.active {
                    1
                } else {
                    0
                },
            },
        ),
    );
    let badge_part = if badge.len() == 0 {
        Seq::empty()
    } else {
        seq![
            (" "@ + badge, text_style(ctx.selection_bg, badge_color_of(*ctx.theme, pane.permission_mode))),
        ]
    };
    seq![
        (border_text(), ctx.border_style),
        (" "@, fill_style(ctx.selection_bg)),
        (icon, text_style(ctx.selection_bg, icon_color_of(ctx, pane, spinner_frame))),
        (" "@ + title, title_style),
    ] + badge_part + seq![
        (
            spaces(pad_len(left_dw + text_width(elapsed), ctx.inner_width as nat)),
            fill_style(ctx.selection_bg),
        ),
        (elapsed, text_style(ctx.selection_bg, elapsed_fg)),
        (border_text(), ctx.border_style),
    ]
}

/// The first row of a pane card.
pub fn status_row(
    pane: &PaneInfo,
    ctx: &RowCtx,
    icons: &StatusIcons,
    spinner_frame: usize,
    now: u64,
) -> (l: Line)
    requires
        fits_limit(status_icon_of(*icons, pane.status)),
    ensures
        l@ == status_view(*ctx, *pane, *icons, spinner_frame as nat, now),
        status_left_width(
            status_icon_of(*icons, pane.status),
            agent_label(pane.agent),
            badge_text(pane.permission_mode),
        ) <= ctx.inner_width ==> line_width(l@) == ctx.inner_width + 3,
{
    measure_layout_glyphs();
    proof {
        lemma_status_row_width(*ctx, *pane, *icons, spinner_frame as nat, now);
    }
    let theme = ctx.theme;
    let (icon, pulse_color) = running_icon_for(&pane.status, spinner_frame, icons);
    let icon_color = match pulse_color {
        Some(c) => c,
        None => theme.status_color(&pane.status, pane.attention),
    };
    let title = pane.agent.label();
    let badge = pane.permission_mode.badge();
    let elapsed = elapsed_label(pane.started_at, now);
    proof {
        lemma_elapsed_text_len(pane.started_at, now);
        reveal_strlit("gemini");
        reveal_strlit("codex");
        reveal_strlit("");
        reveal_strlit("auto");
        reveal_strlit("plan");
        reveal_strlit("edit");
        reveal_strlit("!");
    }
    let title_fg = theme.agent_color(&pane.agent);
    let is_active_status = match pane.status {
        PaneStatus::Running | PaneStatus::Waiting => true,
        _ => false,
    };
    let elapsed_fg = if is_active_status {
        theme.text_active
    } else {
        theme.text_muted
    };
    let active_mod = if ctx.active {
        Modifier::bold()
    } else {
        Modifier::empty()
    };
    let badge_extra: usize = if badge.is_empty() {
        0
    } else {
        1
    };
    let left_dw = display_width(icon) + 1 + display_width(title) + badge_extra + display_width(
        badge,
    );
    let available_for_elapsed = ctx.inner_width.saturating_sub(left_dw);
    let elapsed = truncate_to_width(elapsed.as_str(), available_for_elapsed);
    let elapsed_dw = display_width(elapsed.as_str());
    let padding = pad_to(left_dw + elapsed_dw, ctx.inner_width);
    let mut spans: Vec<Span> = Vec::new();
    spans.push(border_span(ctx.border_style));
    spans.push(Span::styled(" ".to_owned(), ctx.apply_bg(Style::default())));
    spans.push(Span::styled(icon.to_owned(), ctx.apply_bg(Style::default().fg(icon_color))));
    spans.push(
        Span::styled(
            concat_text(" ", title),
            ctx.apply_bg(Style::default().fg(title_fg).add_modifier(active_mod)),
        ),
    );
    if !badge.is_empty() {
        let badge_color = match pane.permission_mode {
            PermissionMode::BypassPermissions => theme.badge_danger,
            PermissionMode::Auto => theme.badge_auto,
            PermissionMode::Plan => theme.badge_plan,
            PermissionMode::AcceptEdits => theme.badge_auto,
            PermissionMode::Default => theme.text_muted,
        };
        spans.push(Span::styled(concat_text(" ", badge), ctx.apply_bg(Style::default().fg(badge_color))));
    }
    spans.push(Span::styled(padding, ctx.apply_bg(Style::default())));
    spans.push(Span::styled(elapsed, ctx.apply_bg(Style::default().fg(elapsed_fg))));
    spans.push(border_span(ctx.border_style));
    let l = Line::from_spans(spans);
    assert(l@ =~= status_view(*ctx, *pane, *icons, spinner_frame as nat, now));
    l
}

/// The marker drawn before the first line of an agent's response.
pub open spec fn arrow_text() -> Seq<char> {
    "  \u{25b6} "@
}

/// The lines of the prompt: a response is cut by characters to the width
/// left by a four-cell indent, a prompt is wrapped by words to the width
/// left by a two-cell indent; at most three lines either way.
pub open spec fn prompt_lines(ctx: RowCtx, pane: PaneInfo) -> Seq<Seq<char>> {
    if pane.prompt_is_response {
        char_wrap(pane.prompt@, sat_sub(ctx.inner_width as nat, 4), 3)
    } else {
        word_wrap(words_of(pane.prompt@), sat_sub(ctx.inner_width as nat, 2), 3)
    }
}

/// The row showing the prompt line `line`: the first line of a response
/// follows a bold arrow, the other lines are indented.
pub open spec fn prompt_row_view(ctx: RowCtx, is_response: bool, first: bool, line: Seq<char>) -> LineView {
    if is_response && first {
        bordered_view(
            ctx.border_style,
            ctx.selection_bg,
            ctx.inner_width as nat,
            seq![
                (
                    arrow_text(),
                    bg_applied(
                        ctx.selection_bg,
                        with_modifier(
                            with_fg(plain_style(), ctx.theme.response_arrow),
                            Modifier { bits: 1 },
                        ),
                    ),
                ),
                (line, text_style(ctx.selection_bg, emphasis_color(ctx))),
            ],
            4 + text_width(line),
        )
    } else {
        text_row_view(
            ctx,
            (if is_response {
                "    "@
            } else {
                "  "@
            }) + line,
            emphasis_color(ctx),
        )
    }
}

fn prompt_row(ctx: &RowCtx, is_response: bool, first: bool, wl: &str) -> (l: Line)
    requires
        wl@.len() <= text_limit() + 1,
    ensures
        l@ == prompt_row_view(*ctx, is_response, first, wl@),
{
    let prompt_color = if ctx.active {
        ctx.theme.text_active
    } else {
        ctx.theme.text_muted
    };
    proof {
        reveal_strlit("    ");
        reveal_strlit("  ");
    }
    let mut content: Vec<Span> = Vec::new();
    if is_response && first {
        let arrow_color = ctx.theme.response_arrow;
        let text_dw = 4 + display_width(wl);
        content.push(
            Span::styled(
                "  \u{25b6} ".to_owned(),
                ctx.apply_bg(Style::default().fg(arrow_color).add_modifier(Modifier::bold())),
            ),
        );
        content.push(text_span(ctx, wl.to_owned(), prompt_color));
        let l = bordered_line(ctx.border_style, ctx.selection_bg, ctx.inner_width, content, text_dw);
        assert(span_views(content@) =~= seq![
            (
                arrow_text(),
                bg_applied(
                    ctx.selection_bg,
                    with_modifier(with_fg(plain_style(), arrow_color), Modifier { bits: 1 }),
                ),
            ),
            (wl@, text_style(ctx.selection_bg, prompt_color)),
        ]);
        l
    } else {
        let indent = if is_response {
            "    "
        } else {
            "  "
        };
        let text = concat_text(indent, wl);
        let text_dw = display_width(text.as_str());
        let ghost t = text@;
        content.push(text_span(ctx, text, prompt_color));
        let l = bordered_line(ctx.border_style, ctx.selection_bg, ctx.inner_width, content, text_dw);
        assert(span_views(content@) =~= seq![(t, text_style(ctx.selection_bg, prompt_color))]);
        l
    }
}

/// The rows showing the pane's prompt or the agent's response.
pub fn prompt_rows(pane: &PaneInfo, ctx: &RowCtx) -> (rows: Vec<Line>)
    requires
        fits_limit(pane.prompt@),
    ensures
        rows@.len() == prompt_lines(*ctx, *pane).len(),
        forall|i: int|
            0 <= i < rows@.len() ==> (#[trigger] rows@[i])@ == prompt_row_view(
                *ctx,
                pane.prompt_is_response,
                i == 0,
                prompt_lines(*ctx, *pane)[i],
            ),
        forall|i: int|
            0 <= i < rows@.len() ==> text_width(#[trigger] prompt_lines(*ctx, *pane)[i]) <= sat_sub(
                ctx.inner_width as nat,
                if pane.prompt_is_response {
                    4
                } else {
                    2
                },
            ) || prompt_lines(*ctx, *pane)[i].len() == 1,
        forall|i: int|
            0 <= i < rows@.len() && text_width(#[trigger] prompt_lines(*ctx, *pane)[i]) + (
            if pane.prompt_is_response {
                4nat
            } else {
                2nat
            }) <= ctx.inner_width ==> line_width(rows@[i]@) == ctx.inner_width + 3,
{
    measure_layout_glyphs();
    let mut out: Vec<Line> = Vec::new();
    let is_response = pane.prompt_is_response;
    let wrap_width = ctx.inner_width.saturating_sub(
        if is_response {
            4
        } else {
            2
        },
    );
    let wrapped = if is_response {
        wrap_text_char(pane.prompt.as_str(), wrap_width, 3)
    } else {
        wrap_text(pane.prompt.as_str(), wrap_width, 3)
    };
    let ghost lines = prompt_lines(*ctx, *pane);
    proof {
        lemma_char_wrap_lines(pane.prompt@, wrap_width as nat, 3);
        lemma_word_wrap_lines(words_of(pane.prompt@), wrap_width as nat, 3);
        lemma_words_len(pane.prompt@);
        assert(string_views(wrapped@) == lines);
    }
    let n = wrapped.len();
    let mut li: usize = 0;
    while li < n
        invariant
            n == wrapped@.len(),
            string_views(wrapped@) == lines,
            forall|i: int| 0 <= i < n ==> (#[trigger] lines[i]).len() <= text_limit() + 1,
            li <= n,
            out@.len() == li,
            forall|i: int|
                0 <= i < li ==> (#[trigger] out@[i])@ == prompt_row_view(
                    *ctx,
                    is_response,
                    i == 0,
                    lines[i],
                ),
        decreases n - li,
    {
        assert(wrapped@[li as int]@ == lines[li as int]);
        let row = prompt_row(ctx, is_response, li == 0, wrapped[li].as_str());
        out.push(row);
        li = li + 1;
    }
    assert forall|i: int| 0 <= i < out@.len() implies text_width(
        #[trigger] prompt_lines(*ctx, *pane)[i],
    ) <= sat_sub(
        ctx.inner_width as nat,
        if pane.prompt_is_response {
            4
        } else {
            2
        },
    ) || prompt_lines(*ctx, *pane)[i].len() == 1 by {
        assert(lines[i] == wrapped@[i]@);
    }
    assert forall|i: int| 0 <= i < out@.len() && text_width(
        #[trigger] prompt_lines(*ctx, *pane)[i],
    ) + (if pane.prompt_is_response {
        4nat
    } else {
        2nat
    }) <= ctx.inner_width implies line_width(out@[i]@) == ctx.inner_width + 3 by {
        lemma_prompt_row_width(*ctx, is_response, i == 0, lines[i]);
    }
    out
}

/// A row, as a list of rows: one when present, none otherwise.
pub open spec fn opt_rows(o: Option<LineView>) -> Seq<LineView> {
    match o {
        Some(v) => seq![v],
        None => Seq::empty(),
    }
}

/// The context shared by the rows of a card `width` cells wide: the
/// border in `border_color`, three cells taken by the borders and the
/// blank after the left one, and the selection background when selected.
pub open spec fn card_ctx<'a>(
    theme: &'a ColorTheme,
    selected: bool,
    active: bool,
    border_color: Color,
    width: usize,
) -> RowCtx<'a> {
    RowCtx {
        border_style: with_fg(plain_style(), border_color),
        inner_width: (if width >= 3 {
            width - 3
        } else {
            0
        }) as usize,
        theme,
        selection_bg: if selected {
            Some(theme.selection_bg)
        } else {
            None
        },
        active,
    }
}

/// The texts of a pane are short enough to lay out.
pub open spec fn pane_fits(pane: PaneInfo) -> bool {
    &&& fits_limit(pane.prompt@)
    &&& fits_limit(pane.wait_reason@)
    &&& forall|i: int| 0 <= i < pane.subagents@.len() ==> fits_limit(#[trigger] pane.subagents@[i]@)
}

fn text_fits(s: &str) -> (r: bool)
    ensures
        r == fits_limit(s@),
{
    s.unicode_len() <= usize::MAX / 32
}

/// Whether the texts of a card are short enough to lay out: exactly when
/// `render_pane_lines_with_ports` may be called with them.
pub fn card_texts_fit(
    pane: &PaneInfo,
    git_info: &PaneGitInfo,
    ports: Option<&[u16]>,
    task_progress: Option<&TaskProgress>,
    icons: &StatusIcons,
) -> (r: bool)
    ensures
        r == (pane_fits(*pane) && fits_limit(status_icon_of(*icons, pane.status)) && fits_limit(
            branch_text(*git_info),
        ) && (ports matches Some(p) ==> p@.len() <= text_limit()) && (task_progress matches Some(
            p,
        ) ==> p.tasks@.len() <= text_limit())),
{
    let limit = usize::MAX / 32;
    if !text_fits(pane.prompt.as_str()) || !text_fits(pane.wait_reason.as_str()) {
        return false;
    }
    let n = pane.subagents.len();
    let mut i: usize = 0;
    while i < n
        invariant
            n == pane.subagents@.len(),
            i <= n,
            forall|j: int| 0 <= j < i ==> fits_limit(#[trigger] pane.subagents@[j]@),
        decreases n - i,
    {
        if !text_fits(pane.subagents[i].as_str()) {
            return false;
        }
        i = i + 1;
    }
    if !text_fits(icons.status_icon(&pane.status)) {
        return false;
    }
    let branch = branch_label(git_info);
    if !text_fits(branch.as_str()) {
        return false;
    }
    let ports_ok = match ports {
        Some(p) => p.len() <= limit,
        None => true,
    };
    let tasks_ok = match task_progress {
        Some(p) => p.tasks.len() <= limit,
        None => true,
    };
    ports_ok && tasks_ok
}

/// The rows below the status row that show the prompt: the prompt rows
/// when there is a prompt, else the idle hint for an idle pane.
pub open spec fn prompt_part(ctx: RowCtx, pane: PaneInfo) -> Seq<LineView> {
    if pane.prompt@.len() > 0 {
        Seq::new(
            prompt_lines(ctx, pane).len(),
            |i: int| prompt_row_view(ctx, pane.prompt_is_response, i == 0, prompt_lines(ctx, pane)[i]),
        )
    } else if pane.status == PaneStatus::Idle {
        seq![text_row_view(ctx, idle_hint_text(), emphasis_color(ctx))]
    } else {
        Seq::empty()
    }
}

/// All rows of a pane card, top to bottom: status; branch and ports;
/// task progress; one row per sub-agent; wait reason; then the prompt
/// (or, for an idle pane without one, the idle hint).
pub open spec fn pane_lines_view(
    ctx: RowCtx,
    pane: PaneInfo,
    git_info: PaneGitInfo,
    ports: Option<Seq<u16>>,
    tasks: Option<Seq<(String, TaskStatus)>>,
    icons: StatusIcons,
    spinner_frame: nat,
    now: u64,
) -> Seq<LineView> {
    seq![status_view(ctx, pane, icons, spinner_frame, now)] + opt_rows(
        branch_ports_view(ctx, branch_text(git_info), ports),
    ) + opt_rows(task_progress_view(ctx, tasks)) + Seq::new(
        pane.subagents@.len(),
        |i: int| subagent_view(ctx, pane.subagents@[i]@, i as nat, pane.subagents@.len()),
    ) + opt_rows(wait_reason_view(ctx, pane.wait_reason@, pane.status)) + prompt_part(ctx, pane)
}

fn push_opt(out: &mut Vec<Line>, row: Option<Line>)
    ensures
        line_views(final(out)@) == line_views(old(out)@) + opt_rows(line_option_view(row)),
{
    let ghost before = out@;
    match row {
        Some(l) => {
            out.push(l);
            assert(line_views(out@) =~= line_views(before) + opt_rows(line_option_view(Some(l))));
        },
        None => {
            assert(line_views(out@) =~= line_views(before) + opt_rows(line_option_view(row)));
        },
    }
}

/// The rows of the card of `pane`, `width` cells wide; `_command` (the
/// pane's current command) is not shown.
pub fn render_pane_lines_with_ports(
    pane: &PaneInfo,
    git_info: &PaneGitInfo,
    ports: Option<&[u16]>,
    _command: Option<&str>,
    task_progress: Option<&TaskProgress>,
    selected: bool,
    active: bool,
    border_color: Color,
    width: usize,
    icons: &StatusIcons,
    theme: &ColorTheme,
    spinner_frame: usize,
    now: u64,
) -> (lines: Vec<Line>)
    requires
        pane_fits(*pane),
        fits_limit(status_icon_of(*icons, pane.status)),
        fits_limit(branch_text(*git_info)),
        ports matches Some(p) ==> p@.len() <= text_limit(),
        task_progress matches Some(p) ==> p.tasks@.len() <= text_limit(),
    ensures
        line_views(lines@) == pane_lines_view(
            card_ctx(theme, selected, active, border_color, width),
            *pane,
            *git_info,
            ports_seq(ports),
            task_list(task_progress),
            *icons,
            spinner_frame as nat,
            now,
        ),
        width >= 3 && card_has_room(
            card_ctx(theme, selected, active, border_color, width),
            *pane,
            ports_seq(ports),
            task_list(task_progress),
            *icons,
        ) ==> forall|i: int|
            0 <= i < lines@.len() ==> line_width((#[trigger] lines@[i])@) == width,
{
    measure_layout_glyphs();
    proof {
        lemma_card_width(
            card_ctx(theme, selected, active, border_color, width),
            *pane,
            *git_info,
            ports_seq(ports),
            task_list(task_progress),
            *icons,
            spinner_frame as nat,
            now,
        );
    }
    let border_style = Style::default().fg(border_color);
    let inner_width = width.saturating_sub(3);
    let bg = if selected {
        Some(theme.selection_bg)
    } else {
        None
    };
    let ctx = RowCtx { border_style, inner_width, theme, selection_bg: bg, active };
    let ghost c = card_ctx(theme, selected, active, border_color, width);
    assert(ctx == c);
    let mut out: Vec<Line> = Vec::new();
    out.push(status_row(pane, &ctx, icons, spinner_frame, now));
    let ghost s1 = line_views(out@);
    assert(s1 =~= seq![status_view(c, *pane, *icons, spinner_frame as nat, now)]);
    push_opt(&mut out, branch_ports_row(git_info, ports, &ctx));
    push_opt(&mut out, task_progress_row(task_progress, &ctx));
    let ghost s3 = line_views(out@);
    let mut subs = subagent_rows(pane.subagents.as_slice(), &ctx);
    let ghost sub_views = line_views(subs@);
    out.append(&mut subs);
    assert(sub_views =~= Seq::new(
        pane.subagents@.len(),
        |i: int| subagent_view(c, pane.subagents@[i]@, i as nat, pane.subagents@.len()),
    ));
    let ghost s4 = line_views(out@);
    assert(s4 =~= s3 + sub_views);
    push_opt(&mut out, wait_reason_row(pane.wait_reason.as_str(), &pane.status, &ctx));
    let ghost s5 = line_views(out@);
    if !pane.prompt.as_str().is_empty() {
        let mut prompt = prompt_rows(pane, &ctx);
        let ghost pv = line_views(prompt@);
        out.append(&mut prompt);
        assert(pv =~= prompt_part(c, *pane));
        assert(line_views(out@) =~= s5 + pv);
    } else if pane.status == PaneStatus::Idle {
        out.push(idle_hint_row(&ctx));
        assert(line_views(out@) =~= s5 + prompt_part(c, *pane));
    } else {
        assert(s5 + prompt_part(c, *pane) =~= s5);
    }
    assert forall|i: int| 0 <= i < out@.len() implies (#[trigger] out@[i])@ == line_views(out@)[i] by {}
    out
}

} // verus!
