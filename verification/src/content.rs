//! What the rows of a card say: the ports listed, the tasks counted, the
//! agent named in the title, how the prompt is wrapped, and which pane is
//! drawn with emphasis.

use vstd::prelude::*;
use crate::pane::{agent_label, completed_in, task_states, AgentType, PaneGitInfo, PaneInfo, TaskStatus};
use crate::row::{
    branch_ports_view, card_ctx, emphasis_color, opt_rows, pane_lines_view, port_list_text,
    port_text, prompt_lines, prompt_part, prompt_row_view, sat_sub, split_view, status_view,
    subagent_view, task_marks, task_progress_view, task_summary, text_style, wait_reason_view, LineView, RowCtx,
};
use crate::style::Color;
use crate::theme::{ColorTheme, StatusIcons};
use crate::width::{text_width, truncated};
use crate::text::decimal;
use crate::wrap::{greedy_word_lines, lemma_word_wrap_greedy, words_of};

verus! {

/// One port is listed as its decimal digits.
pub proof fn lemma_port_list_one(x: u16)
    ensures
        port_list_text(seq![x]) == decimal(x as nat),
{
}

/// Listing the ports of `p` and then those of `q` gives the list of `p`, a
/// comma and a blank, and the list of `q`: no port is dropped, reordered or
/// repeated.
pub proof fn lemma_port_list_concat(p: Seq<u16>, q: Seq<u16>)
    requires
        p.len() > 0,
        q.len() > 0,
    ensures
        port_list_text(p + q) == port_list_text(p) + ", "@ + port_list_text(q),
    decreases q.len(),
{
    if q.len() == 1 {
        assert((p + q).drop_last() =~= p);
        assert((p + q).last() == q[0]);
    } else {
        let d = q.drop_last();
        lemma_port_list_concat(p, d);
        assert((p + q).drop_last() =~= p + d);
        assert((p + q).last() == q.last());
        assert(port_list_text(p + q) == port_list_text(p + d) + ", "@ + decimal(q.last() as nat));
        assert(port_list_text(q) == port_list_text(d) + ", "@ + decimal(q.last() as nat));
        assert(port_list_text(p) + ", "@ + port_list_text(d) + ", "@ + decimal(q.last() as nat)
            =~= port_list_text(p) + ", "@ + (port_list_text(d) + ", "@ + decimal(q.last() as nat)));
    }
}

/// A non-empty list of ports is shown whole: the branch and ports row holds,
/// just before its closing border, two blanks, a colon and the whole list.
pub proof fn lemma_ports_shown_whole(ctx: RowCtx, branch: Seq<char>, p: Seq<u16>)
    requires
        p.len() > 0,
    ensures
        branch_ports_view(ctx, branch, Some(p)) matches Some(v) && v.len() >= 2 && v[v.len() - 2].0
            == "  "@ + (":"@ + port_list_text(p)),
{
    let right_text = ":"@ + port_list_text(p);
    reveal_strlit(":");
    assert(port_text(Some(p)) == Some(right_text));
    assert(right_text.len() > 0);
    let v = branch_ports_view(ctx, branch, Some(p));
    let right_width = text_width("  "@) + text_width(right_text);
    let left_room = sat_sub(ctx.inner_width as nat, right_width);
    let left_text = "  "@ + truncated(branch, sat_sub(left_room, text_width("  "@)));
    let left: LineView = if branch.len() == 0 {
        Seq::empty()
    } else {
        seq![(left_text, text_style(ctx.selection_bg, ctx.theme.branch))]
    };
    let left_width: nat = if branch.len() == 0 {
        0
    } else {
        text_width(left_text)
    };
    let right: LineView = seq![("  "@ + right_text, text_style(ctx.selection_bg, ctx.theme.port))];
    let sv = split_view(
        ctx.border_style,
        ctx.selection_bg,
        ctx.inner_width as nat,
        left,
        left_width,
        right,
        right_width,
    );
    assert(v == Some(sv));
    assert(sv[sv.len() - 2] == right[0]);
}

/// One task counts as completed exactly when its state is `Completed`.
pub proof fn lemma_completed_one(s: TaskStatus)
    ensures
        completed_in(seq![s]) == (if s == TaskStatus::Completed {
            1nat
        } else {
            0nat
        }),
{
    assert(seq![s].drop_last() =~= Seq::<TaskStatus>::empty());
    assert(completed_in(Seq::<TaskStatus>::empty()) == 0);
    assert(seq![s].last() == s);
}

/// The completed tasks of two lists put together are those of the first
/// and those of the second, in whichever order the lists come.
pub proof fn lemma_completed_concat(a: Seq<TaskStatus>, b: Seq<TaskStatus>)
    ensures
        completed_in(a + b) == completed_in(a) + completed_in(b),
        completed_in(a + b) == completed_in(b + a),
{
    lemma_completed_sum(a, b);
    lemma_completed_sum(b, a);
}

proof fn lemma_completed_sum(a: Seq<TaskStatus>, b: Seq<TaskStatus>)
    ensures
        completed_in(a + b) == completed_in(a) + completed_in(b),
    decreases b.len(),
{
    if b.len() == 0 {
        assert(a + b =~= a);
    } else {
        lemma_completed_sum(a, b.drop_last());
        assert((a + b).drop_last() =~= a + b.drop_last());
        assert((a + b).last() == b.last());
    }
}

/// The completed count is the number of times `Completed` occurs in the
/// list, wherever it occurs: lists holding the same states in any order
/// count the same.
pub proof fn lemma_completed_counts_occurrences(s: Seq<TaskStatus>)
    ensures
        completed_in(s) == s.to_multiset().count(TaskStatus::Completed),
    decreases s.len(),
{
    broadcast use vstd::seq_lib::group_to_multiset_ensures;

    if s.len() == 0 {
        assert(s.to_multiset() =~= vstd::multiset::Multiset::empty());
    } else {
        lemma_completed_counts_occurrences(s.drop_last());
        assert(s.drop_last().push(s.last()) =~= s);
    }
}

/// Different agents get different titles, and no title is empty.
pub proof fn lemma_agent_labels_differ(a: AgentType, b: AgentType)
    ensures
        agent_label(a) == agent_label(b) <==> a == b,
        agent_label(a).len() > 0,
{
    reveal_strlit("gemini");
    reveal_strlit("codex");
    assert("gemini"@.len() != "codex"@.len());
}

/// The title span of the status row is a blank and the name of the pane's
/// own agent: two status rows, whatever their cards and panes otherwise,
/// carry the same title exactly when their panes run the same agent.
pub proof fn lemma_status_title_names_agent(
    ctx1: RowCtx,
    pane1: PaneInfo,
    icons1: StatusIcons,
    frame1: nat,
    now1: u64,
    ctx2: RowCtx,
    pane2: PaneInfo,
    icons2: StatusIcons,
    frame2: nat,
    now2: u64,
)
    ensures
        status_view(ctx1, pane1, icons1, frame1, now1)[3].0 == " "@ + agent_label(pane1.agent),
        status_view(ctx1, pane1, icons1, frame1, now1)[3].0 == status_view(
            ctx2,
            pane2,
            icons2,
            frame2,
            now2,
        )[3].0 <==> pane1.agent == pane2.agent,
{
    lemma_agent_labels_differ(pane1.agent, pane2.agent);
    reveal_strlit(" ");
    let t1 = " "@ + agent_label(pane1.agent);
    let t2 = " "@ + agent_label(pane2.agent);
    if t1 == t2 {
        assert(agent_label(pane1.agent) =~= t1.skip(1));
        assert(agent_label(pane2.agent) =~= t2.skip(1));
    }
}

/// Emphasis follows the active pane alone, selected or not: the title of
/// the active pane's card is bold and its prompt (or idle hint) text is in
/// the theme's active text color; on any other pane the title is not bold
/// and that text is in the muted color.
pub proof fn lemma_emphasis_follows_active(
    theme: &ColorTheme,
    selected: bool,
    active: bool,
    border: Color,
    width: usize,
    pane: PaneInfo,
    git_info: PaneGitInfo,
    ports: Option<Seq<u16>>,
    tasks: Option<Seq<(String, TaskStatus)>>,
    icons: StatusIcons,
    frame: nat,
    now: u64,
)
    ensures
        ({
            let ctx = card_ctx(theme, selected, active, border, width);
            let rows = pane_lines_view(ctx, pane, git_info, ports, tasks, icons, frame, now);
            let pp = prompt_part(ctx, pane);
            let emphasis = if active {
                theme.text_active
            } else {
                theme.text_muted
            };
            &&& rows[0][3].1.add_modifier.bits == (if active {
                1u16
            } else {
                0u16
            })
            &&& pp.len() < rows.len()
            &&& forall|i: int|
                rows.len() - pp.len() <= i < rows.len() ==> (#[trigger] rows[i])[rows[i].len()
                    - 3].1.fg == Some(emphasis)
        }),
{
    let ctx = card_ctx(theme, selected, active, border, width);
    let rows = pane_lines_view(ctx, pane, git_info, ports, tasks, icons, frame, now);
    let pp = prompt_part(ctx, pane);
    let branch = crate::pane::branch_text(git_info);
    let a = seq![status_view(ctx, pane, icons, frame, now)];
    let b = opt_rows(branch_ports_view(ctx, branch, ports));
    let c = opt_rows(task_progress_view(ctx, tasks));
    let n = pane.subagents@.len();
    let subs = Seq::new(n, |i: int| subagent_view(ctx, pane.subagents@[i]@, i as nat, n));
    let d = opt_rows(wait_reason_view(ctx, pane.wait_reason@, pane.status));
    let front = a + b + c + subs + d;
    assert(rows == front + pp);
    assert(rows[0] == a[0]);
    assert(0u16 | 1u16 == 1u16) by (bit_vector);
    assert(0u16 | 0u16 == 0u16) by (bit_vector);
    assert(emphasis_color(ctx) == (if active {
        theme.text_active
    } else {
        theme.text_muted
    }));
    assert forall|i: int| rows.len() - pp.len() <= i < rows.len() implies (#[trigger] rows[i])[rows[
        i].len() - 3].1.fg == Some(emphasis_color(ctx)) by {
        let k = i - front.len();
        assert(rows[i] == pp[k]);
        if pane.prompt@.len() > 0 {
            let line = prompt_lines(ctx, pane)[k];
            assert(pp[k] == prompt_row_view(ctx, pane.prompt_is_response, k == 0, line));
        }
    }
}

/// A prompt typed by the user (not a response) is wrapped by words: when
/// each of its words fits on a line alone, its lines are runs of its whole
/// words joined by single blanks, each line taking as many words as fit in
/// the `inner_width - 2` cells after the indent, with at most three lines
/// and an ellipsis only when the words do not fit in them.
pub proof fn lemma_prompt_wraps_whole_words(ctx: RowCtx, pane: PaneInfo)
    requires
        !pane.prompt_is_response,
        ctx.inner_width > 2,
        forall|i: int|
            0 <= i < words_of(pane.prompt@).len() ==> text_width(#[trigger] words_of(pane.prompt@)[i])
                <= ctx.inner_width - 2,
    ensures
        exists|b: Seq<int>|
            #[trigger] greedy_word_lines(
                words_of(pane.prompt@),
                (ctx.inner_width - 2) as nat,
                3,
                prompt_lines(ctx, pane),
                b,
            ),
{
    let w = (ctx.inner_width - 2) as nat;
    assert(sat_sub(ctx.inner_width as nat, 2) == w);
    let b = lemma_word_wrap_greedy(words_of(pane.prompt@), w, 3);
    assert(greedy_word_lines(words_of(pane.prompt@), w, 3, prompt_lines(ctx, pane), b));
}

/// The task row shows, after its marks (one per task, in order: a check
/// for a completed task), how many of the tasks are completed, wherever
/// they stand in the list, then a slash and the number of tasks.
pub proof fn lemma_task_row_counts_completed(tasks: Seq<(String, TaskStatus)>)
    ensures
        task_summary(tasks) == seq![' ', ' '] + task_marks(task_states(tasks)) + seq![' ']
            + decimal(task_states(tasks).to_multiset().count(TaskStatus::Completed)) + seq!['/']
            + decimal(tasks.len()),
        task_marks(task_states(tasks)).len() == tasks.len(),
        forall|i: int|
            0 <= i < tasks.len() ==> (#[trigger] task_marks(task_states(tasks))[i] == '\u{2714}'
                <==> tasks[i].1 == TaskStatus::Completed),
{
    lemma_completed_counts_occurrences(task_states(tasks));
}

} // verus!
