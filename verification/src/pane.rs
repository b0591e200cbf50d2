//! What the sidebar knows about a pane: its status, agent, permission mode,
//! git state and task progress.

use vstd::prelude::*;

verus! {

/// The lifecycle state of the agent running in a pane.
#[derive(Clone, Copy, Debug, PartialEq, Eq, Structural)]
pub enum PaneStatus {
    Running,
    Waiting,
    Idle,
    Error,
    Unknown,
}

/// The coding agent running in a pane.
#[derive(Clone, Copy, Debug, PartialEq, Eq, Structural)]
pub enum AgentType {
    Gemini,
    Codex,
}

/// Text shown as the title of an agent.
pub open spec fn agent_label(a: AgentType) -> Seq<char> {
    match a {
        AgentType::Gemini => "gemini"@,
        AgentType::Codex => "codex"@,
    }
}

impl AgentType {
    /// The title shown for this agent.
    pub fn label(&self) -> (r: &'static str)
        ensures
            r@ == agent_label(*self),
    {
        match self {
            AgentType::Gemini => "gemini",
            AgentType::Codex => "codex",
        }
    }
}

/// How freely the agent in a pane may act without asking.
#[derive(Clone, Copy, Debug, PartialEq, Eq, Structural)]
pub enum PermissionMode {
    Default,
    Auto,
    Plan,
    AcceptEdits,
    BypassPermissions,
}

/// Badge text shown for a permission mode (empty for the default mode).
pub open spec fn badge_text(m: PermissionMode) -> Seq<char> {
    match m {
        PermissionMode::Default => ""@,
        PermissionMode::Auto => "auto"@,
        PermissionMode::Plan => "plan"@,
        PermissionMode::AcceptEdits => "edit"@,
        PermissionMode::BypassPermissions => "!"@,
    }
}

impl PermissionMode {
    /// The badge shown next to the agent's title.
    pub fn badge(&self) -> (r: &'static str)
        ensures
            r@ == badge_text(*self),
    {
        match self {
            PermissionMode::Default => "",
            PermissionMode::Auto => "auto",
            PermissionMode::Plan => "plan",
            PermissionMode::AcceptEdits => "edit",
            PermissionMode::BypassPermissions => "!",
        }
    }
}

/// Everything known about one tmux pane running an agent.
#[derive(Clone, Debug)]
pub struct PaneInfo {
    pub pane_id: String,
    pub pane_active: bool,
    pub status: PaneStatus,
    /// The pane asks for the user's attention.
    pub attention: bool,
    pub agent: AgentType,
    pub path: String,
    pub current_command: String,
    /// The last prompt sent to the agent, or its last response.
    pub prompt: String,
    /// `prompt` holds the agent's response rather than the user's prompt.
    pub prompt_is_response: bool,
    /// Unix time, in seconds, at which the current activity started.
    pub started_at: Option<u64>,
    /// Why the agent waits (empty when it does not).
    pub wait_reason: String,
    pub permission_mode: PermissionMode,
    /// Names of the sub-agents the agent has started, in order.
    pub subagents: Vec<String>,
    pub pane_pid: Option<u32>,
    pub worktree_name: String,
    pub worktree_branch: String,
}

/// Git state of the directory a pane works in.
#[derive(Clone, Debug, Default)]
pub struct PaneGitInfo {
    pub repo_root: Option<String>,
    pub branch: Option<String>,
    pub is_worktree: bool,
    pub worktree_name: Option<String>,
}

/// The branch shown for a pane: its branch name, or nothing outside a branch.
pub open spec fn branch_text(git: PaneGitInfo) -> Seq<char> {
    match git.branch {
        Some(b) => b@,
        None => Seq::empty(),
    }
}

/// The branch shown for a pane.
pub fn branch_label(git: &PaneGitInfo) -> (r: String)
    ensures
        r@ == branch_text(*git),
{
    match &git.branch {
        Some(b) => b.clone(),
        None => String::new(),
    }
}

/// State of one task in an agent's task list.
#[derive(Clone, Copy, Debug, PartialEq, Eq, Structural)]
pub enum TaskStatus {
    Completed,
    InProgress,
    Pending,
}

/// An agent's task list: each task's title and state, in order.
#[derive(Clone, Debug)]
pub struct TaskProgress {
    pub tasks: Vec<(String, TaskStatus)>,
}

/// The states of a task list, in order.
pub open spec fn task_states(tasks: Seq<(String, TaskStatus)>) -> Seq<TaskStatus> {
    tasks.map_values(|t: (String, TaskStatus)| t.1)
}

/// How many of `states` are `Completed`.
pub open spec fn completed_in(states: Seq<TaskStatus>) -> nat
    decreases states.len(),
{
    if states.len() == 0 {
        0
    } else {
        completed_in(states.drop_last()) + if states.last() == TaskStatus::Completed {
            1nat
        } else {
            0nat
        }
    }
}

impl TaskProgress {
    /// Whether the list has no task.
    pub fn is_empty(&self) -> (r: bool)
        ensures
            r == (self.tasks@.len() == 0),
    {
        self.tasks.len() == 0
    }

    /// Number of tasks.
    pub fn total(&self) -> (r: usize)
        ensures
            r == self.tasks@.len(),
    {
        self.tasks.len()
    }

    /// Number of completed tasks.
    pub fn completed_count(&self) -> (r: usize)
        ensures
            r == completed_in(task_states(self.tasks@)),
            r <= self.tasks@.len(),
    {
        let n = self.tasks.len();
        let mut count: usize = 0;
        let mut i: usize = 0;
        while i < n
            invariant
                n == self.tasks@.len(),
                i <= n,
                count <= i,
                count == completed_in(task_states(self.tasks@.take(i as int))),
            decreases n - i,
        {
            assert(task_states(self.tasks@.take(i + 1)).drop_last() =~= task_states(
                self.tasks@.take(i as int),
            ));
            if self.tasks[i].1 == TaskStatus::Completed {
                count = count + 1;
            }
            i = i + 1;
        }
        assert(self.tasks@.take(n as int) =~= self.tasks@);
        count
    }
}

} // verus!
