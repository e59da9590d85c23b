use vstd::prelude::*;

verus! {

/// Lowest utility an episode can hold.
pub const UTILITY_MIN: i64 = 0;

/// Highest utility an episode can hold.
pub const UTILITY_MAX: i64 = 1000;

/// Utility of a fresh episode, before any feedback.
pub const UTILITY_NEUTRAL: i64 = 500;

/// The kind of work an episode was captured from.
#[derive(Clone, Copy, Debug, PartialEq, Eq, Structural)]
pub enum TaskType {
    Bugfix,
    Feature,
    Refactor,
    Test,
    Docs,
    Research,
    Debug,
    Setup,
}

/// How the task an episode was captured from ended.
#[derive(Clone, Copy, Debug, PartialEq, Eq, Structural)]
pub enum Outcome {
    Success,
    Partial,
    Failure,
}

/// Which field a rejected capture got wrong.
#[derive(Clone, Copy, Debug, PartialEq, Eq, Structural)]
pub enum Invalid {
    EmptySummary,
    UnknownTaskType,
    UnknownOutcome,
    ComponentOutOfRange,
}

/// The ways an operation of the store can fail.
#[derive(Clone, Copy, Debug, PartialEq, Eq, Structural)]
pub enum StoreError {
    /// A required field is missing or a value is outside its allowed set.
    Validation(Invalid),
    /// No episode has the given id.
    NotFound(u64),
    /// An embedding's dimension differs from the store's.
    DimensionMismatch { expected: usize, found: usize },
    /// Every id has been handed out.
    StoreFull,
}

/// An error met while solving a task, with the strategy that resolved it.
#[derive(Debug)]
pub struct ErrorResolution {
    pub error: String,
    pub resolution: String,
}

/// What a caller hands to `capture`: an episode before the store has given
/// it an id, counters and timestamps.
pub struct NewEpisode {
    pub summary: String,
    pub task_type: TaskType,
    pub outcome: Outcome,
    pub project: Option<String>,
    pub files_modified: Vec<String>,
    pub tags: Vec<String>,
    pub errors_resolved: Vec<ErrorResolution>,
    pub embedding: Vec<i32>,
}

/// One persisted unit of captured insight.
///
/// `utility` is what ranking and review read. `feedback_utility` is the part
/// of it earned from direct feedback alone: propagation recomputes `utility`
/// from it on every pass, so influence that no feedback supports fades.
pub struct Episode {
    pub id: u64,
    pub summary: String,
    pub task_type: TaskType,
    pub outcome: Outcome,
    pub project: Option<String>,
    pub files_modified: Vec<String>,
    pub tags: Vec<String>,
    pub errors_resolved: Vec<ErrorResolution>,
    pub embedding: Vec<i32>,
    pub utility: i64,
    pub feedback_utility: i64,
    pub use_count: u64,
    pub helpful_count: u64,
    pub created_at: u64,
    pub last_used_at: u64,
}

/// A utility value lies within its declared range.
pub open spec fn utility_ok(u: int) -> bool {
    UTILITY_MIN <= u <= UTILITY_MAX
}

/// `u` limited to the declared utility range.
pub open spec fn clamp_utility(u: int) -> int {
    if u < UTILITY_MIN {
        UTILITY_MIN as int
    } else if u > UTILITY_MAX {
        UTILITY_MAX as int
    } else {
        u
    }
}

/// Limits a utility value to the declared range.
pub fn clamp(u: i64) -> (r: i64)
    ensures
        r == clamp_utility(u as int),
{
    if u < UTILITY_MIN {
        UTILITY_MIN
    } else if u > UTILITY_MAX {
        UTILITY_MAX
    } else {
        u
    }
}

/// The task type that `s` names, if it names one.
pub open spec fn task_type_of(s: Seq<char>) -> Option<TaskType> {
    if s == "bugfix"@ {
        Some(TaskType::Bugfix)
    } else if s == "feature"@ {
        Some(TaskType::Feature)
    } else if s == "refactor"@ {
        Some(TaskType::Refactor)
    } else if s == "test"@ {
        Some(TaskType::Test)
    } else if s == "docs"@ {
        Some(TaskType::Docs)
    } else if s == "research"@ {
        Some(TaskType::Research)
    } else if s == "debug"@ {
        Some(TaskType::Debug)
    } else if s == "setup"@ {
        Some(TaskType::Setup)
    } else {
        None
    }
}

/// The outcome that `s` names, if it names one.
pub open spec fn outcome_of(s: Seq<char>) -> Option<Outcome> {
    if s == "success"@ {
        Some(Outcome::Success)
    } else if s == "partial"@ {
        Some(Outcome::Partial)
    } else if s == "failure"@ {
        Some(Outcome::Failure)
    } else {
        None
    }
}

fn same_text(s: &String, lit: &str) -> (r: bool)
    ensures
        r == (s@ == lit@),
{
    let owned = lit.to_owned();
    *s == owned
}

/// Reads a task type by its lower-case name.
pub fn parse_task_type(s: &String) -> (r: Result<TaskType, StoreError>)
    ensures
        r == match task_type_of(s@) {
            Some(t) => Ok::<TaskType, StoreError>(t),
            None => Err(StoreError::Validation(Invalid::UnknownTaskType)),
        },
{
    proof {
        reveal_strlit("bugfix");
        reveal_strlit("feature");
        reveal_strlit("refactor");
        reveal_strlit("test");
        reveal_strlit("docs");
        reveal_strlit("research");
        reveal_strlit("debug");
        reveal_strlit("setup");
    }
    if same_text(s, "bugfix") {
        Ok(TaskType::Bugfix)
    } else if same_text(s, "feature") {
        Ok(TaskType::Feature)
    } else if same_text(s, "refactor") {
        Ok(TaskType::Refactor)
    } else if same_text(s, "test") {
        Ok(TaskType::Test)
    } else if same_text(s, "docs") {
        Ok(TaskType::Docs)
    } else if same_text(s, "research") {
        Ok(TaskType::Research)
    } else if same_text(s, "debug") {
        Ok(TaskType::Debug)
    } else if same_text(s, "setup") {
        Ok(TaskType::Setup)
    } else {
        Err(StoreError::Validation(Invalid::UnknownTaskType))
    }
}

/// Reads an outcome by its lower-case name.
pub fn parse_outcome(s: &String) -> (r: Result<Outcome, StoreError>)
    ensures
        r == match outcome_of(s@) {
            Some(o) => Ok::<Outcome, StoreError>(o),
            None => Err(StoreError::Validation(Invalid::UnknownOutcome)),
        },
{
    proof {
        reveal_strlit("success");
        reveal_strlit("partial");
        reveal_strlit("failure");
    }
    if same_text(s, "success") {
        Ok(Outcome::Success)
    } else if same_text(s, "partial") {
        Ok(Outcome::Partial)
    } else if same_text(s, "failure") {
        Ok(Outcome::Failure)
    } else {
        Err(StoreError::Validation(Invalid::UnknownOutcome))
    }
}

/// An episode under project filter `filter`: any episode when there is no
/// filter; otherwise only one whose project is exactly the filter. Unscoped
/// episodes never pass a filter.
pub open spec fn in_scope(project: Option<String>, filter: Option<String>) -> bool {
    match filter {
        None => true,
        Some(f) => match project {
            Some(p) => p@ == f@,
            None => false,
        },
    }
}

/// Tells whether an episode of `project` passes the project filter `filter`.
pub fn project_matches(project: &Option<String>, filter: &Option<String>) -> (r: bool)
    ensures
        r == in_scope(*project, *filter),
{
    match filter {
        None => true,
        Some(f) => match project {
            Some(p) => *p == *f,
            None => false,
        },
    }
}

} // verus!
