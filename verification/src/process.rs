//! Process supervision decisions: the launch state machine, the ready
//! marker in the child's output, and crash-report selection after a
//! non-success exit.
use vstd::prelude::*;
use crate::strutil::{contains_seq, contains_str};
use crate::natives::has_extension;

verus! {

/// Seconds within which a crash report counts as belonging to this run.
pub const CRASH_REPORT_FRESH_SECS: u64 = 300;

/// One candidate crash-report file, with its age in seconds at scan time.
#[derive(Debug, Clone, PartialEq)]
pub struct CrashReportFile {
    pub path: String,
    pub age_secs: u64,
}

/// A candidate is eligible when it is a `.txt` file modified within the
/// freshness window.
pub open spec fn crash_candidate(f: CrashReportFile) -> bool {
    has_extension(f.path@, "txt"@) && f.age_secs < CRASH_REPORT_FRESH_SECS
}

/// Whether a `.txt` file of that age counts as this run's crash report.
pub fn is_crash_candidate(f: &CrashReportFile) -> (r: bool)
    ensures
        r == crash_candidate(*f),
{
    crate::natives::has_extension_str(f.path.as_str(), "txt") && f.age_secs
        < CRASH_REPORT_FRESH_SECS
}

/// Selects the crash report to surface after a non-success exit: the most
/// recently modified eligible file (the first of them on equal ages), and
/// none at all when no `.txt` file is fresh enough.
pub fn select_crash_report(files: &Vec<CrashReportFile>) -> (r: Option<usize>)
    ensures
        match r {
            Some(i) => {
                &&& i < files@.len()
                &&& crash_candidate(files@[i as int])
                &&& forall|j: int|
                    0 <= j < files@.len() && crash_candidate(#[trigger] files@[j])
                        ==> files@[i as int].age_secs <= files@[j].age_secs
                &&& forall|j: int|
                    0 <= j < i && crash_candidate(#[trigger] files@[j]) ==> files@[
                        i as int
                    ].age_secs < files@[j].age_secs
            },
            None => forall|j: int|
                0 <= j < files@.len() ==> !crash_candidate(#[trigger] files@[j]),
        },
{
    let mut best: Option<usize> = None;
    let mut i: usize = 0;
    while i < files.len()
        invariant
            0 <= i <= files@.len(),
            match best {
                Some(b) => {
                    &&& b < i
                    &&& crash_candidate(files@[b as int])
                    &&& forall|j: int|
                        0 <= j < i && crash_candidate(#[trigger] files@[j]) ==> files@[
                            b as int
                        ].age_secs <= files@[j].age_secs
                    &&& forall|j: int|
                        0 <= j < b && crash_candidate(#[trigger] files@[j]) ==> files@[
                            b as int
                        ].age_secs < files@[j].age_secs
                },
                None => forall|j: int| 0 <= j < i ==> !crash_candidate(#[trigger] files@[j]),
            },
        decreases files@.len() - i,
    {
        if is_crash_candidate(&files[i]) {
            match best {
                Some(b) => {
                    if files[i].age_secs < files[b].age_secs {
                        best = Some(i);
                    }
                },
                None => {
                    best = Some(i);
                },
            }
        }
        i = i + 1;
    }
    best
}

/// The marker lines after which the game counts as ready.
pub open spec fn ready_line(line: Seq<char>) -> bool {
    contains_seq(line, "[Render thread/INFO]:"@) || contains_seq(line, "Sound engine started"@)
}

/// Whether an output line is the render-thread-ready or sound-engine
/// marker.
pub fn is_ready_line(line: &str) -> (r: bool)
    ensures
        r == ready_line(line@),
{
    contains_str(line, "[Render thread/INFO]:") || contains_str(line, "Sound engine started")
}

/// The supervisor's lifecycle states.
#[derive(Debug, Clone, Copy, PartialEq, Eq, Structural)]
pub enum SupervisorState {
    Building,
    Spawned,
    Running,
    Exited,
    SpawnFailed,
}

/// What the supervisor observes.
#[derive(Debug, Clone, Copy, PartialEq, Eq, Structural)]
pub enum SupervisorEvent {
    SpawnOk,
    SpawnError,
    /// An output line was read; the flag says whether it is a ready marker.
    Line { ready_marker: bool },
    /// The child exited; the flags say whether it succeeded and whether a
    /// fresh crash report was found.
    ChildExited { success: bool, crash_report: bool },
}

/// What the supervisor tells the presentation layer.
#[derive(Debug, Clone, Copy, PartialEq, Eq, Structural)]
pub enum SupervisorAction {
    EmitLine,
    EmitReady,
    EmitCrash,
    EmitExited,
}

/// The supervisor: its state and whether the ready signal went out.
#[derive(Debug, Clone, Copy, PartialEq, Eq, Structural)]
pub struct Supervisor {
    pub state: SupervisorState,
    pub ready_emitted: bool,
}

impl Supervisor {
    /// A supervisor before the spawn.
    pub fn new() -> (s: Supervisor)
        ensures
            s.state == SupervisorState::Building,
            !s.ready_emitted,
    {
        Supervisor { state: SupervisorState::Building, ready_emitted: false }
    }

    /// One step of the lifecycle machine. Every output line is forwarded;
    /// the first ready marker emits the ready signal exactly once; a
    /// non-success exit with a fresh crash report emits the crash event;
    /// and an exit always emits the exited event, whatever else happened.
    pub fn step(self, event: SupervisorEvent) -> (r: (Supervisor, Vec<SupervisorAction>))
        ensures
            ({
                let (next, actions) = r;
                match (self.state, event) {
                    (SupervisorState::Building, SupervisorEvent::SpawnOk) => {
                        &&& next.state == SupervisorState::Spawned
                        &&& next.ready_emitted == self.ready_emitted
                        &&& actions@ == Seq::<SupervisorAction>::empty()
                    },
                    (SupervisorState::Building, SupervisorEvent::SpawnError) => {
                        &&& next.state == SupervisorState::SpawnFailed
                        &&& actions@ == Seq::<SupervisorAction>::empty()
                    },
                    (SupervisorState::Spawned, SupervisorEvent::Line { ready_marker })
                    | (SupervisorState::Running, SupervisorEvent::Line { ready_marker }) => {
                        &&& next.state == SupervisorState::Running
                        &&& next.ready_emitted == (self.ready_emitted || ready_marker)
                        &&& actions@ == (if ready_marker && !self.ready_emitted {
                            seq![SupervisorAction::EmitLine, SupervisorAction::EmitReady]
                        } else {
                            seq![SupervisorAction::EmitLine]
                        })
                    },
                    (SupervisorState::Spawned, SupervisorEvent::ChildExited { success, crash_report })
                    | (SupervisorState::Running, SupervisorEvent::ChildExited { success, crash_report }) => {
                        &&& next.state == SupervisorState::Exited
                        &&& actions@ == (if !success && crash_report {
                            seq![SupervisorAction::EmitCrash, SupervisorAction::EmitExited]
                        } else {
                            seq![SupervisorAction::EmitExited]
                        })
                    },
                    _ => {
                        &&& next == self
                        &&& actions@ == Seq::<SupervisorAction>::empty()
                    },
                }
            }),
    {
        let mut actions: Vec<SupervisorAction> = Vec::new();
        match (self.state, event) {
            (SupervisorState::Building, SupervisorEvent::SpawnOk) => {
                (Supervisor { state: SupervisorState::Spawned, ..self }, actions)
            },
            (SupervisorState::Building, SupervisorEvent::SpawnError) => {
                (Supervisor { state: SupervisorState::SpawnFailed, ..self }, actions)
            },
            (SupervisorState::Spawned, SupervisorEvent::Line { ready_marker })
            | (SupervisorState::Running, SupervisorEvent::Line { ready_marker }) => {
                actions.push(SupervisorAction::EmitLine);
                let first_ready = ready_marker && !self.ready_emitted;
                if first_ready {
                    actions.push(SupervisorAction::EmitReady);
                }
                proof {
                    if first_ready {
                        assert(actions@ =~= seq![
                            SupervisorAction::EmitLine,
                            SupervisorAction::EmitReady,
                        ]);
                    } else {
                        assert(actions@ =~= seq![SupervisorAction::EmitLine]);
                    }
                }
                (
                    Supervisor {
                        state: SupervisorState::Running,
                        ready_emitted: self.ready_emitted || ready_marker,
                    },
                    actions,
                )
            },
            (SupervisorState::Spawned, SupervisorEvent::ChildExited { success, crash_report })
            | (SupervisorState::Running, SupervisorEvent::ChildExited { success, crash_report }) => {
                if !success && crash_report {
                    actions.push(SupervisorAction::EmitCrash);
                }
                actions.push(SupervisorAction::EmitExited);
                proof {
                    if !success && crash_report {
                        assert(actions@ =~= seq![
                            SupervisorAction::EmitCrash,
                            SupervisorAction::EmitExited,
                        ]);
                    } else {
                        assert(actions@ =~= seq![SupervisorAction::EmitExited]);
                    }
                }
                (Supervisor { state: SupervisorState::Exited, ..self }, actions)
            },
            _ => (self, actions),
        }
    }
}

} // verus!
