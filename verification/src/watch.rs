//! The decisions of watch mode: when to run a changed file again, how often to
//! try to format it, and what to do with the child process that runs it.
//!
//! The caller owns the file watcher, the clock and the child process. It tells
//! the [`Watcher`] what happened and carries out the actions that come back,
//! in their order.

use vstd::prelude::*;
use vstd::string::StringExecFns;
use crate::format::FormatError;

verus! {

/// How often a file is formatted before the watcher gives up on it.
pub const FORMAT_TRIES: u8 = 10;

/// A change is acted on only when the last run began longer ago than this.
pub const DEBOUNCE_NANOS: u128 = 100_000_000;

/// The pause between two looks at the file watcher, in milliseconds.
pub const POLL_MILLIS: u64 = 10;

/// How one attempt to format the watched file ended.
#[derive(Clone, Copy, Debug, PartialEq, Eq, Structural)]
pub enum FormatOutcome {
    /// The file was formatted and is empty.
    Empty,
    /// The file was formatted and holds code.
    Formatted,
    /// The source could not be formatted as it stands, as happens while it is
    /// being edited.
    Incomplete,
    /// Any other failure, such as a file that cannot be read.
    Failed,
}

impl FormatOutcome {
    /// How an attempt ended that could read and write the file: with the
    /// formatted text `text`, or without one because the source cannot be
    /// formatted as it stands.
    pub open spec fn of_text(text: Option<Seq<char>>) -> FormatOutcome {
        match text {
            Some(t) => if t.len() == 0 {
                FormatOutcome::Empty
            } else {
                FormatOutcome::Formatted
            },
            None => FormatOutcome::Incomplete,
        }
    }

    /// How an attempt ended that could read and write the file.
    pub fn of(formatted: &Result<String, FormatError>) -> (r: FormatOutcome)
        ensures
            r == Self::of_text(
                match formatted {
                    Ok(text) => Some(text@),
                    Err(_) => None,
                },
            ),
    {
        match formatted {
            Ok(text) => if text.as_str().unicode_len() == 0 {
                FormatOutcome::Empty
            } else {
                FormatOutcome::Formatted
            },
            Err(_) => FormatOutcome::Incomplete,
        }
    }
}

/// What the caller is asked to do.
#[derive(Clone, Copy, Debug, PartialEq, Eq, Structural)]
pub enum WatchAction {
    /// Kill the child process.
    KillChild,
    /// Print the status line.
    PrintWatching,
    /// Replace the status line by a rule.
    ClearWatching,
    /// Format the file and report the outcome with [`Watcher::format_done`].
    FormatFile,
    /// Wait for this many milliseconds.
    Sleep(u64),
    /// Start a child process that runs the file.
    SpawnChild,
    /// Print the error that formatting ended with.
    ReportError,
    /// Say that formatting failed on every try.
    ReportGiveUp,
    /// Say that the program was interrupted.
    ReportInterrupted,
    /// Blank the status line.
    BlankLine,
    /// Leave the process.
    Exit,
}

/// The state of watch mode.
#[derive(Clone, Copy, Debug, PartialEq, Eq)]
pub struct Watcher {
    /// A child process is running the file.
    pub child: bool,
    /// The number of failed tries of the run in progress, if a run is in progress.
    pub attempt: Option<u8>,
}

/// The pause after the failed try number `attempt` (counted from 0), in milliseconds.
pub open spec fn backoff_millis(attempt: u8) -> int {
    (attempt + 1) * 10
}

/// The pauses of the tries before `attempt`, added up.
pub open spec fn total_backoff_millis(attempt: u8) -> int
    decreases attempt,
{
    if attempt == 0 {
        0
    } else {
        total_backoff_millis((attempt - 1) as u8) + backoff_millis((attempt - 1) as u8)
    }
}

impl Watcher {
    /// While a run is in progress its tries are counted below the limit, and
    /// the child of the run before has been killed.
    pub open spec fn wf(&self) -> bool {
        match self.attempt {
            Some(i) => i < FORMAT_TRIES && !self.child,
            None => true,
        }
    }

    /// The actions that begin a run, given whether a child was running.
    pub open spec fn begin_actions(child: bool) -> Seq<WatchAction> {
        if child {
            seq![WatchAction::KillChild, WatchAction::PrintWatching, WatchAction::FormatFile]
        } else {
            seq![WatchAction::FormatFile]
        }
    }

    /// The actions that follow the outcome of the try number `attempt`.
    pub open spec fn outcome_actions(attempt: u8, outcome: FormatOutcome) -> Seq<WatchAction> {
        match outcome {
            FormatOutcome::Empty => seq![WatchAction::ClearWatching, WatchAction::PrintWatching],
            FormatOutcome::Formatted => seq![WatchAction::ClearWatching, WatchAction::SpawnChild],
            FormatOutcome::Incomplete => if attempt + 1 < FORMAT_TRIES {
                seq![
                    WatchAction::Sleep(backoff_millis(attempt) as u64),
                    WatchAction::FormatFile,
                ]
            } else {
                seq![
                    WatchAction::Sleep(backoff_millis(attempt) as u64),
                    WatchAction::ReportGiveUp,
                ]
            },
            FormatOutcome::Failed => seq![
                WatchAction::ClearWatching,
                WatchAction::ReportError,
                WatchAction::PrintWatching,
            ],
        }
    }

    /// The state after the outcome of the try number `attempt`.
    pub open spec fn after_outcome(attempt: u8, outcome: FormatOutcome) -> Watcher {
        match outcome {
            FormatOutcome::Formatted => Watcher { child: true, attempt: None },
            FormatOutcome::Incomplete => if attempt + 1 < FORMAT_TRIES {
                Watcher { child: false, attempt: Some((attempt + 1) as u8) }
            } else {
                Watcher { child: false, attempt: None }
            },
            _ => Watcher { child: false, attempt: None },
        }
    }

    /// A watcher with no child and no run in progress.
    pub fn new() -> (w: Watcher)
        ensures
            w.wf(),
            !w.child,
            w.attempt is None,
    {
        Watcher { child: false, attempt: None }
    }

    /// Whether a child process is running, so that the caller has one to poll.
    pub fn child_running(&self) -> (r: bool)
        ensures
            r == self.child,
    {
        self.child
    }

    /// Whether a change is acted on: a source file changed, and the last run
    /// began more than the debounce time ago.
    pub fn should_run(changed: bool, elapsed_nanos: u128) -> (r: bool)
        ensures
            r == (changed && elapsed_nanos > DEBOUNCE_NANOS),
    {
        changed && elapsed_nanos > DEBOUNCE_NANOS
    }

    /// Begins a run of the watched file: a child that still runs is killed, and
    /// the file is formatted for the first time.
    pub fn begin_run(&mut self) -> (actions: Vec<WatchAction>)
        ensures
            actions@ == Self::begin_actions(old(self).child),
            *final(self) == (Watcher { child: false, attempt: Some(0) }),
            final(self).wf(),
    {
        let mut actions: Vec<WatchAction> = Vec::new();
        if self.child {
            actions.push(WatchAction::KillChild);
            actions.push(WatchAction::PrintWatching);
        }
        actions.push(WatchAction::FormatFile);
        self.child = false;
        self.attempt = Some(0);
        assert(actions@ =~= Self::begin_actions(old(self).child));
        actions
    }

    /// Takes the outcome of the try that [`WatchAction::FormatFile`] asked for.
    ///
    /// An empty file ends the run, a formatted one is run in a child, a failure
    /// is reported. Source that is incomplete is tried again after a pause that
    /// grows with each try, until the tries are used up. Without a run in
    /// progress nothing happens.
    pub fn format_done(&mut self, outcome: FormatOutcome) -> (actions: Vec<WatchAction>)
        ensures
            old(self).wf() ==> final(self).wf(),
            match old(self).attempt {
                Some(i) => {
                    &&& actions@ == Self::outcome_actions(i, outcome)
                    &&& *final(self) == Self::after_outcome(i, outcome)
                },
                None => actions@.len() == 0 && *final(self) == *old(self),
            },
    {
        let mut actions: Vec<WatchAction> = Vec::new();
        let i: u8 = match self.attempt {
            Some(i) => i,
            None => {
                return actions;
            },
        };
        self.child = false;
        match outcome {
            FormatOutcome::Empty => {
                actions.push(WatchAction::ClearWatching);
                actions.push(WatchAction::PrintWatching);
                self.attempt = None;
            },
            FormatOutcome::Formatted => {
                actions.push(WatchAction::ClearWatching);
                actions.push(WatchAction::SpawnChild);
                self.attempt = None;
                self.child = true;
            },
            FormatOutcome::Incomplete => {
                let pause: u64 = (i as u64 + 1) * 10;
                actions.push(WatchAction::Sleep(pause));
                if i < FORMAT_TRIES - 1 {
                    actions.push(WatchAction::FormatFile);
                    self.attempt = Some(i + 1);
                } else {
                    actions.push(WatchAction::ReportGiveUp);
                    self.attempt = None;
                }
            },
            FormatOutcome::Failed => {
                actions.push(WatchAction::ClearWatching);
                actions.push(WatchAction::ReportError);
                actions.push(WatchAction::PrintWatching);
                self.attempt = None;
            },
        }
        assert(actions@ =~= Self::outcome_actions(i, outcome));
        actions
    }

    /// Takes what a look at the child process showed: when it has ended, the
    /// status line comes back.
    pub fn child_polled(&mut self, exited: bool) -> (actions: Vec<WatchAction>)
        ensures
            old(self).child && exited ==> {
                &&& actions@ == seq![WatchAction::PrintWatching]
                &&& *final(self) == (Watcher { child: false, attempt: old(self).attempt })
            },
            !(old(self).child && exited) ==> actions@.len() == 0 && *final(self) == *old(self),
            old(self).wf() ==> final(self).wf(),
    {
        let mut actions: Vec<WatchAction> = Vec::new();
        if self.child && exited {
            actions.push(WatchAction::PrintWatching);
            self.child = false;
        }
        actions
    }

    /// Takes an interrupt from the keyboard. The first one ends a running
    /// child; with no child running the process ends, after blanking the
    /// status line where `watching` says that one is shown.
    pub fn interrupted(&mut self, watching: bool) -> (actions: Vec<WatchAction>)
        ensures
            *final(self) == (Watcher { child: false, attempt: old(self).attempt }),
            old(self).wf() ==> final(self).wf(),
            actions@ == if old(self).child {
                seq![
                    WatchAction::KillChild,
                    WatchAction::ReportInterrupted,
                    WatchAction::PrintWatching,
                ]
            } else if watching {
                seq![WatchAction::BlankLine, WatchAction::Exit]
            } else {
                seq![WatchAction::Exit]
            },
    {
        let mut actions: Vec<WatchAction> = Vec::new();
        if self.child {
            actions.push(WatchAction::KillChild);
            actions.push(WatchAction::ReportInterrupted);
            actions.push(WatchAction::PrintWatching);
            self.child = false;
        } else {
            if watching {
                actions.push(WatchAction::BlankLine);
            }
            actions.push(WatchAction::Exit);
        }
        actions
    }
}

/// The arguments of the child process that runs `path`: the file is run
/// unformatted, in the mode that runs everything, with the audio clock handed on.
pub open spec fn child_argument_texts(
    path: Seq<char>,
    audio_time: Seq<char>,
    audio_port: Option<Seq<char>>,
) -> Seq<Seq<char>> {
    let fixed = seq!["run"@, path, "--no-format"@, "--mode"@, "all"@, "--audio-time"@, audio_time];
    match audio_port {
        Some(port) => fixed + seq!["--audio-port"@, port],
        None => fixed,
    }
}

/// The arguments of the child process that runs `path`.
pub fn child_arguments(path: &str, audio_time: &str, audio_port: Option<&str>) -> (args: Vec<
    String,
>)
    ensures
        crate::files::texts(args@) == child_argument_texts(
            path@,
            audio_time@,
            match audio_port {
                Some(p) => Some(p@),
                None => None,
            },
        ),
{
    let mut args: Vec<String> = Vec::new();
    args.push(String::from_str("run"));
    args.push(String::from_str(path));
    args.push(String::from_str("--no-format"));
    args.push(String::from_str("--mode"));
    args.push(String::from_str("all"));
    args.push(String::from_str("--audio-time"));
    args.push(String::from_str(audio_time));
    assert(crate::files::texts(args@) =~= seq![
        "run"@,
        path@,
        "--no-format"@,
        "--mode"@,
        "all"@,
        "--audio-time"@,
        audio_time@,
    ]);
    match audio_port {
        Some(port) => {
            let ghost before = args@;
            args.push(String::from_str("--audio-port"));
            args.push(String::from_str(port));
            assert(crate::files::texts(args@) =~= crate::files::texts(before) + seq![
                "--audio-port"@,
                port@,
            ]);
        },
        None => {},
    }
    args
}

/// A run never pauses longer than this in all: the pauses of all the tries
/// add up to 550 milliseconds.
pub proof fn lemma_total_backoff()
    ensures
        total_backoff_millis(FORMAT_TRIES) == 550,
{
    reveal_with_fuel(total_backoff_millis, 11);
}

} // verus!
