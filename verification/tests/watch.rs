use uiua_core::format::FormatError;
use uiua_core::terminal::WATCHING;
use uiua_core::watch::{
    child_arguments, FormatOutcome, WatchAction, Watcher, DEBOUNCE_NANOS, FORMAT_TRIES, POLL_MILLIS,
};

#[test]
fn a_new_watcher_is_idle() {
    let w = Watcher::new();
    assert_eq!(w, Watcher { child: false, attempt: None });
    assert!(!w.child_running());
    assert_eq!(WATCHING, "watching for changes...");
    assert_eq!(POLL_MILLIS, 10);
}

#[test]
fn a_change_is_acted_on_after_a_tenth_of_a_second() {
    assert!(Watcher::should_run(true, 100_000_001));
    assert!(!Watcher::should_run(true, 100_000_000));
    assert!(!Watcher::should_run(true, 0));
    assert!(!Watcher::should_run(false, 5_000_000_000));
    assert_eq!(DEBOUNCE_NANOS, 100_000_000);
}

#[test]
fn a_run_begins_with_formatting() {
    let mut w = Watcher::new();
    assert_eq!(w.begin_run(), vec![WatchAction::FormatFile]);
    assert_eq!(w, Watcher { child: false, attempt: Some(0) });
}

#[test]
fn a_run_kills_the_child_of_the_run_before() {
    let mut w = Watcher { child: true, attempt: None };
    assert_eq!(
        w.begin_run(),
        vec![WatchAction::KillChild, WatchAction::PrintWatching, WatchAction::FormatFile]
    );
    assert!(!w.child_running());
}

#[test]
fn a_formatted_file_is_run_in_a_child() {
    let mut w = Watcher::new();
    w.begin_run();
    assert_eq!(
        w.format_done(FormatOutcome::Formatted),
        vec![WatchAction::ClearWatching, WatchAction::SpawnChild]
    );
    assert_eq!(w, Watcher { child: true, attempt: None });
}

#[test]
fn an_empty_file_is_not_run() {
    let mut w = Watcher::new();
    w.begin_run();
    assert_eq!(
        w.format_done(FormatOutcome::Empty),
        vec![WatchAction::ClearWatching, WatchAction::PrintWatching]
    );
    assert_eq!(w, Watcher::new());
}

#[test]
fn a_failure_is_reported() {
    let mut w = Watcher::new();
    w.begin_run();
    assert_eq!(
        w.format_done(FormatOutcome::Failed),
        vec![WatchAction::ClearWatching, WatchAction::ReportError, WatchAction::PrintWatching]
    );
    assert_eq!(w, Watcher::new());
}

#[test]
fn incomplete_source_is_tried_ten_times_with_growing_pauses() {
    let mut w = Watcher::new();
    w.begin_run();
    let mut slept = 0;
    for attempt in 0..9u64 {
        let actions = w.format_done(FormatOutcome::Incomplete);
        assert_eq!(
            actions,
            vec![WatchAction::Sleep((attempt + 1) * 10), WatchAction::FormatFile]
        );
        assert_eq!(w.attempt, Some(attempt as u8 + 1));
        slept += (attempt + 1) * 10;
    }
    assert_eq!(
        w.format_done(FormatOutcome::Incomplete),
        vec![WatchAction::Sleep(100), WatchAction::ReportGiveUp]
    );
    slept += 100;
    assert_eq!(slept, 550);
    assert_eq!(w, Watcher::new());
    assert_eq!(FORMAT_TRIES, 10);
}

#[test]
fn a_later_try_can_succeed() {
    let mut w = Watcher::new();
    w.begin_run();
    w.format_done(FormatOutcome::Incomplete);
    w.format_done(FormatOutcome::Incomplete);
    assert_eq!(
        w.format_done(FormatOutcome::Formatted),
        vec![WatchAction::ClearWatching, WatchAction::SpawnChild]
    );
    assert!(w.child_running());
}

#[test]
fn an_outcome_without_a_run_does_nothing() {
    let mut w = Watcher { child: true, attempt: None };
    assert_eq!(w.format_done(FormatOutcome::Formatted), vec![]);
    assert_eq!(w, Watcher { child: true, attempt: None });
}

#[test]
fn the_status_line_comes_back_when_the_child_ends() {
    let mut w = Watcher { child: true, attempt: None };
    assert_eq!(w.child_polled(false), vec![]);
    assert!(w.child_running());
    assert_eq!(w.child_polled(true), vec![WatchAction::PrintWatching]);
    assert!(!w.child_running());
    assert_eq!(w.child_polled(true), vec![]);
}

#[test]
fn an_interrupt_ends_the_child_first_and_then_the_process() {
    let mut w = Watcher { child: true, attempt: None };
    assert_eq!(
        w.interrupted(true),
        vec![WatchAction::KillChild, WatchAction::ReportInterrupted, WatchAction::PrintWatching]
    );
    assert!(!w.child_running());
    assert_eq!(w.interrupted(true), vec![WatchAction::BlankLine, WatchAction::Exit]);
    assert_eq!(w.interrupted(false), vec![WatchAction::Exit]);
}

#[test]
fn the_child_runs_the_file_unformatted_in_full() {
    assert_eq!(
        child_arguments("main.ua", "0", None),
        vec!["run", "main.ua", "--no-format", "--mode", "all", "--audio-time", "0"]
    );
    assert_eq!(
        child_arguments("a b.ua", "1.5", Some("4711")),
        vec![
            "run",
            "a b.ua",
            "--no-format",
            "--mode",
            "all",
            "--audio-time",
            "1.5",
            "--audio-port",
            "4711"
        ]
    );
}

#[test]
fn the_outcome_of_formatting_goes_by_the_text() {
    assert_eq!(FormatOutcome::of(&Ok(String::new())), FormatOutcome::Empty);
    assert_eq!(FormatOutcome::of(&Ok("+ 1 2".to_string())), FormatOutcome::Formatted);
    assert_eq!(
        FormatOutcome::of(&Err(FormatError::Incomplete { position: 0 })),
        FormatOutcome::Incomplete
    );
}
