use uiua_core::cli::{
    first_step, next_step, plan, Invocation, Next, RunMode, Step, GIVE_UP, INTERRUPTED,
    MAIN_CONTENTS, MAIN_FILE, NO_FAILURES, NO_UA_FILE, WATCH_BANNER,
};
use uiua_core::files::{changed_source, uiua_files, working_file_path, FileEntry, FileEvent};

fn s(text: &str) -> String {
    text.to_string()
}

fn entry(path: &str, extension: Option<&str>) -> FileEntry {
    FileEntry { path: s(path), extension: extension.map(s) }
}

#[test]
fn init_creates_the_main_file_and_opens_it() {
    assert_eq!(
        plan(&Invocation::Init, None, vec![]),
        vec![
            Step::Write { path: s("main.ua"), contents: s("\"Hello, World!\"") },
            Step::Open(s("main.ua")),
        ]
    );
    assert_eq!(MAIN_FILE, "main.ua");
    assert_eq!(MAIN_CONTENTS, "\"Hello, World!\"");
}

#[test]
fn init_keeps_an_existing_file() {
    assert_eq!(
        plan(&Invocation::Init, Some(s("src/a.ua")), vec![]),
        vec![Step::Complain(s("File already exists: src/a.ua"))]
    );
}

#[test]
fn fmt_formats_the_given_file_or_every_source_file() {
    assert_eq!(
        plan(&Invocation::Fmt { path: Some(s("x.ua")) }, Some(s("main.ua")), vec![s("a.ua")]),
        vec![Step::Format(s("x.ua"))]
    );
    assert_eq!(
        plan(&Invocation::Fmt { path: None }, None, vec![s("a.ua"), s("b.ua")]),
        vec![Step::Format(s("a.ua")), Step::Format(s("b.ua"))]
    );
    assert_eq!(plan(&Invocation::Fmt { path: None }, None, vec![]), vec![]);
}

#[test]
fn run_formats_runs_and_prints() {
    let inv = Invocation::Run { path: Some(s("x.ua")), no_format: false, mode: None };
    assert_eq!(
        plan(&inv, Some(s("main.ua")), vec![]),
        vec![
            Step::Format(s("x.ua")),
            Step::Execute { path: s("x.ua"), mode: RunMode::Normal },
            Step::PrintStack,
        ]
    );
}

#[test]
fn run_can_skip_formatting_and_choose_the_mode() {
    let inv = Invocation::Run { path: None, no_format: true, mode: Some(RunMode::All) };
    assert_eq!(
        plan(&inv, Some(s("main.ua")), vec![]),
        vec![Step::Execute { path: s("main.ua"), mode: RunMode::All }, Step::PrintStack]
    );
}

#[test]
fn commands_without_a_file_say_so() {
    let no_file = vec![Step::Complain(s(NO_UA_FILE))];
    let run = Invocation::Run { path: None, no_format: false, mode: None };
    assert_eq!(plan(&run, None, vec![]), no_file);
    assert_eq!(plan(&Invocation::Test { path: None }, None, vec![]), no_file);
    assert_eq!(plan(&Invocation::Watch, None, vec![]), no_file);
    assert_eq!(
        NO_UA_FILE,
        "No .ua file found nearby. Initialize one in the current directory with `uiua init`"
    );
}

#[test]
fn test_always_formats_and_runs_the_tests() {
    assert_eq!(
        plan(&Invocation::Test { path: None }, Some(s("main.ua")), vec![]),
        vec![
            Step::Format(s("main.ua")),
            Step::Execute { path: s("main.ua"), mode: RunMode::Test },
            Step::Say(s("No failures!")),
        ]
    );
    assert_eq!(NO_FAILURES, "No failures!");
}

#[test]
fn watch_opens_and_watches_the_working_file() {
    let steps = vec![Step::Open(s("main.ua")), Step::Watch(s("main.ua"))];
    assert_eq!(plan(&Invocation::Watch, Some(s("main.ua")), vec![]), steps);
    assert_eq!(plan(&Invocation::Missing, Some(s("main.ua")), vec![]), steps);
}

#[test]
fn no_command_and_no_file_prints_the_usage() {
    assert_eq!(
        plan(&Invocation::Missing, None, vec![]),
        vec![Step::PrintUsage, Step::Complain(format!("\n{}", NO_UA_FILE))]
    );
    assert_eq!(plan(&Invocation::Invalid, Some(s("main.ua")), vec![]), vec![Step::PrintUsage]);
    assert_eq!(plan(&Invocation::Lsp, None, vec![]), vec![Step::ServeEditor]);
}

#[test]
fn commands_say_what_they_need() {
    let run_path = Invocation::Run { path: Some(s("x.ua")), no_format: false, mode: None };
    let run = Invocation::Run { path: None, no_format: false, mode: None };
    for (inv, working, sources, status) in [
        (Invocation::Init, true, false, false),
        (Invocation::Fmt { path: None }, false, true, false),
        (Invocation::Fmt { path: Some(s("x.ua")) }, false, false, false),
        (run, true, false, false),
        (run_path, false, false, false),
        (Invocation::Test { path: None }, true, false, false),
        (Invocation::Test { path: Some(s("x.ua")) }, false, false, false),
        (Invocation::Watch, true, false, true),
        (Invocation::Lsp, false, false, false),
        (Invocation::Missing, true, false, true),
        (Invocation::Invalid, false, false, true),
    ] {
        assert_eq!(inv.needs_working_file(), working, "{:?}", inv);
        assert_eq!(inv.needs_source_files(), sources, "{:?}", inv);
        assert_eq!(inv.shows_status_line(), status, "{:?}", inv);
    }
}

#[test]
fn the_messages_are_fixed() {
    assert_eq!(
        WATCH_BANNER,
        "Watching for changes... (end with ctrl+C, use `uiua help` to see options)"
    );
    assert_eq!(GIVE_UP, "Failed to format file after 10 tries");
    assert_eq!(INTERRUPTED, "# Program interrupted");
}

#[test]
fn source_files_have_the_extension_ua() {
    assert!(entry("main.ua", Some("ua")).has_source_extension());
    assert!(!entry("main.rs", Some("rs")).has_source_extension());
    assert!(!entry("ua", None).has_source_extension());
    assert!(!entry("main.UA", Some("UA")).has_source_extension());
    assert!(!entry("main.uaa", Some("uaa")).has_source_extension());
    assert!(!entry("main.u", Some("u")).has_source_extension());
}

#[test]
fn the_working_file_is_the_main_file_or_the_first_source_file() {
    let entries = vec![
        entry("README.md", Some("md")),
        entry("b.ua", Some("ua")),
        entry("a.ua", Some("ua")),
    ];
    assert_eq!(working_file_path(true, true, &entries), Some(s("src.main.ua")));
    assert_eq!(working_file_path(true, false, &entries), Some(s("src.main.ua")));
    assert_eq!(working_file_path(false, true, &entries), Some(s("main.ua")));
    assert_eq!(working_file_path(false, false, &entries), Some(s("b.ua")));
    assert_eq!(working_file_path(false, false, &entries[..1].to_vec()), None);
    assert_eq!(working_file_path(false, false, &vec![]), None);
}

#[test]
fn uiua_files_keeps_the_source_files_in_order() {
    let entries = vec![
        entry("b.ua", Some("ua")),
        entry("README.md", Some("md")),
        entry("Makefile", None),
        entry("a.ua", Some("ua")),
    ];
    assert_eq!(uiua_files(&entries), vec![s("b.ua"), s("a.ua")]);
    assert_eq!(uiua_files(&vec![]), Vec::<String>::new());
}

#[test]
fn the_last_modified_source_file_is_run_again() {
    let events = vec![
        FileEvent { modified: true, paths: vec![entry("a.ua", Some("ua")), entry("x.rs", Some("rs"))] },
        FileEvent { modified: false, paths: vec![entry("c.ua", Some("ua"))] },
        FileEvent { modified: true, paths: vec![entry("b.ua", Some("ua")), entry("d.ua", Some("ua"))] },
        FileEvent { modified: true, paths: vec![entry("notes.txt", Some("txt"))] },
        FileEvent { modified: true, paths: vec![] },
    ];
    assert_eq!(changed_source(&events), Some(s("d.ua")));
    assert_eq!(changed_source(&events[..2].to_vec()), Some(s("a.ua")));
    assert_eq!(changed_source(&events[1..2].to_vec()), None);
    assert_eq!(changed_source(&events[3..].to_vec()), None);
    assert_eq!(changed_source(&vec![]), None);
}

/// Carries out a plan as a caller does, with `fails` telling of each step
/// whether it fails, and hands out the numbers of the steps carried out and
/// how the command ended.
fn carried_out(steps: &Vec<Step>, fails: &[bool]) -> (Vec<usize>, Next) {
    let mut done = vec![];
    let mut next = first_step(steps);
    while let Next::Step(at) = next {
        done.push(at);
        next = next_step(steps, at, fails[at]);
    }
    (done, next)
}

#[test]
fn a_plan_without_failures_is_carried_out_to_its_end() {
    let steps = plan(&Invocation::Test { path: Some(s("x.ua")) }, None, vec![]);
    assert_eq!(carried_out(&steps, &[false, false, false]), (vec![0, 1, 2], Next::Finished));
    assert_eq!(steps[2], Step::Say(s("No failures!")));
    assert_eq!(first_step(&vec![]), Next::Finished);
    assert_eq!(next_step(&steps, 2, false), Next::Finished);
    assert_eq!(next_step(&steps, 7, true), Next::Finished);
}

#[test]
fn a_failed_formatting_ends_the_command() {
    let test = plan(&Invocation::Test { path: Some(s("x.ua")) }, None, vec![]);
    assert_eq!(carried_out(&test, &[true, false, false]), (vec![0], Next::Failed));
    let run = Invocation::Run { path: Some(s("x.ua")), no_format: false, mode: None };
    let steps = plan(&run, None, vec![]);
    assert_eq!(carried_out(&steps, &[true, false, false]), (vec![0], Next::Failed));
    let all = plan(&Invocation::Fmt { path: None }, None, vec![s("a.ua"), s("b.ua"), s("c.ua")]);
    assert_eq!(carried_out(&all, &[false, true, false]), (vec![0, 1], Next::Failed));
}

#[test]
fn a_failed_run_keeps_the_last_word_back() {
    let test = plan(&Invocation::Test { path: Some(s("x.ua")) }, None, vec![]);
    assert_eq!(carried_out(&test, &[false, true, false]), (vec![0, 1], Next::Failed));
    let run = Invocation::Run { path: Some(s("x.ua")), no_format: true, mode: Some(RunMode::All) };
    let steps = plan(&run, None, vec![]);
    assert_eq!(carried_out(&steps, &[true, false]), (vec![0], Next::Failed));
    assert_eq!(carried_out(&steps, &[false, false]), (vec![0, 1], Next::Finished));
}

#[test]
fn other_failures_do_not_end_the_command() {
    let steps = plan(&Invocation::Watch, Some(s("main.ua")), vec![]);
    assert_eq!(carried_out(&steps, &[true, true]), (vec![0, 1], Next::Finished));
    assert!(Step::Format(s("a.ua")).is_vital());
    assert!(Step::Execute { path: s("a.ua"), mode: RunMode::Test }.is_vital());
    assert!(!Step::Open(s("a.ua")).is_vital());
    assert!(!Step::Say(s("No failures!")).is_vital());
}
