//! What each command of the command-line tool does, as a list of steps.
//!
//! The caller reads the command line and the directory, asks [`plan`] for the
//! steps, and carries them out one by one: [`first_step`] says where to begin,
//! and [`next_step`] says after each step, from how it ended, what follows. A
//! command ends with the first formatting or run that fails, and nothing that
//! stands behind it in the plan is carried out.

use vstd::prelude::*;
use vstd::string::StringExecFns;
use crate::files::texts;

verus! {

/// Said where a command needs a source file and none is found.
pub const NO_UA_FILE: &'static str =
    "No .ua file found nearby. Initialize one in the current directory with `uiua init`";

/// The file that `init` creates.
pub const MAIN_FILE: &'static str = "main.ua";

/// What `init` writes into the new file.
pub const MAIN_CONTENTS: &'static str = "\"Hello, World!\"";

/// Said when a file has been tested.
pub const NO_FAILURES: &'static str = "No failures!";

/// Said when watch mode begins.
pub const WATCH_BANNER: &'static str =
    "Watching for changes... (end with ctrl+C, use `uiua help` to see options)";

/// Said when every try to format a watched file has failed.
pub const GIVE_UP: &'static str = "Failed to format file after 10 tries";

/// Said when a watched program is interrupted from the keyboard.
pub const INTERRUPTED: &'static str = "# Program interrupted";

/// The mode of a run. The interpreter is told the mode and keeps it; as the
/// language has no means to mark a line as a test, every line of a file is
/// carried out in every mode.
#[derive(Clone, Copy, Debug, PartialEq, Eq, Structural)]
pub enum RunMode {
    /// An ordinary run.
    Normal,
    /// A run that tests the file.
    Test,
    /// The run of a watched file, which leaves nothing out.
    All,
}

/// A parsed command line.
#[derive(Clone, Debug, PartialEq, Eq)]
pub enum Invocation {
    /// Create a new main file.
    Init,
    /// Format one file, or every source file of the directory.
    Fmt { path: Option<String> },
    /// Format and run a file.
    Run { path: Option<String>, no_format: bool, mode: Option<RunMode> },
    /// Format and test a file.
    Test { path: Option<String> },
    /// Run the main file again whenever a source file changes.
    Watch,
    /// Serve an editor over the language server protocol.
    Lsp,
    /// No command was given.
    Missing,
    /// The command line could not be understood.
    Invalid,
}

/// One thing for the caller to do.
#[derive(Clone, Debug, PartialEq, Eq)]
pub enum Step {
    /// Print a line on the standard error stream.
    Complain(String),
    /// Print a line on the standard output stream.
    Say(String),
    /// Print what the command-line parser has to say.
    PrintUsage,
    /// Write a file.
    Write { path: String, contents: String },
    /// Open a file in the program that the system has for it.
    Open(String),
    /// Format a file in place.
    Format(String),
    /// Load and run a file.
    Execute { path: String, mode: RunMode },
    /// Print the values left on the stack by the last run.
    PrintStack,
    /// Enter watch mode on a file.
    Watch(String),
    /// Run the language server.
    ServeEditor,
}

/// A [`Step`] with its texts as sequences of characters.
pub enum StepView {
    Complain(Seq<char>),
    Say(Seq<char>),
    PrintUsage,
    Write { path: Seq<char>, contents: Seq<char> },
    Open(Seq<char>),
    Format(Seq<char>),
    Execute { path: Seq<char>, mode: RunMode },
    PrintStack,
    Watch(Seq<char>),
    ServeEditor,
}

impl View for Step {
    type V = StepView;

    open spec fn view(&self) -> StepView {
        match self {
            Step::Complain(m) => StepView::Complain(m@),
            Step::Say(m) => StepView::Say(m@),
            Step::PrintUsage => StepView::PrintUsage,
            Step::Write { path, contents } => StepView::Write { path: path@, contents: contents@ },
            Step::Open(p) => StepView::Open(p@),
            Step::Format(p) => StepView::Format(p@),
            Step::Execute { path, mode } => StepView::Execute { path: path@, mode: *mode },
            Step::PrintStack => StepView::PrintStack,
            Step::Watch(p) => StepView::Watch(p@),
            Step::ServeEditor => StepView::ServeEditor,
        }
    }
}

impl StepView {
    /// Whether a failure of the step ends the command: the formatting of a
    /// file and a run do, with their error. What the other steps print, open
    /// or watch does not decide about what follows.
    pub open spec fn is_vital(self) -> bool {
        self is Format || self is Execute
    }
}

/// What the caller does next.
#[derive(Clone, Copy, Debug, PartialEq, Eq, Structural)]
pub enum Next {
    /// Carry out the step with this number.
    Step(usize),
    /// Every step has been carried out: the command has ended well.
    Finished,
    /// The command has ended with the error of the step that failed. No
    /// further step is carried out.
    Failed,
}

/// What follows in the plan `steps` when the step number `at` has been
/// carried out, and has failed or not.
pub open spec fn following(steps: Seq<StepView>, at: int, failed: bool) -> Next {
    if 0 <= at < steps.len() && failed && steps[at].is_vital() {
        Next::Failed
    } else if 0 <= at + 1 < steps.len() {
        Next::Step((at + 1) as usize)
    } else {
        Next::Finished
    }
}

/// The step number `at` of the plan `steps` is carried out, where `failed`
/// says of each step before it whether it has failed: no formatting and no
/// run before it has.
pub open spec fn reached(steps: Seq<StepView>, failed: Seq<bool>, at: int) -> bool {
    &&& 0 <= at < steps.len()
    &&& forall|k: int|
        0 <= k < at && k < failed.len() ==> !(#[trigger] failed[k] && steps[k].is_vital())
}

/// The views of a sequence of steps.
pub open spec fn step_views(steps: Seq<Step>) -> Seq<StepView> {
    steps.map_values(|s: Step| s@)
}

/// The text of a string that may be missing.
pub open spec fn option_text(s: Option<String>) -> Option<Seq<char>> {
    match s {
        Some(s) => Some(s@),
        None => None,
    }
}

/// The path that a command works on: the one it was given, else the working file.
pub open spec fn target(path: Option<String>, working: Option<Seq<char>>) -> Option<Seq<char>> {
    match path {
        Some(p) => Some(p@),
        None => working,
    }
}

/// The steps that format, load and run `path`, and what follows a run.
pub open spec fn run_steps(path: Seq<char>, format: bool, mode: RunMode, then: StepView) -> Seq<
    StepView,
> {
    let run = seq![StepView::Execute { path, mode }, then];
    if format {
        seq![StepView::Format(path)] + run
    } else {
        run
    }
}

/// The steps that open `path` and watch it.
pub open spec fn watch_steps(path: Seq<char>) -> Seq<StepView> {
    seq![StepView::Open(path), StepView::Watch(path)]
}

impl Invocation {
    /// Whether the command asks which file of the directory to work on.
    pub open spec fn wants_working_file(&self) -> bool {
        match self {
            Invocation::Init | Invocation::Watch | Invocation::Missing => true,
            Invocation::Run { path, .. } => path is None,
            Invocation::Test { path } => path is None,
            _ => false,
        }
    }

    /// Whether the command works on every source file of the directory.
    pub open spec fn wants_source_files(&self) -> bool {
        match self {
            Invocation::Fmt { path } => path is None,
            _ => false,
        }
    }

    /// Whether the caller has to look for the working file before it asks for
    /// the plan.
    pub fn needs_working_file(&self) -> (r: bool)
        ensures
            r == self.wants_working_file(),
    {
        match self {
            Invocation::Init | Invocation::Watch | Invocation::Missing => true,
            Invocation::Run { path, .. } => path.is_none(),
            Invocation::Test { path } => path.is_none(),
            _ => false,
        }
    }

    /// Whether the caller has to list the source files of the directory
    /// before it asks for the plan.
    pub fn needs_source_files(&self) -> (r: bool)
        ensures
            r == self.wants_source_files(),
    {
        match self {
            Invocation::Fmt { path } => path.is_none(),
            _ => false,
        }
    }

    /// Whether a status line is on the screen while this command runs, so that
    /// an interrupt has one to blank.
    pub fn shows_status_line(&self) -> (r: bool)
        ensures
            r == (*self is Watch || *self is Missing || *self is Invalid),
    {
        match self {
            Invocation::Watch | Invocation::Missing | Invocation::Invalid => true,
            _ => false,
        }
    }
}

/// The steps of a command, given the working file of the directory (where one
/// was found) and the source files of the directory.
pub open spec fn plan_spec(inv: Invocation, working: Option<Seq<char>>, sources: Seq<Seq<char>>) -> Seq<
    StepView,
> {
    match inv {
        Invocation::Init => match working {
            Some(p) => seq![StepView::Complain("File already exists: "@ + p)],
            None => seq![
                StepView::Write { path: MAIN_FILE@, contents: MAIN_CONTENTS@ },
                StepView::Open(MAIN_FILE@),
            ],
        },
        Invocation::Fmt { path } => match path {
            Some(p) => seq![StepView::Format(p@)],
            None => sources.map_values(|p: Seq<char>| StepView::Format(p)),
        },
        Invocation::Run { path, no_format, mode } => match target(path, working) {
            Some(p) => run_steps(
                p,
                !no_format,
                match mode {
                    Some(m) => m,
                    None => RunMode::Normal,
                },
                StepView::PrintStack,
            ),
            None => seq![StepView::Complain(NO_UA_FILE@)],
        },
        Invocation::Test { path } => match target(path, working) {
            Some(p) => run_steps(p, true, RunMode::Test, StepView::Say(NO_FAILURES@)),
            None => seq![StepView::Complain(NO_UA_FILE@)],
        },
        Invocation::Watch => match working {
            Some(p) => watch_steps(p),
            None => seq![StepView::Complain(NO_UA_FILE@)],
        },
        Invocation::Lsp => seq![StepView::ServeEditor],
        Invocation::Missing => match working {
            Some(p) => watch_steps(p),
            None => seq![StepView::PrintUsage, StepView::Complain("\n"@ + NO_UA_FILE@)],
        },
        Invocation::Invalid => seq![StepView::PrintUsage],
    }
}

fn pick_target(path: &Option<String>, working: Option<String>) -> (r: Option<String>)
    ensures
        option_text(r) == target(*path, option_text(working)),
{
    match path {
        Some(p) => Some(p.clone()),
        None => working,
    }
}

fn run_plan(path: String, format: bool, mode: RunMode, then: Step) -> (steps: Vec<Step>)
    ensures
        step_views(steps@) == run_steps(path@, format, mode, then@),
{
    let mut steps: Vec<Step> = Vec::new();
    if format {
        steps.push(Step::Format(path.clone()));
    }
    steps.push(Step::Execute { path, mode });
    steps.push(then);
    assert(step_views(steps@) =~= run_steps(path@, format, mode, then@));
    steps
}

fn watch_plan(path: String) -> (steps: Vec<Step>)
    ensures
        step_views(steps@) == watch_steps(path@),
{
    let mut steps: Vec<Step> = Vec::new();
    steps.push(Step::Open(path.clone()));
    steps.push(Step::Watch(path));
    assert(step_views(steps@) =~= watch_steps(path@));
    steps
}

fn complaint(message: String) -> (steps: Vec<Step>)
    ensures
        step_views(steps@) == seq![StepView::Complain(message@)],
{
    let mut steps: Vec<Step> = Vec::new();
    steps.push(Step::Complain(message));
    assert(step_views(steps@) =~= seq![StepView::Complain(message@)]);
    steps
}

/// The steps of the command `inv`.
///
/// `working` is the working file of the directory where the caller looked for
/// one and found it; `sources` are the source files of the directory where the
/// caller listed them. A command that does not need one of them ignores it.
pub fn plan(inv: &Invocation, working: Option<String>, sources: Vec<String>) -> (steps: Vec<Step>)
    ensures
        step_views(steps@) == plan_spec(*inv, option_text(working), texts(sources@)),
{
    match inv {
        Invocation::Init => match working {
            Some(p) => complaint(String::from_str("File already exists: ").concat(p.as_str())),
            None => {
                let mut steps: Vec<Step> = Vec::new();
                steps.push(
                    Step::Write {
                        path: String::from_str(MAIN_FILE),
                        contents: String::from_str(MAIN_CONTENTS),
                    },
                );
                steps.push(Step::Open(String::from_str(MAIN_FILE)));
                assert(step_views(steps@) =~= plan_spec(*inv, None, texts(sources@)));
                steps
            },
        },
        Invocation::Fmt { path } => match path {
            Some(p) => {
                let mut steps: Vec<Step> = Vec::new();
                steps.push(Step::Format(p.clone()));
                assert(step_views(steps@) =~= seq![StepView::Format(p@)]);
                steps
            },
            None => {
                let mut steps: Vec<Step> = Vec::new();
                let mut i: usize = 0;
                while i < sources.len()
                    invariant
                        i <= sources.len(),
                        steps@.len() == i,
                        forall|k: int|
                            0 <= k < i ==> (#[trigger] steps@[k])@ == StepView::Format(
                                sources@[k]@,
                            ),
                    decreases sources.len() - i,
                {
                    steps.push(Step::Format(sources[i].clone()));
                    i = i + 1;
                }
                assert(step_views(steps@) =~= texts(sources@).map_values(
                    |p: Seq<char>| StepView::Format(p),
                ));
                steps
            },
        },
        Invocation::Run { path, no_format, mode } => match pick_target(path, working) {
            Some(p) => {
                let mode = match mode {
                    Some(m) => *m,
                    None => RunMode::Normal,
                };
                run_plan(p, !*no_format, mode, Step::PrintStack)
            },
            None => complaint(String::from_str(NO_UA_FILE)),
        },
        Invocation::Test { path } => match pick_target(path, working) {
            Some(p) => run_plan(p, true, RunMode::Test, Step::Say(String::from_str(NO_FAILURES))),
            None => complaint(String::from_str(NO_UA_FILE)),
        },
        Invocation::Watch => match working {
            Some(p) => watch_plan(p),
            None => complaint(String::from_str(NO_UA_FILE)),
        },
        Invocation::Lsp => {
            let mut steps: Vec<Step> = Vec::new();
            steps.push(Step::ServeEditor);
            assert(step_views(steps@) =~= seq![StepView::ServeEditor]);
            steps
        },
        Invocation::Missing => match working {
            Some(p) => watch_plan(p),
            None => {
                let mut steps: Vec<Step> = Vec::new();
                steps.push(Step::PrintUsage);
                steps.push(Step::Complain(String::from_str("\n").concat(NO_UA_FILE)));
                assert(step_views(steps@) =~= seq![
                    StepView::PrintUsage,
                    StepView::Complain("\n"@ + NO_UA_FILE@),
                ]);
                steps
            },
        },
        Invocation::Invalid => {
            let mut steps: Vec<Step> = Vec::new();
            steps.push(Step::PrintUsage);
            assert(step_views(steps@) =~= seq![StepView::PrintUsage]);
            steps
        },
    }
}

impl Step {
    /// Whether a failure of the step ends the command.
    pub fn is_vital(&self) -> (r: bool)
        ensures
            r == self@.is_vital(),
    {
        match self {
            Step::Format(_) => true,
            Step::Execute { .. } => true,
            _ => false,
        }
    }
}

/// Where the caller begins: at the first step, where the plan has one.
pub fn first_step(steps: &Vec<Step>) -> (r: Next)
    ensures
        r == following(step_views(steps@), -1, false),
        steps@.len() == 0 ==> r == Next::Finished,
        steps@.len() > 0 ==> r == Next::Step(0),
{
    if steps.len() == 0 {
        Next::Finished
    } else {
        Next::Step(0)
    }
}

/// What follows when the step number `at` has been carried out; `failed`
/// says whether it has failed.
///
/// A formatting or a run that has failed ends the command, whatever stands
/// behind it in the plan. Any other step is followed by the next one, and
/// the last one by nothing.
pub fn next_step(steps: &Vec<Step>, at: usize, failed: bool) -> (r: Next)
    ensures
        r == following(step_views(steps@), at as int, failed),
{
    if at >= steps.len() {
        return Next::Finished;
    }
    assert(step_views(steps@)[at as int] == steps@[at as int]@);
    if failed && steps[at].is_vital() {
        Next::Failed
    } else if at + 1 < steps.len() {
        Next::Step(at + 1)
    } else {
        Next::Finished
    }
}

/// A step is carried out only if no formatting and no run before it has
/// failed: where the caller begins with [`first_step`] and goes on with
/// [`next_step`], each step that it is sent to is reached.
pub proof fn lemma_next_is_reached(steps: Seq<StepView>, failed: Seq<bool>, at: int)
    requires
        steps.len() <= usize::MAX,
        failed.len() == steps.len(),
        at == -1 || reached(steps, failed, at),
    ensures
        match following(steps, at, at >= 0 && failed[at]) {
            Next::Step(n) => n == at + 1 && reached(steps, failed, n as int),
            Next::Finished => at == steps.len() - 1,
            Next::Failed => at >= 0 && failed[at] && steps[at].is_vital(),
        },
{
}

/// Where a file is run or tested, a formatting that fails ends the command:
/// the file is not run, and neither the stack nor the line that tells of a
/// test without failures is printed. A run that fails ends it as well, with
/// the same silence. The last step of the plan, which prints the one or the
/// other, is reached only where neither has failed.
pub proof fn lemma_failure_silences(
    inv: Invocation,
    working: Option<Seq<char>>,
    sources: Seq<Seq<char>>,
    failed: Seq<bool>,
)
    requires
        inv is Run || inv is Test,
        failed.len() == plan_spec(inv, working, sources).len(),
        plan_spec(inv, working, sources).len() > 1,
    ensures
        ({
            let steps = plan_spec(inv, working, sources);
            let last = steps.len() - 1;
            &&& steps[last] == if inv is Test {
                StepView::Say(NO_FAILURES@)
            } else {
                StepView::PrintStack
            }
            &&& forall|k: int| 0 <= k < last ==> (#[trigger] steps[k]).is_vital()
            &&& steps[last - 1] is Execute
            &&& reached(steps, failed, last) <==> forall|k: int|
                0 <= k < last ==> !#[trigger] failed[k]
            &&& forall|k: int|
                0 <= k < last && #[trigger] failed[k] ==> following(steps, k, true) == Next::Failed
        }),
{
    let steps = plan_spec(inv, working, sources);
    let last = steps.len() - 1;
    if reached(steps, failed, last) {
        assert forall|k: int| 0 <= k < last implies !#[trigger] failed[k] by {
            assert(steps[k].is_vital());
        }
    }
}

} // verus!
